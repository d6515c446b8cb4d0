use vstd::prelude::*;
use vstd::string::*;
use crate::dedup::{distinct_of, lemma_merge_contains, push_distinct, views};
use crate::text::{has_suffix, strip_prefix_or_keep, strip_suffix, without_prefix};

verus! {

/// The scheme that image locators carry before the content identifier.
pub const IPFS_SCHEME: &'static str = "ipfs://";

/// The extension of the image files written to the output directory.
pub const IMAGE_EXTENSION: &'static str = "png";

/// The gateway that serves content by identifier.
pub const IPFS_BASE_URL: &'static str = "http://ipfs.blockfrost.dev/ipfs";

/// The indexing API of the chain.
pub const MAINNET_BASE_URL: &'static str = "https://cardano-mainnet.blockfrost.io/api/v0";

/// A dot followed by the extension.
pub open spec fn dot_ext(ext: Seq<char>) -> Seq<char> {
    seq!['.'] + ext
}

/// The name of the file that holds the content `cid`.
pub open spec fn file_name(cid: Seq<char>, ext: Seq<char>) -> Seq<char> {
    cid + dot_ext(ext)
}

/// The content identifier that a file name stands for: the name without the
/// dot and the extension, where it ends with them.
pub open spec fn stem(name: Seq<char>, ext: Seq<char>) -> Option<Seq<char>> {
    if has_suffix(name, dot_ext(ext)) {
        Some(name.take(name.len() - dot_ext(ext).len()))
    } else {
        None
    }
}

/// The content identifiers that the file names stand for, in order.
pub open spec fn stems(names: Seq<Seq<char>>, ext: Seq<char>) -> Seq<Seq<char>>
    decreases names.len(),
{
    if names.len() == 0 {
        Seq::empty()
    } else {
        match stem(names.last(), ext) {
            Some(s) => stems(names.drop_last(), ext).push(s),
            None => stems(names.drop_last(), ext),
        }
    }
}

/// The content identifiers already in the output directory, given its file
/// names: each once.
pub open spec fn present_cids(names: Seq<Seq<char>>, ext: Seq<char>) -> Seq<Seq<char>> {
    distinct_of(stems(names, ext))
}

/// The bare content identifier of a locator.
pub open spec fn normalize(url: Seq<char>) -> Seq<char> {
    without_prefix(url, IPFS_SCHEME@)
}

/// The bare content identifiers of the locators, in order.
pub open spec fn normalized(urls: Seq<Seq<char>>) -> Seq<Seq<char>> {
    urls.map_values(|u: Seq<char>| normalize(u))
}

/// The items of `cids` that `present` does not hold, in order.
pub open spec fn missing(cids: Seq<Seq<char>>, present: Seq<Seq<char>>) -> Seq<Seq<char>>
    decreases cids.len(),
{
    if cids.len() == 0 {
        Seq::empty()
    } else if present.contains(cids.last()) {
        missing(cids.drop_last(), present)
    } else {
        missing(cids.drop_last(), present).push(cids.last())
    }
}

/// The content identifiers to fetch: those of the locators that are not
/// present yet, each once.
pub open spec fn to_download(urls: Seq<Seq<char>>, present: Seq<Seq<char>>) -> Seq<Seq<char>> {
    distinct_of(missing(normalized(urls), present))
}

/// The bare content identifier of a locator: without the `ipfs://` scheme
/// where it has it, unchanged otherwise.
pub fn normalize_locator(url: &str) -> (r: String)
    ensures
        r@ == normalize(url@),
{
    strip_prefix_or_keep(url, IPFS_SCHEME)
}

/// The name of the file that holds the content `cid`.
pub fn file_name_for(cid: &str, ext: &str) -> (r: String)
    ensures
        r@ == file_name(cid@, ext@),
{
    proof {
        reveal_strlit(".");
    }
    let r = cid.to_owned().concat(".").concat(ext);
    assert(r@ =~= file_name(cid@, ext@));
    r
}

/// The content identifier that a file name stands for, if it ends with the
/// dot and the extension.
pub fn stem_of(name: &str, ext: &str) -> (r: Option<String>)
    ensures
        r matches Some(s) ==> stem(name@, ext@) == Some(s@),
        r is None <==> stem(name@, ext@) is None,
{
    proof {
        reveal_strlit(".");
    }
    let suffix = ".".to_owned().concat(ext);
    assert(suffix@ =~= dot_ext(ext@));
    strip_suffix(name, suffix.as_str())
}

/// The address at the gateway of the content `cid`.
pub fn gateway_url(cid: &str) -> (r: String)
    ensures
        r@ == IPFS_BASE_URL@ + seq!['/'] + cid@,
{
    proof {
        reveal_strlit("/");
    }
    let r = IPFS_BASE_URL.to_owned().concat("/").concat(cid);
    assert(r@ =~= IPFS_BASE_URL@ + seq!['/'] + cid@);
    r
}

/// The content identifiers already in the output directory, given the names
/// of its entries: each name that ends with the dot and the extension gives
/// its stem, once; other names give nothing.
pub fn get_filenames_from_output_dir(names: &Vec<String>, ext: &str) -> (r: Vec<String>)
    ensures
        views(r@) == present_cids(views(names@), ext@),
{
    let ghost all = views(names@);
    let mut out: Vec<String> = Vec::new();
    let mut i: usize = 0;
    assert(views(out@) =~= Seq::<Seq<char>>::empty());
    while i < names.len()
        invariant
            i <= names@.len(),
            all == views(names@),
            views(out@) == distinct_of(stems(all.take(i as int), ext@)),
        decreases names@.len() - i,
    {
        let ghost before = stems(all.take(i as int), ext@);
        assert(all.take(i + 1).drop_last() =~= all.take(i as int));
        assert(all.take(i + 1).last() == names@[i as int]@);
        match stem_of(names[i].as_str(), ext) {
            Some(s) => {
                assert(stems(all.take(i + 1), ext@) == before.push(s@));
                assert(before.push(s@).drop_last() =~= before);
                push_distinct(&mut out, s);
            },
            None => {},
        }
        i += 1;
    }
    assert(all.take(names@.len() as int) =~= all);
    out
}

/// The content identifiers to fetch: those of the locators `urls`, bare, that
/// `present` does not hold, each once, in the order of `urls`.
pub fn cids_to_download(urls: &Vec<String>, present: &Vec<String>) -> (r: Vec<String>)
    ensures
        views(r@) == to_download(views(urls@), views(present@)),
{
    let ghost norm = normalized(views(urls@));
    let ghost p = views(present@);
    let mut out: Vec<String> = Vec::new();
    let mut i: usize = 0;
    assert(views(out@) =~= Seq::<Seq<char>>::empty());
    while i < urls.len()
        invariant
            i <= urls@.len(),
            norm == normalized(views(urls@)),
            p == views(present@),
            views(out@) == distinct_of(missing(norm.take(i as int), p)),
        decreases urls@.len() - i,
    {
        let ghost before = missing(norm.take(i as int), p);
        assert(norm.take(i + 1).drop_last() =~= norm.take(i as int));
        assert(norm.take(i + 1).last() == normalize(urls@[i as int]@));
        let cid = normalize_locator(urls[i].as_str());
        if !crate::dedup::contains_string(present, &cid) {
            assert(missing(norm.take(i + 1), p) == before.push(cid@));
            assert(before.push(cid@).drop_last() =~= before);
            push_distinct(&mut out, cid);
        }
        i += 1;
    }
    assert(norm.take(urls@.len() as int) =~= norm);
    out
}

/// The short label of a download: the first five and the last five characters
/// of `cid` around an ellipsis, or `cid` itself where it is shorter than five.
pub fn progress_label(cid: &str) -> (r: String)
    ensures
        cid@.len() >= 5 ==> r@ == cid@.take(5) + seq!['.', '.', '.'] + cid@.skip(cid@.len() - 5),
        cid@.len() < 5 ==> r@ == cid@,
{
    proof {
        reveal_strlit("...");
    }
    let n = cid.unicode_len();
    if n < 5 {
        return cid.to_owned();
    }
    let r = cid.substring_char(0, 5).to_owned().concat("...").concat(cid.substring_char(n - 5, n));
    assert(r@ =~= cid@.take(5) + seq!['.', '.', '.'] + cid@.skip(cid@.len() - 5));
    r
}

/// Where `downloaded` bytes were received and a chunk of `chunk` bytes comes
/// in, the progress to show: the bytes received, but never past the declared
/// `total`; with no total declared, never past the largest `u64`.
pub fn progress_position(total: Option<u64>, downloaded: u64, chunk: u64) -> (r: u64)
    ensures
        r as int == match total {
            Some(t) => if downloaded + chunk <= t {
                downloaded + chunk
            } else {
                t as int
            },
            None => if downloaded + chunk <= u64::MAX {
                downloaded + chunk
            } else {
                u64::MAX as int
            },
        },
{
    let limit = match total {
        Some(t) => t,
        None => u64::MAX,
    };
    if chunk > limit || downloaded > limit - chunk {
        limit
    } else {
        downloaded + chunk
    }
}

/// A file written for the content `cid` is read back as `cid`.
pub proof fn lemma_file_name_round_trip(cid: Seq<char>, ext: Seq<char>)
    ensures
        stem(file_name(cid, ext), ext) == Some(cid),
{
    let n = file_name(cid, ext);
    assert(n.skip(n.len() - dot_ext(ext).len()) =~= dot_ext(ext));
    assert(n.take(n.len() - dot_ext(ext).len()) =~= cid);
}

proof fn lemma_stems_concat(a: Seq<Seq<char>>, b: Seq<Seq<char>>, ext: Seq<char>)
    ensures
        stems(a + b, ext) == stems(a, ext) + stems(b, ext),
    decreases b.len(),
{
    if b.len() == 0 {
        assert(a + b =~= a);
        assert(stems(a, ext) + stems(b, ext) =~= stems(a, ext));
    } else {
        lemma_stems_concat(a, b.drop_last(), ext);
        assert((a + b).drop_last() =~= a + b.drop_last());
        assert((a + b).last() == b.last());
        match stem(b.last(), ext) {
            Some(s) => {
                assert(stems(a, ext) + stems(b.drop_last(), ext).push(s) =~= (stems(a, ext)
                    + stems(b.drop_last(), ext)).push(s));
            },
            None => {},
        }
    }
}

proof fn lemma_stems_of_written(cids: Seq<Seq<char>>, ext: Seq<char>)
    ensures
        stems(cids.map_values(|c: Seq<char>| file_name(c, ext)), ext) == cids,
    decreases cids.len(),
{
    let f = cids.map_values(|c: Seq<char>| file_name(c, ext));
    if cids.len() == 0 {
        assert(stems(f, ext) =~= cids);
    } else {
        lemma_stems_of_written(cids.drop_last(), ext);
        assert(f.drop_last() =~= cids.drop_last().map_values(|c: Seq<char>| file_name(c, ext)));
        lemma_file_name_round_trip(cids.last(), ext);
        assert(cids.drop_last().push(cids.last()) =~= cids);
    }
}

proof fn lemma_missing_contains(cids: Seq<Seq<char>>, present: Seq<Seq<char>>, x: Seq<char>)
    ensures
        missing(cids, present).contains(x) <==> (cids.contains(x) && !present.contains(x)),
    decreases cids.len(),
{
    if cids.len() > 0 {
        let d = cids.drop_last();
        lemma_missing_contains(d, present, x);
        let m = missing(d, present);
        if d.contains(x) {
            let i = choose|i: int| 0 <= i < d.len() && d[i] == x;
            assert(cids[i] == x);
        }
        if cids.contains(x) && x != cids.last() {
            let i = choose|i: int| 0 <= i < cids.len() && cids[i] == x;
            assert(d[i] == x);
        }
        if !present.contains(cids.last()) {
            let n = m.push(cids.last());
            assert(n[m.len() as int] == cids.last());
            if n.contains(x) && x != cids.last() {
                let i = choose|i: int| 0 <= i < n.len() && n[i] == x;
                assert(m[i] == x);
            }
            if m.contains(x) {
                let i = choose|i: int| 0 <= i < m.len() && m[i] == x;
                assert(n[i] == x);
            }
        }
    }
}

/// Once every planned file has been written, planning again over the same
/// locators finds nothing to fetch.
pub proof fn lemma_second_run_fetches_nothing(
    urls: Seq<Seq<char>>,
    names: Seq<Seq<char>>,
    ext: Seq<char>,
)
    ensures
        to_download(
            urls,
            present_cids(
                names + to_download(urls, present_cids(names, ext)).map_values(
                    |c: Seq<char>| file_name(c, ext),
                ),
                ext,
            ),
        ).len() == 0,
{
    let present1 = present_cids(names, ext);
    let first = to_download(urls, present1);
    let written = first.map_values(|c: Seq<char>| file_name(c, ext));
    let present2 = present_cids(names + written, ext);
    let norm = normalized(urls);
    lemma_stems_concat(names, written, ext);
    lemma_stems_of_written(first, ext);
    let left = missing(norm, present2);
    if left.len() > 0 {
        let x = left[0];
        assert(left.contains(x));
        lemma_missing_contains(norm, present2, x);
        lemma_merge_contains(Seq::empty(), stems(names, ext) + first, x);
        lemma_merge_contains(Seq::empty(), stems(names, ext), x);
        lemma_missing_contains(norm, present1, x);
        lemma_merge_contains(Seq::empty(), missing(norm, present1), x);
        if stems(names, ext).contains(x) {
            let i = choose|i: int| 0 <= i < stems(names, ext).len() && stems(names, ext)[i] == x;
            assert((stems(names, ext) + first)[i] == x);
        } else {
            let i = choose|i: int| 0 <= i < first.len() && first[i] == x;
            assert((stems(names, ext) + first)[stems(names, ext).len() + i] == x);
        }
        assert(false);
    }
}

} // verus!
