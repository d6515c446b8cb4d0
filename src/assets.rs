use vstd::prelude::*;
use crate::dedup::{
    lemma_merge_concat, lemma_merge_len, lemma_merge_no_duplicates, merge_distinct, push_distinct,
    views,
};
use crate::text::{eq_ignore_ascii_case, equals_ignore_ascii_case, has_prefix, starts_with};

verus! {

/// One entry of a page of the indexing API: an asset and its quantity.
pub struct AssetsPolicyResponse {
    pub asset: String,
    pub quantity: String,
}

/// The asset identifiers of one page, in page order.
pub open spec fn page_ids(page: Seq<AssetsPolicyResponse>) -> Seq<Seq<char>> {
    page.map_values(|e: AssetsPolicyResponse| e.asset@)
}

/// Page-by-page traversal of the assets of a collection.
///
/// `assets` holds each identifier seen so far once, in the order first seen;
/// `page` is the number of the next page to request; `finished` is set by the
/// first empty page.
pub struct AssetEnumeration {
    pub assets: Vec<String>,
    pub page: u64,
    pub finished: bool,
}

impl AssetEnumeration {
    pub open spec fn ids(&self) -> Seq<Seq<char>> {
        views(self.assets@)
    }

    /// No identifier is held twice.
    pub open spec fn wf(&self) -> bool {
        self.ids().no_duplicates()
    }

    /// A traversal that has seen nothing and asks for page 1 next.
    pub fn new() -> (r: Self)
        ensures
            r.wf(),
            r.ids() == Seq::<Seq<char>>::empty(),
            r.page == 1,
            !r.finished,
    {
        let r = AssetEnumeration { assets: Vec::new(), page: 1, finished: false };
        assert(r.ids() =~= Seq::<Seq<char>>::empty());
        r
    }

    /// Takes in the page numbered `self.page`. An empty page ends the
    /// traversal and changes nothing else; any other page adds its unseen
    /// identifiers and moves on to the next page number.
    pub fn absorb_page(&mut self, entries: &Vec<AssetsPolicyResponse>)
        requires
            old(self).wf(),
            !old(self).finished,
            old(self).page < u64::MAX,
        ensures
            final(self).wf(),
            entries@.len() == 0 ==> final(self).finished && final(self).ids() == old(self).ids()
                && final(self).page == old(self).page,
            entries@.len() > 0 ==> !final(self).finished && final(self).ids() == merge_distinct(
                old(self).ids(),
                page_ids(entries@),
            ) && final(self).page == old(self).page + 1,
    {
        if entries.len() == 0 {
            self.finished = true;
            return ;
        }
        let ghost start = self.ids();
        let mut j: usize = 0;
        while j < entries.len()
            invariant
                j <= entries@.len(),
                !self.finished,
                self.page == old(self).page,
                start == old(self).ids(),
                start.no_duplicates(),
                self.ids() == merge_distinct(start, page_ids(entries@).take(j as int)),
            decreases entries@.len() - j,
        {
            let ghost ids = page_ids(entries@);
            assert(ids.take(j + 1).drop_last() =~= ids.take(j as int));
            assert(ids.take(j + 1).last() == entries@[j as int].asset@);
            push_distinct(&mut self.assets, entries[j].asset.clone());
            j += 1;
        }
        assert(page_ids(entries@).take(entries@.len() as int) =~= page_ids(entries@));
        proof {
            crate::dedup::lemma_merge_no_duplicates(start, page_ids(entries@));
        }
        self.page = self.page + 1;
    }
}

/// The identifiers of each page, page by page.
pub open spec fn pages_ids(pages: Seq<Vec<AssetsPolicyResponse>>) -> Seq<Seq<Seq<char>>> {
    pages.map_values(|p: Vec<AssetsPolicyResponse>| page_ids(p@))
}

/// A traversal from `acc` over `pages`: each page merged in turn, up to the
/// first empty page, which ends it.
pub open spec fn enumerate_pages(acc: Seq<Seq<char>>, pages: Seq<Seq<Seq<char>>>) -> Seq<Seq<char>>
    decreases pages.len(),
{
    if pages.len() == 0 || pages[0].len() == 0 {
        acc
    } else {
        enumerate_pages(merge_distinct(acc, pages[0]), pages.drop_first())
    }
}

/// All the identifiers of the pages before the first empty one, in order.
pub open spec fn listed_before_end(pages: Seq<Seq<Seq<char>>>) -> Seq<Seq<char>>
    decreases pages.len(),
{
    if pages.len() == 0 || pages[0].len() == 0 {
        Seq::empty()
    } else {
        pages[0] + listed_before_end(pages.drop_first())
    }
}

/// A traversal is the merge of everything listed before the first empty page.
pub proof fn lemma_enumerate_is_merge(acc: Seq<Seq<char>>, pages: Seq<Seq<Seq<char>>>)
    ensures
        enumerate_pages(acc, pages) == merge_distinct(acc, listed_before_end(pages)),
    decreases pages.len(),
{
    if pages.len() == 0 || pages[0].len() == 0 {
    } else {
        lemma_enumerate_is_merge(merge_distinct(acc, pages[0]), pages.drop_first());
        lemma_merge_concat(acc, pages[0], listed_before_end(pages.drop_first()));
    }
}

/// The traversal ends at the first empty page: whatever pages come after the
/// empty page numbered `k` (counting from 0), the result is that of the pages
/// before it.
pub proof fn lemma_enumeration_stops_at_empty_page(
    acc: Seq<Seq<char>>,
    pages: Seq<Seq<Seq<char>>>,
    k: int,
    later: Seq<Seq<Seq<char>>>,
)
    requires
        0 <= k < pages.len(),
        pages[k].len() == 0,
    ensures
        enumerate_pages(acc, pages.take(k + 1) + later) == enumerate_pages(acc, pages.take(k)),
    decreases k,
{
    let all = pages.take(k + 1) + later;
    if k == 0 {
        assert(all[0] == pages[0]);
    } else if pages[0].len() == 0 {
        assert(all[0] == pages[0]);
        assert(pages.take(k)[0] == pages[0]);
    } else {
        let next = merge_distinct(acc, pages[0]);
        let rest = pages.drop_first();
        lemma_enumeration_stops_at_empty_page(next, rest, k - 1, later);
        assert(all[0] == pages[0]);
        assert(all.drop_first() =~= rest.take(k) + later);
        assert(pages.take(k)[0] == pages[0]);
        assert(pages.take(k).drop_first() =~= rest.take(k - 1));
    }
}

/// A traversal holds no more identifiers than the pages listed before the
/// first empty one, and exactly as many when none of them repeats.
pub proof fn lemma_enumeration_size(pages: Seq<Seq<Seq<char>>>)
    ensures
        enumerate_pages(Seq::empty(), pages).len() <= listed_before_end(pages).len(),
        enumerate_pages(Seq::empty(), pages).len() == listed_before_end(pages).len()
            <==> listed_before_end(pages).no_duplicates(),
        enumerate_pages(Seq::empty(), pages).no_duplicates(),
{
    let l = listed_before_end(pages);
    lemma_enumerate_is_merge(Seq::empty(), pages);
    lemma_merge_len(Seq::empty(), l);
    lemma_merge_no_duplicates(Seq::empty(), l);
    assert(Seq::<Seq<char>>::empty() + l =~= l);
}

/// Runs a traversal over pages that are already at hand, in order, up to the
/// first empty one.
pub fn enumerate_assets(pages: &Vec<Vec<AssetsPolicyResponse>>) -> (r: Vec<String>)
    requires
        pages@.len() < u64::MAX,
    ensures
        views(r@) == enumerate_pages(Seq::empty(), pages_ids(pages@)),
{
    let ghost all = pages_ids(pages@);
    let mut e = AssetEnumeration::new();
    let mut i: usize = 0;
    assert(all.skip(0) =~= all);
    while i < pages.len()
        invariant
            i <= pages@.len(),
            pages@.len() < u64::MAX,
            all == pages_ids(pages@),
            e.wf(),
            !e.finished,
            e.page == i + 1,
            enumerate_pages(Seq::empty(), all) == enumerate_pages(e.ids(), all.skip(i as int)),
        decreases pages@.len() - i,
    {
        assert(all.skip(i as int)[0] == page_ids(pages@[i as int]@));
        assert(all.skip(i as int).drop_first() =~= all.skip(i + 1));
        e.absorb_page(&pages[i]);
        if e.finished {
            return e.assets;
        }
        i += 1;
    }
    e.assets
}

/// A file listed in an asset's on-chain metadata.
pub struct FileData {
    pub media_type: String,
    pub name: String,
    pub src: String,
}

/// The part of an asset's on-chain metadata that the selection reads.
pub struct BookIoMetadata {
    pub files: Vec<FileData>,
}

/// One asset's record; the metadata block may be absent.
pub struct SpecificAssetResponse {
    pub asset: String,
    pub onchain_metadata: Option<BookIoMetadata>,
}

/// Why no cover image came out of an asset.
pub enum ExtractError {
    /// The asset, named here, carries no on-chain metadata.
    MetadataMissing(String),
    /// The asset, named here, lists no file that passes the selection rule.
    ImageNotFound(String),
}

/// The media type of a cover image begins with this.
pub const IMAGE_MEDIA_PREFIX: &'static str = "image";

/// The name of a cover image's file entry, compared ignoring ASCII case.
pub const COVER_IMAGE_NAME: &'static str = "high-res cover image";

/// The selection rule for one file entry.
pub open spec fn is_cover_entry(f: FileData) -> bool {
    has_prefix(f.media_type@, IMAGE_MEDIA_PREFIX@) && eq_ignore_ascii_case(f.name@, COVER_IMAGE_NAME@)
}

/// Entry `i` is the first in `files` that passes the selection rule.
pub open spec fn is_first_cover(files: Seq<FileData>, i: int) -> bool {
    &&& 0 <= i < files.len()
    &&& is_cover_entry(files[i])
    &&& forall|j: int| 0 <= j < i ==> !is_cover_entry(files[j])
}

/// Some entry of `files` passes the selection rule.
pub open spec fn has_cover(files: Seq<FileData>) -> bool {
    exists|i: int| 0 <= i < files.len() && is_cover_entry(files[i])
}

/// Whether one file entry passes the selection rule.
pub fn is_cover_file(f: &FileData) -> (r: bool)
    ensures
        r == is_cover_entry(*f),
{
    starts_with(f.media_type.as_str(), IMAGE_MEDIA_PREFIX) && equals_ignore_ascii_case(
        f.name.as_str(),
        COVER_IMAGE_NAME,
    )
}

/// The position of the first entry that passes the selection rule.
pub fn select_cover(files: &Vec<FileData>) -> (r: Option<usize>)
    ensures
        r matches Some(i) ==> is_first_cover(files@, i as int),
        r is None <==> !has_cover(files@),
{
    let mut i: usize = 0;
    while i < files.len()
        invariant
            i <= files@.len(),
            forall|j: int| 0 <= j < i ==> !is_cover_entry(files@[j]),
        decreases files@.len() - i,
    {
        if is_cover_file(&files[i]) {
            return Some(i);
        }
        i += 1;
    }
    None
}

/// The cover image locator of one asset: the source of the first file entry
/// that passes the selection rule, as it stands.
pub fn get_image_url(asset: &SpecificAssetResponse) -> (r: Result<String, ExtractError>)
    ensures
        asset.onchain_metadata is None ==> (r matches Err(ExtractError::MetadataMissing(id))
            && id@ == asset.asset@),
        asset.onchain_metadata matches Some(m) ==> {
            &&& r is Ok <==> has_cover(m.files@)
            &&& r matches Ok(u) ==> exists|i: int|
                is_first_cover(m.files@, i) && u@ == m.files@[i].src@
            &&& r is Err ==> (r matches Err(ExtractError::ImageNotFound(id)) && id@
                == asset.asset@)
        },
{
    match &asset.onchain_metadata {
        None => Err(ExtractError::MetadataMissing(asset.asset.clone())),
        Some(m) => match select_cover(&m.files) {
            Some(i) => Ok(m.files[i].src.clone()),
            None => Err(ExtractError::ImageNotFound(asset.asset.clone())),
        },
    }
}

/// Whichever entry the rule picks is the same on every call over the same
/// entries, and its media type begins with the image prefix.
pub proof fn lemma_selection_deterministic(files: Seq<FileData>, i: int, j: int)
    requires
        is_first_cover(files, i),
        is_first_cover(files, j),
    ensures
        i == j,
        has_prefix(files[i].media_type@, IMAGE_MEDIA_PREFIX@),
{
}

/// An entry whose media type does not begin with the image prefix is never
/// the one picked, whatever its name.
pub proof fn lemma_non_image_never_chosen(files: Seq<FileData>, i: int)
    requires
        0 <= i < files.len(),
        !has_prefix(files[i].media_type@, IMAGE_MEDIA_PREFIX@),
    ensures
        !is_first_cover(files, i),
{
}

} // verus!
