use vstd::prelude::*;

verus! {

/// The character sequences of a list of strings.
pub open spec fn views(v: Seq<String>) -> Seq<Seq<char>> {
    v.map_values(|s: String| s@)
}

/// `acc` followed by each item of `ids` that is not already there, in order,
/// each kept at its first occurrence.
pub open spec fn merge_distinct(acc: Seq<Seq<char>>, ids: Seq<Seq<char>>) -> Seq<Seq<char>>
    decreases ids.len(),
{
    if ids.len() == 0 {
        acc
    } else {
        let m = merge_distinct(acc, ids.drop_last());
        if m.contains(ids.last()) {
            m
        } else {
            m.push(ids.last())
        }
    }
}

/// The items of `ids` without repeats, each at its first occurrence.
pub open spec fn distinct_of(ids: Seq<Seq<char>>) -> Seq<Seq<char>> {
    merge_distinct(Seq::empty(), ids)
}

/// An item is in the merge exactly when it is in `acc` or in `ids`.
pub proof fn lemma_merge_contains(acc: Seq<Seq<char>>, ids: Seq<Seq<char>>, x: Seq<char>)
    ensures
        merge_distinct(acc, ids).contains(x) <==> (acc.contains(x) || ids.contains(x)),
    decreases ids.len(),
{
    if ids.len() > 0 {
        let d = ids.drop_last();
        lemma_merge_contains(acc, d, x);
        if d.contains(x) {
            let i = choose|i: int| 0 <= i < d.len() && d[i] == x;
            assert(ids[i] == x);
        }
        if ids.contains(x) && x != ids.last() {
            let i = choose|i: int| 0 <= i < ids.len() && ids[i] == x;
            assert(d[i] == x);
        }
        if x == ids.last() {
            assert(ids[ids.len() - 1] == x);
            assert(merge_distinct(acc, d).push(x)[merge_distinct(acc, d).len() as int] == x);
        }
        let m = merge_distinct(acc, d);
        if !m.contains(ids.last()) {
            if m.push(ids.last()).contains(x) && x != ids.last() {
                let i = choose|i: int| 0 <= i < m.len() + 1 && m.push(ids.last())[i] == x;
                assert(m[i] == x);
            }
            if m.contains(x) {
                let i = choose|i: int| 0 <= i < m.len() && m[i] == x;
                assert(m.push(ids.last())[i] == x);
            }
        }
    }
}

/// The merge keeps a list without repeats free of repeats.
pub proof fn lemma_merge_no_duplicates(acc: Seq<Seq<char>>, ids: Seq<Seq<char>>)
    requires
        acc.no_duplicates(),
    ensures
        merge_distinct(acc, ids).no_duplicates(),
    decreases ids.len(),
{
    if ids.len() > 0 {
        lemma_merge_no_duplicates(acc, ids.drop_last());
        let m = merge_distinct(acc, ids.drop_last());
        if !m.contains(ids.last()) {
            let n = m.push(ids.last());
            assert forall|i: int, j: int| 0 <= i < n.len() && 0 <= j < n.len() && i != j implies n[i]
                != n[j] by {
                if i == m.len() {
                    assert(!m.contains(n[i]));
                    assert(n[j] == m[j]);
                } else if j == m.len() {
                    assert(n[i] == m[i]);
                } else {
                    assert(n[i] == m[i] && n[j] == m[j]);
                }
            }
        }
    }
}

/// Merging two lists one after the other is merging their concatenation.
pub proof fn lemma_merge_concat(acc: Seq<Seq<char>>, p: Seq<Seq<char>>, q: Seq<Seq<char>>)
    ensures
        merge_distinct(merge_distinct(acc, p), q) == merge_distinct(acc, p + q),
    decreases q.len(),
{
    if q.len() == 0 {
        assert(p + q =~= p);
    } else {
        lemma_merge_concat(acc, p, q.drop_last());
        assert((p + q).drop_last() =~= p + q.drop_last());
        assert((p + q).last() == q.last());
    }
}

/// The merge is never longer than its inputs together, and exactly as long
/// when they hold no item twice.
pub proof fn lemma_merge_len(acc: Seq<Seq<char>>, ids: Seq<Seq<char>>)
    requires
        acc.no_duplicates(),
    ensures
        merge_distinct(acc, ids).len() <= acc.len() + ids.len(),
        merge_distinct(acc, ids).len() == acc.len() + ids.len() <==> (acc + ids).no_duplicates(),
    decreases ids.len(),
{
    if ids.len() > 0 {
        let d = ids.drop_last();
        let x = ids.last();
        lemma_merge_len(acc, d);
        let m = merge_distinct(acc, d);
        let all = acc + ids;
        assert(all.drop_last() =~= acc + d);
        assert(all.last() == x);
        lemma_merge_contains(acc, d, x);
        assert((acc + d).contains(x) <==> (acc.contains(x) || d.contains(x))) by {
            if (acc + d).contains(x) {
                let i = choose|i: int| 0 <= i < (acc + d).len() && (acc + d)[i] == x;
                if i < acc.len() {
                    assert(acc[i] == x);
                } else {
                    assert(d[i - acc.len()] == x);
                }
            }
            if acc.contains(x) {
                let i = choose|i: int| 0 <= i < acc.len() && acc[i] == x;
                assert((acc + d)[i] == x);
            }
            if d.contains(x) {
                let i = choose|i: int| 0 <= i < d.len() && d[i] == x;
                assert((acc + d)[acc.len() + i] == x);
            }
        }
        if m.contains(x) {
            let i = choose|i: int| 0 <= i < (acc + d).len() && (acc + d)[i] == x;
            assert(all[i] == x && all[all.len() - 1] == x);
        } else {
            if all.no_duplicates() {
                assert((acc + d).no_duplicates()) by {
                    assert forall|i: int, j: int|
                        0 <= i < (acc + d).len() && 0 <= j < (acc + d).len() && i != j implies (acc
                        + d)[i] != (acc + d)[j] by {
                        assert(all[i] == (acc + d)[i] && all[j] == (acc + d)[j]);
                    }
                }
            }
            if (acc + d).no_duplicates() {
                assert forall|i: int, j: int|
                    0 <= i < all.len() && 0 <= j < all.len() && i != j implies all[i] != all[j] by {
                    if i == all.len() - 1 {
                        assert(!(acc + d).contains(x));
                        assert(all[j] == (acc + d)[j]);
                    } else if j == all.len() - 1 {
                        assert(!(acc + d).contains(x));
                        assert(all[i] == (acc + d)[i]);
                    } else {
                        assert(all[i] == (acc + d)[i] && all[j] == (acc + d)[j]);
                    }
                }
            }
        }
    }
}

/// Whether `v` holds a string equal to `s`.
pub fn contains_string(v: &Vec<String>, s: &String) -> (r: bool)
    ensures
        r == views(v@).contains(s@),
{
    let mut i: usize = 0;
    while i < v.len()
        invariant
            i <= v@.len(),
            forall|j: int| 0 <= j < i ==> v@[j]@ != s@,
        decreases v@.len() - i,
    {
        if v[i] == *s {
            assert(views(v@)[i as int] == s@);
            return true;
        }
        i += 1;
    }
    proof {
        if views(v@).contains(s@) {
            let j = choose|j: int| 0 <= j < views(v@).len() && views(v@)[j] == s@;
            assert(v@[j]@ == s@);
        }
    }
    false
}

/// Appends `s` to `v` unless `v` already holds it; returns whether it was added.
pub fn push_distinct(v: &mut Vec<String>, s: String) -> (added: bool)
    ensures
        added == !views(old(v)@).contains(s@),
        added ==> views(final(v)@) == views(old(v)@).push(s@),
        !added ==> final(v)@ == old(v)@,
{
    if contains_string(v, &s) {
        false
    } else {
        let ghost before = v@;
        v.push(s);
        assert(views(v@) =~= views(before).push(s@));
        true
    }
}

} // verus!
