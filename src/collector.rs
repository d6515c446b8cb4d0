use vstd::prelude::*;
use crate::assets::ExtractError;
use crate::dedup::{distinct_of, lemma_merge_no_duplicates, push_distinct, views};

verus! {

/// The most cover image locators one run collects.
pub const MAX_IMAGES: usize = 10;

/// The locator that one asset's extraction gave, if it gave one.
pub open spec fn locator(o: Result<String, ExtractError>) -> Option<Seq<char>> {
    match o {
        Ok(u) => Some(u@),
        Err(_) => None,
    }
}

/// The locators given by a run of extractions, in visit order.
pub open spec fn locators(outs: Seq<Result<String, ExtractError>>) -> Seq<Option<Seq<char>>> {
    outs.map_values(|o: Result<String, ExtractError>| locator(o))
}

/// What the collection holds after one more extraction outcome: a new
/// locator is added while there is room, anything else changes nothing.
pub open spec fn collect_step(acc: Seq<Seq<char>>, o: Option<Seq<char>>) -> Seq<Seq<char>> {
    match o {
        Some(u) => if acc.len() < MAX_IMAGES && !acc.contains(u) {
            acc.push(u)
        } else {
            acc
        },
        None => acc,
    }
}

/// What the collection holds after a run of extraction outcomes.
pub open spec fn collected(outs: Seq<Option<Seq<char>>>) -> Seq<Seq<char>>
    decreases outs.len(),
{
    if outs.len() == 0 {
        Seq::empty()
    } else {
        collect_step(collected(outs.drop_last()), outs.last())
    }
}

/// The locators that a run of extractions gave, failures left out.
pub open spec fn found(outs: Seq<Option<Seq<char>>>) -> Seq<Seq<char>>
    decreases outs.len(),
{
    if outs.len() == 0 {
        Seq::empty()
    } else {
        match outs.last() {
            Some(u) => found(outs.drop_last()).push(u),
            None => found(outs.drop_last()),
        }
    }
}

/// The first `MAX_IMAGES` of `s`, or all of it where it is shorter.
pub open spec fn capped(s: Seq<Seq<char>>) -> Seq<Seq<char>> {
    if s.len() <= MAX_IMAGES {
        s
    } else {
        s.take(MAX_IMAGES as int)
    }
}

/// What an extraction outcome did to the collection.
pub enum Recorded {
    /// A new locator was added.
    Added,
    /// The locator was already collected, or the collection is full.
    Discarded,
    /// The extraction failed; the asset is skipped.
    Skipped,
}

/// The distinct cover image locators collected so far, in the order found.
pub struct UrlCollector {
    pub urls: Vec<String>,
}

impl UrlCollector {
    pub open spec fn locators(&self) -> Seq<Seq<char>> {
        views(self.urls@)
    }

    /// An empty collection.
    pub fn new() -> (r: Self)
        ensures
            r.locators() == Seq::<Seq<char>>::empty(),
    {
        let r = UrlCollector { urls: Vec::new() };
        assert(r.locators() =~= Seq::<Seq<char>>::empty());
        r
    }

    /// Whether the collection holds `MAX_IMAGES` locators, so that no further
    /// asset needs to be looked at.
    pub fn is_full(&self) -> (r: bool)
        ensures
            r == (self.locators().len() >= MAX_IMAGES),
    {
        self.urls.len() >= MAX_IMAGES
    }

    /// Takes in the outcome of one asset's extraction.
    pub fn record(&mut self, outcome: &Result<String, ExtractError>) -> (r: Recorded)
        ensures
            final(self).locators() == collect_step(old(self).locators(), locator(*outcome)),
            r is Skipped <==> outcome is Err,
            r is Added <==> final(self).locators().len() == old(self).locators().len() + 1,
    {
        match outcome {
            Ok(u) => {
                if self.urls.len() >= MAX_IMAGES {
                    Recorded::Discarded
                } else if push_distinct(&mut self.urls, u.clone()) {
                    Recorded::Added
                } else {
                    Recorded::Discarded
                }
            },
            Err(_) => Recorded::Skipped,
        }
    }
}

/// The locators collected from the outcomes of the assets' extractions, taken
/// in visit order.
pub fn get_distinct_cover_image_urls(outcomes: &Vec<Result<String, ExtractError>>) -> (r: Vec<
    String,
>)
    ensures
        views(r@) == collected(locators(outcomes@)),
{
    let ghost outs = locators(outcomes@);
    let mut c = UrlCollector::new();
    let mut i: usize = 0;
    while i < outcomes.len()
        invariant
            i <= outcomes@.len(),
            outs == locators(outcomes@),
            c.locators() == collected(outs.take(i as int)),
        decreases outcomes@.len() - i,
    {
        assert(outs.take(i + 1).drop_last() =~= outs.take(i as int));
        c.record(&outcomes[i]);
        i += 1;
    }
    assert(outs.take(outcomes@.len() as int) =~= outs);
    c.urls
}

/// The collection is exactly the first `MAX_IMAGES` distinct locators found,
/// in visit order: never more than `MAX_IMAGES`, never one twice, and every
/// distinct locator found where fewer than `MAX_IMAGES` were.
pub proof fn lemma_collected_first_distinct(outs: Seq<Option<Seq<char>>>)
    ensures
        collected(outs) == capped(distinct_of(found(outs))),
        collected(outs).len() <= MAX_IMAGES,
        collected(outs).no_duplicates(),
        distinct_of(found(outs)).len() < MAX_IMAGES ==> collected(outs).len() == distinct_of(
            found(outs),
        ).len(),
    decreases outs.len(),
{
    if outs.len() > 0 {
        let prev = outs.drop_last();
        lemma_collected_first_distinct(prev);
        let d = distinct_of(found(prev));
        if let Some(u) = outs.last() {
            let f = found(prev);
            assert(found(outs) == f.push(u));
            assert(f.push(u).drop_last() =~= f);
            assert(f.push(u).last() == u);
            let d2 = distinct_of(found(outs));
            assert(d2 == if d.contains(u) { d } else { d.push(u) });
            if d.len() >= MAX_IMAGES {
                assert(d2.take(MAX_IMAGES as int) =~= d.take(MAX_IMAGES as int));
                assert(capped(d) =~= d.take(MAX_IMAGES as int));
            }
        }
    }
    let d = distinct_of(found(outs));
    lemma_merge_no_duplicates(Seq::empty(), found(outs));
    let c = collected(outs);
    assert forall|i: int, j: int| 0 <= i < c.len() && 0 <= j < c.len() && i != j implies c[i]
        != c[j] by {
        assert(c[i] == d[i] && c[j] == d[j]);
    }
}

} // verus!
