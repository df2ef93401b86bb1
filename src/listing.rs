//! Gathering what the walk found into the listing.

use crate::config::WalkConfig;
use crate::entry::{TimedEntry, TimedEntryView, views};
use crate::order::{newest_first, par_sort_by_recency};
use vstd::multiset::Multiset;
use vstd::prelude::*;

verus! {

impl WalkConfig {
    /// The entries of `found` that the run lists, counted with repetition.
    pub open spec fn listed(&self, found: Seq<TimedEntryView>) -> Multiset<TimedEntryView> {
        found.to_multiset().filter(|e: TimedEntryView| self.admits(e.entry))
    }

    /// `out` is the listing for the entries `found`: exactly those the run
    /// admits, newest first.
    pub open spec fn orders(&self, found: Seq<TimedEntryView>, out: Seq<TimedEntryView>) -> bool {
        &&& out.to_multiset() == self.listed(found)
        &&& newest_first(out)
    }

    /// The listing for the entries that the walk found, in whatever order
    /// they arrived.
    pub fn collect(&self, found: Vec<TimedEntry>) -> (r: Vec<TimedEntry>)
        ensures
            self.orders(views(found@), views(r@)),
    {
        broadcast use vstd::multiset::group_multiset_axioms;
        broadcast use vstd::seq_lib::group_to_multiset_ensures;

        let ghost all = views(found@);
        let ghost f = |e: TimedEntryView| self.admits(e.entry);
        let mut rest = found;
        let mut kept: Vec<TimedEntry> = Vec::new();
        assert(views(kept@).to_multiset() =~= Multiset::empty());
        while rest.len() > 0
            invariant
                f == (|e: TimedEntryView| self.admits(e.entry)),
                views(rest@).to_multiset().filter(f).add(views(kept@).to_multiset())
                    == all.to_multiset().filter(f),
                views(kept@).to_multiset().filter(f) == views(kept@).to_multiset(),
            decreases rest@.len(),
        {
            let ghost before = rest@;
            let e = rest.pop().unwrap();
            assert(before =~= rest@.push(e));
            assert(views(before) =~= views(rest@).push(e@));
            let keep = self.accept(&e.entry);
            assert(f(e@) == keep);
            let ghost kept_before = kept@;
            let ghost rest_ms = views(rest@).to_multiset();
            let ghost kept_ms = views(kept_before).to_multiset();
            proof {
                vstd::seq_lib::to_multiset_build(views(rest@), e@);
            }
            assert(views(before).to_multiset() == rest_ms.insert(e@));
            if keep {
                kept.push(e);
                assert(views(kept@) =~= views(kept_before).push(e@));
                proof {
                    vstd::seq_lib::to_multiset_build(views(kept_before), e@);
                }
            }
            assert forall|v: TimedEntryView|
                #[trigger] views(rest@).to_multiset().filter(f).add(views(kept@).to_multiset()).count(v)
                == all.to_multiset().filter(f).count(v) by {
                assert(rest_ms.insert(e@).filter(f).add(kept_ms).count(v)
                    == all.to_multiset().filter(f).count(v));
            }
            assert(views(rest@).to_multiset().filter(f).add(views(kept@).to_multiset())
                =~= all.to_multiset().filter(f));
            assert forall|v: TimedEntryView|
                #[trigger] views(kept@).to_multiset().filter(f).count(v)
                == views(kept@).to_multiset().count(v) by {
                assert(kept_ms.filter(f).count(v) == kept_ms.count(v));
            }
            assert(views(kept@).to_multiset().filter(f) =~= views(kept@).to_multiset());
        }
        assert(views(rest@).to_multiset() =~= Multiset::empty());
        assert(views(kept@).to_multiset() =~= all.to_multiset().filter(f));
        par_sort_by_recency(&mut kept);
        kept
    }
}

} // verus!
