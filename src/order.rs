//! The listing's order: newest first, ties broken by path.

use crate::entry::{FileKind, TimedEntry, TimedEntryView, views};
use crate::path_text::{
    bytes_le, compare_bytes, lemma_bytes_le_antisymmetric, lemma_bytes_le_reflexive,
    lemma_bytes_le_total, lemma_bytes_le_transitive,
};
use rayon::slice::ParallelSliceMut;
use std::cmp::Ordering;
use vstd::prelude::*;
use vstd::relations::{sorted_by, total_ordering};

verus! {

/// A fixed rank per kind; it orders only entries that agree in time and
/// path, which a single walk never yields.
pub open spec fn kind_rank(k: FileKind) -> int {
    match k {
        FileKind::File => 0,
        FileKind::Dir => 1,
        FileKind::Symlink => 2,
        FileKind::Other => 3,
        FileKind::Unknown => 4,
    }
}

/// `a` may stand before `b` in the listing: `a` is newer, or as new and
/// its path comes no later byte-wise (then kind and depth decide, so that
/// the order is total).
pub open spec fn recency_le(a: TimedEntryView, b: TimedEntryView) -> bool {
    if a.timestamp != b.timestamp {
        a.timestamp > b.timestamp
    } else if a.entry.path != b.entry.path {
        bytes_le(a.entry.path, b.entry.path)
    } else if a.entry.kind != b.entry.kind {
        kind_rank(a.entry.kind) < kind_rank(b.entry.kind)
    } else {
        a.entry.depth <= b.entry.depth
    }
}

/// Every entry of `s` may stand before every later one.
pub open spec fn newest_first(s: Seq<TimedEntryView>) -> bool {
    forall|i: int, j: int| 0 <= i < j < s.len() ==> recency_le(#[trigger] s[i], #[trigger] s[j])
}

/// The listing's order is a total order.
pub proof fn lemma_recency_total_ordering()
    ensures
        total_ordering(|a: TimedEntryView, b: TimedEntryView| recency_le(a, b)),
{
    assert forall|a: TimedEntryView| #[trigger] recency_le(a, a) by {
        lemma_bytes_le_reflexive(a.entry.path);
    }
    assert forall|a: TimedEntryView, b: TimedEntryView|
        #[trigger] recency_le(a, b) && #[trigger] recency_le(b, a) implies a == b by {
        if a.timestamp == b.timestamp && a.entry.path != b.entry.path {
            lemma_bytes_le_antisymmetric(a.entry.path, b.entry.path);
        }
    }
    assert forall|a: TimedEntryView, b: TimedEntryView, c: TimedEntryView|
        #[trigger] recency_le(a, b) && #[trigger] recency_le(b, c) implies recency_le(a, c) by {
        if a.timestamp == b.timestamp && b.timestamp == c.timestamp {
            if a.entry.path != b.entry.path && b.entry.path != c.entry.path {
                lemma_bytes_le_transitive(a.entry.path, b.entry.path, c.entry.path);
                if a.entry.path == c.entry.path {
                    lemma_bytes_le_antisymmetric(a.entry.path, b.entry.path);
                }
            }
        }
    }
    assert forall|a: TimedEntryView, b: TimedEntryView|
        #[trigger] recency_le(a, b) || #[trigger] recency_le(b, a) by {
        lemma_bytes_le_total(a.entry.path, b.entry.path);
    }
}

fn kind_rank_of(k: FileKind) -> (r: u8)
    ensures
        r == kind_rank(k),
{
    match k {
        FileKind::File => 0,
        FileKind::Dir => 1,
        FileKind::Symlink => 2,
        FileKind::Other => 3,
        FileKind::Unknown => 4,
    }
}

/// Compares two entries in the listing's order.
pub fn compare_recency(a: &TimedEntry, b: &TimedEntry) -> (r: Ordering)
    ensures
        (r == Ordering::Equal) == (a@ == b@),
        (r == Ordering::Less) == (recency_le(a@, b@) && a@ != b@),
        (r == Ordering::Greater) == !recency_le(a@, b@),
{
    proof {
        lemma_recency_total_ordering();
    }
    if a.timestamp != b.timestamp {
        if a.timestamp > b.timestamp {
            Ordering::Less
        } else {
            Ordering::Greater
        }
    } else {
        match compare_bytes(&a.entry.path, &b.entry.path) {
            Ordering::Equal => {
                let ra = kind_rank_of(a.entry.kind);
                let rb = kind_rank_of(b.entry.kind);
                if ra != rb {
                    if ra < rb {
                        Ordering::Less
                    } else {
                        Ordering::Greater
                    }
                } else if a.entry.depth < b.entry.depth {
                    Ordering::Less
                } else if a.entry.depth > b.entry.depth {
                    Ordering::Greater
                } else {
                    assert(a.entry.kind == b.entry.kind);
                    Ordering::Equal
                }
            },
            other => other,
        }
    }
}

/// Relies on rayon's `ParallelSliceMut::par_sort_by`, which rearranges the
/// slice into the order of its comparator when that comparator is a total
/// order; `compare_recency` is one (`lemma_recency_total_ordering`).
#[verifier::external_body]
pub(crate) fn par_sort_by_recency(v: &mut Vec<TimedEntry>)
    ensures
        views(final(v)@).to_multiset() == views(old(v)@).to_multiset(),
        newest_first(views(final(v)@)),
{
    v.par_sort_by(|a, b| compare_recency(a, b));
}

/// Two sequences in the listing's order that hold the same entries are
/// the same sequence.
pub proof fn lemma_newest_first_unique(x: Seq<TimedEntryView>, y: Seq<TimedEntryView>)
    requires
        newest_first(x),
        newest_first(y),
        x.to_multiset() == y.to_multiset(),
    ensures
        x == y,
{
    let leq = |a: TimedEntryView, b: TimedEntryView| recency_le(a, b);
    lemma_recency_total_ordering();
    assert(sorted_by(x, leq));
    assert(sorted_by(y, leq));
    vstd::seq_lib::lemma_sorted_unique(x, y, leq);
}

} // verus!
