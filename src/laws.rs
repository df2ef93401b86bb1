//! What holds of every listing.

use crate::config::{beneath, WalkConfig};
use crate::entry::{EntryView, FileKind, TimedEntryView};
use crate::order::{lemma_newest_first_unique, newest_first, recency_le};
use crate::path_text::{
    bytes_le, git_component_at, lemma_bytes_le_reflexive, has_git_component, joined, lemma_git_component_of_suffix, SLASH,
};
use vstd::prelude::*;

verus! {

/// Every entry of a listing is one that the run admits.
pub proof fn lemma_listed_entries_admitted(
    cfg: WalkConfig,
    found: Seq<TimedEntryView>,
    out: Seq<TimedEntryView>,
    i: int,
)
    requires
        cfg.orders(found, out),
        0 <= i < out.len(),
    ensures
        cfg.admits(out[i].entry),
{
    broadcast use vstd::multiset::group_multiset_axioms;
    broadcast use vstd::seq_lib::group_to_multiset_ensures;

    assert(out.contains(out[i]));
    assert(out.to_multiset().count(out[i]) > 0);
    assert(cfg.listed(found).count(out[i]) > 0);
}

/// No shown path of a listing has a component named `.git`.
pub proof fn lemma_listing_has_no_git_component(
    cfg: WalkConfig,
    found: Seq<TimedEntryView>,
    out: Seq<TimedEntryView>,
)
    requires
        cfg.wf(),
        cfg.orders(found, out),
    ensures
        forall|i: int|
            0 <= i < out.len() ==> (#[trigger] cfg.shown(out[i].entry.path) matches Some(t)
                ==> !has_git_component(t)),
{
    assert forall|i: int| 0 <= i < out.len() implies (#[trigger] cfg.shown(
        out[i].entry.path,
    ) matches Some(t) ==> !has_git_component(t)) by {
        lemma_listed_entries_admitted(cfg, found, out, i);
        let p = out[i].entry.path;
        let n = cfg.base@.len() as int;
        if !cfg.full_path {
            if cfg.prefix_target {
                let d = joined(cfg.target@, p);
                assert(d.subrange(n + 1, d.len() as int) =~= p);
            } else if p.len() > n {
                if has_git_component(p.subrange(n + 1, p.len() as int)) {
                    lemma_git_component_of_suffix(p, n);
                }
            }
        }
    }
}

/// With only directories asked for, every entry of a listing is a
/// directory.
pub proof fn lemma_dirs_only_listing(
    cfg: WalkConfig,
    found: Seq<TimedEntryView>,
    out: Seq<TimedEntryView>,
)
    requires
        cfg.orders(found, out),
        cfg.dirs_only,
    ensures
        forall|i: int| 0 <= i < out.len() ==> (#[trigger] out[i]).entry.kind == FileKind::Dir,
{
    assert forall|i: int| 0 <= i < out.len() implies (#[trigger] out[i]).entry.kind
        == FileKind::Dir by {
        lemma_listed_entries_admitted(cfg, found, out, i);
    }
}

/// When the walk declines to enter a directory of its tree, nothing below
/// it would have been listed: pruning leaves out only what the listing
/// leaves out anyway. (A completion prefix that reaches past the directory
/// is the exception, and is excluded here.)
pub proof fn lemma_pruning_agrees_with_listing(
    cfg: WalkConfig,
    dir: EntryView,
    below: EntryView,
    rest: Seq<u8>,
)
    requires
        dir.kind == FileKind::Dir,
        beneath(cfg.root@, cfg.base@, dir.path),
        below.path == joined(dir.path, rest),
        dir.depth <= below.depth,
        cfg.leftover@.len() <= dir.path.len(),
        !cfg.admits(dir),
    ensures
        !cfg.admits(below),
{
    let p = dir.path;
    let q = below.path;
    assert(q.subrange(0, p.len() as int) =~= p);
    assert(q[p.len() as int] == SLASH);
    if has_git_component(p) {
        let i = choose|i: int| git_component_at(p, i);
        assert(git_component_at(q, i));
    }
    if beneath(cfg.root@, cfg.base@, q) && cfg.leftover@.len() > 0 && cfg.leftover@.is_prefix_of(
        q,
    ) {
        assert(cfg.leftover@ =~= p.subrange(0, cfg.leftover@.len() as int));
    }
}

/// A listing runs newest first; entries of the same time come in
/// byte-wise order of their paths.
pub proof fn lemma_listing_newest_first(
    cfg: WalkConfig,
    found: Seq<TimedEntryView>,
    out: Seq<TimedEntryView>,
    i: int,
)
    requires
        cfg.orders(found, out),
        0 <= i,
        i + 1 < out.len(),
    ensures
        out[i].timestamp >= out[i + 1].timestamp,
        out[i].timestamp == out[i + 1].timestamp ==> bytes_le(
            out[i].entry.path,
            out[i + 1].entry.path,
        ),
{
    assert(recency_le(out[i], out[i + 1]));
    lemma_recency_le_unfolds(out[i], out[i + 1]);
}

proof fn lemma_recency_le_unfolds(a: TimedEntryView, b: TimedEntryView)
    requires
        recency_le(a, b),
    ensures
        a.timestamp >= b.timestamp,
        a.timestamp == b.timestamp ==> bytes_le(a.entry.path, b.entry.path),
{
    if a.timestamp == b.timestamp && a.entry.path == b.entry.path {
        lemma_bytes_le_reflexive(a.entry.path);
    }
}

/// The walk may find the same entries in any order: the listing, and so
/// every output line, is the same.
pub proof fn lemma_listing_deterministic(
    cfg: WalkConfig,
    found1: Seq<TimedEntryView>,
    found2: Seq<TimedEntryView>,
    out1: Seq<TimedEntryView>,
    out2: Seq<TimedEntryView>,
)
    requires
        found1.to_multiset() == found2.to_multiset(),
        cfg.orders(found1, out1),
        cfg.orders(found2, out2),
    ensures
        out1 == out2,
        cfg.lines(out1) == cfg.lines(out2),
{
    lemma_newest_first_unique(out1, out2);
}

/// With a depth cutoff, no entry of a listing lies deeper.
pub proof fn lemma_listing_depth_bound(
    cfg: WalkConfig,
    found: Seq<TimedEntryView>,
    out: Seq<TimedEntryView>,
    n: usize,
)
    requires
        cfg.orders(found, out),
        cfg.max_depth == Some(n),
    ensures
        forall|i: int| 0 <= i < out.len() ==> (#[trigger] out[i]).entry.depth <= n,
{
    assert forall|i: int| 0 <= i < out.len() implies (#[trigger] out[i]).entry.depth <= n by {
        lemma_listed_entries_admitted(cfg, found, out, i);
    }
}

/// In path-completion mode every path of a listing starts with the root,
/// a separator and the fragment, and the root itself is never listed.
pub proof fn lemma_completion_listing(
    cfg: WalkConfig,
    found: Seq<TimedEntryView>,
    out: Seq<TimedEntryView>,
)
    requires
        cfg.wf(),
        cfg.orders(found, out),
        cfg.fragment@.len() > 0,
    ensures
        forall|i: int|
            0 <= i < out.len() ==> joined(cfg.root@, cfg.fragment@).is_prefix_of(
                (#[trigger] out[i]).entry.path,
            ) && out[i].entry.path != cfg.root@,
{
    assert forall|i: int| 0 <= i < out.len() implies joined(cfg.root@, cfg.fragment@).is_prefix_of(
        (#[trigger] out[i]).entry.path,
    ) && out[i].entry.path != cfg.root@ by {
        lemma_listed_entries_admitted(cfg, found, out, i);
    }
}

} // verus!
