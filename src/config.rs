//! One run's settings, and the rule that decides which entries it lists.

use crate::entry::{Entry, EntryView, FileKind, TimeAttribute};
use crate::path_text::{
    contains_git_component, has_git_component, join, joined, lemma_trim_end_slashes_idempotent,
    starts_with, trim_end_slashes, trim_trailing_slashes, SLASH,
};
use vstd::prelude::*;

verus! {

/// The switches of a run.
#[derive(Clone, Copy, Debug)]
pub struct Options {
    /// List directories only.
    pub dirs_only: bool,
    /// Show absolute paths.
    pub full_path: bool,
    /// Color each path component.
    pub color: bool,
    /// Put the target directory, as typed, in front of each path.
    pub prefix_target: bool,
    /// Entries deeper than this are neither listed nor entered.
    pub max_depth: Option<usize>,
    /// The time that orders the listing.
    pub sort_by: TimeAttribute,
}

/// The settings of one run, fixed before the walk starts.
#[derive(Debug)]
pub struct WalkConfig {
    /// The target directory as typed, without trailing separators.
    pub target: Vec<u8>,
    /// The directory walked: the canonical target in full-path mode, else
    /// `target`.
    pub root: Vec<u8>,
    /// `root` without trailing separators; shown paths are relative to it.
    pub base: Vec<u8>,
    /// The fragment of a path-completion query; empty when there is none.
    pub fragment: Vec<u8>,
    /// What every listed path starts with in path-completion mode: `root`,
    /// a separator, then `fragment`. Empty when `fragment` is.
    pub leftover: Vec<u8>,
    pub dirs_only: bool,
    pub full_path: bool,
    /// Never set together with `full_path`, which wins.
    pub prefix_target: bool,
    pub color: bool,
    pub max_depth: Option<usize>,
    pub sort_by: TimeAttribute,
}

/// `path` is `root` itself or lies below `base`.
pub open spec fn beneath(root: Seq<u8>, base: Seq<u8>, path: Seq<u8>) -> bool {
    path == root || (base.is_prefix_of(path) && path.len() > base.len() && path[base.len() as int]
        == SLASH)
}

impl WalkConfig {
    pub open spec fn wf(&self) -> bool {
        &&& self.target@ == trim_end_slashes(self.target@)
        &&& self.base@ == trim_end_slashes(self.root@)
        &&& !self.full_path ==> self.root@ == self.target@ && self.base@ == self.target@
        &&& self.full_path ==> !self.prefix_target
        &&& self.leftover@ == if self.fragment@.len() == 0 {
            Seq::<u8>::empty()
        } else {
            joined(self.root@, self.fragment@)
        }
    }

    /// The settings for walking `target` (as typed) with `options`, where
    /// `canonical` is the canonical form of the target and `fragment` the
    /// path-completion fragment (empty for none). `None` when full paths
    /// are asked for and there is no canonical form.
    pub fn new(target: &Vec<u8>, canonical: Option<Vec<u8>>, fragment: Vec<u8>, options: Options)
        -> (r: Option<WalkConfig>)
        ensures
            r is None <==> options.full_path && canonical is None,
            r matches Some(c) ==> {
                &&& c.wf()
                &&& c.target@ == trim_end_slashes(target@)
                &&& c.root@ == if options.full_path {
                    canonical->Some_0@
                } else {
                    trim_end_slashes(target@)
                }
                &&& c.fragment@ == fragment@
                &&& c.dirs_only == options.dirs_only
                &&& c.full_path == options.full_path
                &&& c.prefix_target == (options.prefix_target && !options.full_path)
                &&& c.color == options.color
                &&& c.max_depth == options.max_depth
                &&& c.sort_by == options.sort_by
            },
    {
        let trimmed = trim_trailing_slashes(target);
        proof {
            lemma_trim_end_slashes_idempotent(target@);
        }
        let root = if options.full_path {
            match canonical {
                Some(c) => c,
                None => {
                    return None;
                },
            }
        } else {
            trim_trailing_slashes(&trimmed)
        };
        let base = trim_trailing_slashes(&root);
        proof {
            lemma_trim_end_slashes_idempotent(root@);
        }
        let leftover = if fragment.len() == 0 {
            Vec::new()
        } else {
            join(&root, &fragment)
        };
        Some(
            WalkConfig {
                target: trimmed,
                root,
                base,
                fragment,
                leftover,
                dirs_only: options.dirs_only,
                full_path: options.full_path,
                prefix_target: options.prefix_target && !options.full_path,
                color: options.color,
                max_depth: options.max_depth,
                sort_by: options.sort_by,
            },
        )
    }

    /// The run lists entry `e`: it lies in the walked tree, no component
    /// of its path is `.git`, it is no deeper than the cutoff, it is a
    /// directory when only directories are asked for, and its path starts
    /// with the completion prefix when there is one.
    pub open spec fn admits(&self, e: EntryView) -> bool {
        &&& beneath(self.root@, self.base@, e.path)
        &&& !has_git_component(e.path)
        &&& (self.max_depth matches Some(n) ==> e.depth <= n)
        &&& (self.dirs_only ==> e.kind == FileKind::Dir)
        &&& (self.leftover@.len() > 0 ==> self.leftover@.is_prefix_of(e.path))
    }

    /// Whether the run lists `e`. The walk also uses it to decide whether
    /// to enter a directory.
    pub fn accept(&self, e: &Entry) -> (r: bool)
        ensures
            r == self.admits(e@),
    {
        let inside = if e.path.len() == self.root.len() && starts_with(&e.path, &self.root) {
            assert(e.path@ =~= self.root@);
            true
        } else {
            let n = self.base.len();
            starts_with(&e.path, &self.base) && e.path.len() > n && e.path[n] == SLASH
        };
        if !inside {
            return false;
        }
        if contains_git_component(&e.path) {
            return false;
        }
        match self.max_depth {
            Some(n) => {
                if e.depth > n {
                    return false;
                }
            },
            None => {},
        }
        if self.dirs_only && !e.is_dir() {
            return false;
        }
        self.leftover.len() == 0 || starts_with(&e.path, &self.leftover)
    }
}


/// The most worker threads a walk uses, however many cores there are.
pub const MAX_WORKERS: usize = 64;

/// The number of worker threads for a machine with `cores` cores: one per
/// core, at least one and at most `MAX_WORKERS`.
pub fn pool_size(cores: usize) -> (r: usize)
    ensures
        r == if cores == 0 {
            1
        } else if cores > MAX_WORKERS {
            MAX_WORKERS
        } else {
            cores
        },
{
    if cores == 0 {
        1
    } else if cores > MAX_WORKERS {
        MAX_WORKERS
    } else {
        cores
    }
}

/// Relies on `num_cpus::get`, the number of cores this process may use,
/// which its documentation says is always at least one.
#[verifier::external_body]
fn available_cores() -> (r: usize)
    ensures
        r >= 1,
{
    num_cpus::get()
}

/// The number of worker threads for a walk on this machine.
pub fn worker_count() -> (r: usize)
    ensures
        1 <= r <= MAX_WORKERS,
{
    pool_size(available_cores())
}

/// The byte `+`.
pub const PLUS: u8 = 43;
/// The byte `0`.
pub const ZERO: u8 = 48;
/// The byte `9`.
pub const NINE: u8 = 57;

pub open spec fn is_digit(b: u8) -> bool {
    ZERO <= b <= NINE
}

/// The number that the decimal digits `s` write.
pub open spec fn digits_value(s: Seq<u8>) -> nat
    decreases s.len(),
{
    if s.len() == 0 {
        0
    } else {
        digits_value(s.drop_last()) * 10 + (s.last() - ZERO) as nat
    }
}

/// The digits of a depth as written: one leading `+` may stand before them.
pub open spec fn depth_digits(s: Seq<u8>) -> Seq<u8> {
    if s.len() > 0 && s[0] == PLUS {
        s.drop_first()
    } else {
        s
    }
}

/// `s` writes a depth: at least one digit, nothing but digits.
pub open spec fn is_depth_text(s: Seq<u8>) -> bool {
    let d = depth_digits(s);
    d.len() > 0 && forall|i: int| 0 <= i < d.len() ==> is_digit(#[trigger] d[i])
}

proof fn lemma_digits_value_grows(d: Seq<u8>, i: int, j: int)
    requires
        0 <= i <= j <= d.len(),
        forall|k: int| 0 <= k < d.len() ==> is_digit(#[trigger] d[k]),
    ensures
        digits_value(d.take(i)) <= digits_value(d.take(j)),
    decreases j - i,
{
    if i < j {
        lemma_digits_value_grows(d, i, j - 1);
        assert(d.take(j).drop_last() =~= d.take(j - 1));
    }
}

/// The depth cutoff written in `text`; `None` where `text` writes no
/// number that fits a `usize`, which leaves the walk unbounded.
pub fn parse_max_depth(text: &Vec<u8>) -> (r: Option<usize>)
    ensures
        r == if is_depth_text(text@) && digits_value(depth_digits(text@)) <= usize::MAX {
            Some(digits_value(depth_digits(text@)) as usize)
        } else {
            None::<usize>
        },
{
    let ghost d = depth_digits(text@);
    let start: usize = if text.len() > 0 && text[0] == PLUS {
        1
    } else {
        0
    };
    assert(d =~= text@.subrange(start as int, text@.len() as int));
    if start == text.len() {
        return None;
    }
    let mut value: usize = 0;
    let mut i: usize = start;
    while i < text.len()
        invariant
            start <= i <= text@.len(),
            d == depth_digits(text@),
            d =~= text@.subrange(start as int, text@.len() as int),
            forall|k: int| 0 <= k < i - start ==> is_digit(#[trigger] d[k]),
            value == digits_value(d.take(i - start)),
        decreases text@.len() - i,
    {
        let b = text[i];
        if b < ZERO || b > NINE {
            assert(!is_digit(d[i - start]));
            return None;
        }
        let digit = (b - ZERO) as usize;
        assert(d.take(i - start + 1).drop_last() =~= d.take(i - start));
        if value > (usize::MAX - digit) / 10 {
            proof {
                assert(digits_value(d.take(i - start + 1)) > usize::MAX) by (nonlinear_arith)
                    requires
                        value > (usize::MAX - digit) / 10,
                        digits_value(d.take(i - start + 1)) == value * 10 + digit,
                ;
                if is_depth_text(text@) {
                    lemma_digits_value_grows(d, i - start + 1, d.len() as int);
                    assert(d.take(d.len() as int) =~= d);
                }
            }
            return None;
        }
        assert(value * 10 + digit <= usize::MAX) by (nonlinear_arith)
            requires
                value <= (usize::MAX - digit) / 10,
                digit <= 9,
        ;
        value = value * 10 + digit;
        i += 1;
    }
    assert(d.take(d.len() as int) =~= d);
    Some(value)
}

} // verus!
