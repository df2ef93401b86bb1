//! How a listed entry is shown.

use crate::config::WalkConfig;
use crate::entry::{Entry, FileKind, TimedEntry, TimedEntryView, views};
use crate::path_text::{join, joined, suffix_of, SLASH};
use vstd::prelude::*;

verus! {

/// The line feed that ends each line.
pub const NEWLINE: u8 = 10;

/// A trailing separator marks a directory, except on the path that is the
/// separator alone.
pub open spec fn wants_slash(text: Seq<u8>, is_dir: bool) -> bool {
    is_dir && text != seq![SLASH]
}

/// The output line for the shown text `text`.
pub open spec fn line_of(text: Seq<u8>, is_dir: bool) -> Seq<u8> {
    if wants_slash(text, is_dir) {
        text + seq![SLASH, NEWLINE]
    } else {
        text + seq![NEWLINE]
    }
}

/// Whether `text` is followed by a separator when shown.
pub fn needs_trailing_slash(text: &Vec<u8>, is_dir: bool) -> (r: bool)
    ensures
        r == wants_slash(text@, is_dir),
{
    if !is_dir {
        return false;
    }
    if text.len() == 1 && text[0] == SLASH {
        assert(text@ =~= seq![SLASH]);
        false
    } else {
        true
    }
}

/// The output line for `text`: the text, a separator for a directory, and
/// a line feed.
pub fn plain_line(text: &Vec<u8>, is_dir: bool) -> (r: Vec<u8>)
    ensures
        r@ == line_of(text@, is_dir),
{
    let slash = needs_trailing_slash(text, is_dir);
    let mut r: Vec<u8> = Vec::new();
    crate::path_text::push_all(&mut r, text);
    if slash {
        r.push(SLASH);
    }
    r.push(NEWLINE);
    assert(r@ =~= line_of(text@, is_dir));
    r
}

impl WalkConfig {
    /// The path as shown before it is cut to the root: with the target in
    /// front in prefix mode.
    pub open spec fn displayed(&self, path: Seq<u8>) -> Seq<u8> {
        if self.prefix_target {
            joined(self.target@, path)
        } else {
            path
        }
    }

    /// The text shown for `path`, if any: the whole displayed path in
    /// full-path mode; else what follows the root and one separator, and
    /// nothing where the displayed path is not longer than the root.
    pub open spec fn shown(&self, path: Seq<u8>) -> Option<Seq<u8>> {
        let d = self.displayed(path);
        if self.full_path {
            Some(d)
        } else if d.len() > self.base@.len() {
            Some(d.subrange(self.base@.len() + 1 as int, d.len() as int))
        } else {
            None
        }
    }

    /// The text shown for `e`, without the trailing separator.
    pub fn show(&self, e: &Entry) -> (r: Option<Vec<u8>>)
        ensures
            r matches Some(t) ==> self.shown(e.path@) == Some(t@),
            r is None ==> self.shown(e.path@) is None,
    {
        let d = if self.prefix_target {
            join(&self.target, &e.path)
        } else {
            suffix_of(&e.path, 0)
        };
        assert(e.path@.subrange(0, e.path@.len() as int) =~= e.path@);
        if self.full_path {
            Some(d)
        } else if d.len() > self.base.len() {
            Some(suffix_of(&d, self.base.len() + 1))
        } else {
            None
        }
    }

    /// The output lines of `entries`, in their order.
    pub open spec fn lines(&self, entries: Seq<TimedEntryView>) -> Seq<Seq<u8>>
        decreases entries.len(),
    {
        if entries.len() == 0 {
            Seq::empty()
        } else {
            let e = entries.last().entry;
            let earlier = self.lines(entries.drop_last());
            match self.shown(e.path) {
                Some(t) => earlier.push(line_of(t, e.kind == FileKind::Dir)),
                None => earlier,
            }
        }
    }

    /// The output lines of a listing, uncolored.
    pub fn render(&self, entries: &Vec<TimedEntry>) -> (r: Vec<Vec<u8>>)
        ensures
            r@.map_values(|l: Vec<u8>| l@) == self.lines(views(entries@)),
    {
        let mut r: Vec<Vec<u8>> = Vec::new();
        let mut i: usize = 0;
        while i < entries.len()
            invariant
                i <= entries@.len(),
                r@.map_values(|l: Vec<u8>| l@) == self.lines(views(entries@.take(i as int))),
            decreases entries@.len() - i,
        {
            let e = &entries[i].entry;
            let ghost before = r@;
            assert(views(entries@.take(i + 1)).drop_last() =~= views(entries@.take(i as int)));
            assert(views(entries@.take(i + 1)).last() == entries@[i as int]@);
            match self.show(e) {
                Some(t) => {
                    let line = plain_line(&t, e.is_dir());
                    r.push(line);
                    assert(r@.map_values(|l: Vec<u8>| l@) =~= before.map_values(|l: Vec<u8>| l@).push(
                        line@,
                    ));
                },
                None => {},
            }
            i += 1;
        }
        assert(entries@.take(i as int) =~= entries@);
        r
    }
}

} // verus!
