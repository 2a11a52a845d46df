//! The memo history of a quote as it is shown: the first version in full,
//! every later one as the line-by-line changes from the version before it.

use vstd::prelude::*;
use similar::{ChangeTag, TextDiff};
use crate::models::{MemoVersion, MemoVersionView};
use crate::text::push_char;
use crate::time::{minute_pattern, utc_format};

verus! {

/// What happened to a line between two versions.
#[derive(Clone, Copy, Debug, PartialEq, Eq, Structural)]
pub enum ChangeKind {
    Equal,
    Delete,
    Insert,
}

/// One line of a diff: its kind and the line itself, with its line break
/// when it has one.
#[derive(Debug)]
pub struct LineChange {
    pub kind: ChangeKind,
    pub value: String,
}

pub open spec fn change_views(v: Seq<LineChange>) -> Seq<(ChangeKind, Seq<char>)> {
    v.map_values(|c: LineChange| (c.kind, c.value@))
}

/// The changes that `similar::TextDiff::from_lines(old, new)` reports, in
/// order (`iter_all_changes`).
pub uninterp spec fn line_diff(old: Seq<char>, new: Seq<char>) -> Seq<(ChangeKind, Seq<char>)>;

/// The text made of the lines of `changes` that are not of kind `skip`.
pub open spec fn side_text(changes: Seq<(ChangeKind, Seq<char>)>, skip: ChangeKind) -> Seq<char>
    decreases changes.len(),
{
    if changes.len() == 0 {
        Seq::empty()
    } else {
        side_text(changes.drop_last(), skip) + if changes.last().0 == skip {
            Seq::empty()
        } else {
            changes.last().1
        }
    }
}

/// similar's line diff of `old` and `new`: the changes are
/// `line_diff(old, new)`; the lines that were not inserted make up `old`,
/// and those that were not deleted make up `new` (the lines of each text are
/// cut after each line break and every line is reported once).
#[verifier::external_body]
fn diff_lines(old: &str, new: &str) -> (res: Vec<LineChange>)
    ensures
        change_views(res@) == line_diff(old@, new@),
        side_text(change_views(res@), ChangeKind::Insert) == old@,
        side_text(change_views(res@), ChangeKind::Delete) == new@,
{
    TextDiff::from_lines(old, new).iter_all_changes().map(
        |c| LineChange {
            kind: match c.tag() {
                ChangeTag::Equal => ChangeKind::Equal,
                ChangeTag::Delete => ChangeKind::Delete,
                ChangeTag::Insert => ChangeKind::Insert,
            },
            value: c.value().to_string(),
        },
    ).collect()
}

/// A line as a diff shows it: with a line break added when it has none
/// (it ends neither in `\n` nor in `\r`).
pub open spec fn shown_line(value: Seq<char>) -> Seq<char> {
    if value.len() > 0 && (value.last() == '\n' || value.last() == '\r') {
        value
    } else {
        value.push('\n')
    }
}

impl LineChange {
    /// The line as a diff shows it.
    pub fn shown(&self) -> (res: String)
        ensures
            res@ == shown_line(self.value@),
    {
        let mut s = self.value.clone();
        let n = crate::text::chars_of(self.value.as_str());
        if n.len() > 0 && (n[n.len() - 1] == '\n' || n[n.len() - 1] == '\r') {
            s
        } else {
            push_char(&mut s, '\n');
            s
        }
    }
}

/// How a version is shown: the first in full, later ones as changes.
#[derive(Debug)]
pub enum HistoryBody {
    Full(String),
    Changes(Vec<LineChange>),
}

/// One version of a memo as the history shows it.
#[derive(Debug)]
pub struct HistoryEntry {
    pub version: i64,
    /// When the version was written, as `YYYY-MM-DD HH:MM`.
    pub written: String,
    pub body: HistoryBody,
}

/// `e` shows version `i` of `versions`: its number and time, and its text
/// in full when it is the first, else as the line diff from version `i - 1`,
/// whose kept and deleted lines make up the earlier text and whose kept and
/// inserted lines make up the later one.
pub open spec fn shows_version(e: HistoryEntry, versions: Seq<MemoVersion>, i: int) -> bool {
    &&& e.version == versions[i].version
    &&& utc_format(versions[i]@.created_at.0, versions[i]@.created_at.1, minute_pattern()) == Some(
        e.written@,
    )
    &&& match e.body {
        HistoryBody::Full(m) => i == 0 && m@ == versions[i].memo@,
        HistoryBody::Changes(c) => {
            &&& i > 0
            &&& change_views(c@) == line_diff(versions[i - 1].memo@, versions[i].memo@)
            &&& side_text(change_views(c@), ChangeKind::Insert) == versions[i - 1].memo@
            &&& side_text(change_views(c@), ChangeKind::Delete) == versions[i].memo@
        },
    }
}

/// The history of the versions given (in the order given): version `i` is
/// shown in full when it is the first, else as the line diff from version
/// `i - 1`; the lines kept and deleted make up the earlier text, and the
/// lines kept and inserted make up the later one.
pub fn history_entries(versions: &Vec<MemoVersion>) -> (res: Vec<HistoryEntry>)
    ensures
        res@.len() == versions@.len(),
        forall|i: int|
            0 <= i < res@.len() ==> shows_version(#[trigger] res@[i], versions@, i),
{
    let mut res: Vec<HistoryEntry> = Vec::new();
    let mut i: usize = 0;
    while i < versions.len()
        invariant
            i <= versions@.len(),
            res@.len() == i,
            forall|k: int|
                0 <= k < i ==> shows_version(#[trigger] res@[k], versions@, k),
        decreases versions@.len() - i,
    {
        let v = &versions[i];
        let body = if i == 0 {
            HistoryBody::Full(v.memo.clone())
        } else {
            HistoryBody::Changes(diff_lines(versions[i - 1].memo.as_str(), v.memo.as_str()))
        };
        let entry = HistoryEntry { version: v.version, written: v.created_at.day_minute(), body };
        res.push(entry);
        i = i + 1;
    }
    res
}

} // verus!
