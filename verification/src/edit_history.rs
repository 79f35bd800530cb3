//! Bounded undo/redo journal for interactive editor mutations.
//!
//! The journal is a list of entries and a cursor: entries before the cursor
//! can be undone, entries from the cursor on can be redone. Each entry names
//! a pair of snapshot directories (`before` and `after`) that the caller
//! keeps on disk; this module decides which snapshot is authoritative and how
//! the journal moves, and the caller copies the files.

use vstd::prelude::*;

use crate::error::{AppError, AppResult};
use crate::text::{decimal, owned, push_decimal, push_str, trim, trimmed};

verus! {

/// Format version of the journal manifest.
pub const HISTORY_VERSION: u32 = 1;

/// At most this many edits are kept.
pub const MAX_ENTRIES: usize = 100;

/// One journaled edit.
#[derive(Debug)]
pub struct EditEntry {
    /// Name of the entry's snapshot directory.
    pub id: String,
    /// Toolbar label.
    pub label: String,
    /// RFC 3339 time of the edit.
    pub at: String,
}

pub struct EditEntryView {
    pub id: Seq<char>,
    pub label: Seq<char>,
    pub at: Seq<char>,
}

impl View for EditEntry {
    type V = EditEntryView;

    open spec fn view(&self) -> EditEntryView {
        EditEntryView { id: self.id@, label: self.label@, at: self.at@ }
    }
}

impl Clone for EditEntry {
    fn clone(&self) -> (r: Self)
        ensures
            r@ == self@,
    {
        EditEntry { id: self.id.clone(), label: self.label.clone(), at: self.at.clone() }
    }
}

/// The journal manifest.
#[derive(Debug)]
pub struct EditHistory {
    pub version: u32,
    pub cursor: usize,
    pub entries: Vec<EditEntry>,
}

pub open spec fn entries_view(entries: Seq<EditEntry>) -> Seq<EditEntryView> {
    Seq::new(entries.len(), |i: int| entries[i]@)
}

/// Which snapshot of an entry is meant.
#[derive(Debug, Clone, Copy, PartialEq, Eq, Structural)]
pub enum SnapshotSide {
    Before,
    After,
}

/// What the toolbar shows.
#[derive(Debug)]
pub struct EditHistoryStatus {
    pub can_undo: bool,
    pub can_redo: bool,
    pub undo_label: Option<String>,
    pub redo_label: Option<String>,
}

/// Result of an undo or redo request.
#[derive(Debug)]
pub struct EditHistoryAction {
    pub changed: bool,
    pub status: EditHistoryStatus,
}

pub open spec fn opt_view(o: Option<String>) -> Option<Seq<char>> {
    match o {
        Some(s) => Some(s@),
        None => None,
    }
}

/// The manifest format this build reads and writes.
pub fn history_version() -> (r: u32)
    ensures
        r == HISTORY_VERSION,
{
    HISTORY_VERSION
}

impl EditHistory {
    /// An empty journal.
    pub fn new() -> (r: Self)
        ensures
            r.version == HISTORY_VERSION,
            r.cursor == 0,
            r.entries@.len() == 0,
    {
        EditHistory { version: HISTORY_VERSION, cursor: 0, entries: Vec::new() }
    }

    /// The cursor lies within the entries.
    pub open spec fn wf(&self) -> bool {
        self.cursor <= self.entries@.len()
    }

    pub open spec fn entries_v(&self) -> Seq<EditEntryView> {
        entries_view(self.entries@)
    }

    /// The status the toolbar shows for this journal.
    pub open spec fn status_matches(&self, s: EditHistoryStatus) -> bool {
        &&& s.can_undo == (self.cursor > 0)
        &&& s.can_redo == (self.cursor < self.entries@.len())
        &&& opt_view(s.undo_label) == (if 0 < self.cursor <= self.entries@.len() {
            Some(self.entries@[self.cursor - 1]@.label)
        } else {
            None::<Seq<char>>
        })
        &&& opt_view(s.redo_label) == (if self.cursor < self.entries@.len() {
            Some(self.entries@[self.cursor as int]@.label)
        } else {
            None::<Seq<char>>
        })
    }
}

/// Accepts a manifest read from disk: refuses other format versions and
/// pulls a cursor past the end back to the end.
pub fn check_loaded(history: EditHistory) -> (r: AppResult<EditHistory>)
    ensures
        history.version != HISTORY_VERSION ==> crate::error::schema_error(
            r,
            "unsupported edit history version "@ + decimal(history.version as nat),
        ),
        history.version == HISTORY_VERSION ==> (r matches Ok(h) && h.version == history.version
            && h.entries@ == history.entries@ && h.cursor == (if history.cursor
            <= history.entries@.len() {
            history.cursor as int
        } else {
            history.entries@.len() as int
        })),
{
    if history.version != HISTORY_VERSION {
        let mut m = String::new();
        push_str(&mut m, "unsupported edit history version ");
        push_decimal(&mut m, history.version as u64);
        return Err(AppError::Schema(m));
    }
    let mut h = history;
    if h.cursor > h.entries.len() {
        h.cursor = h.entries.len();
    }
    Ok(h)
}

/// Toolbar status of a journal.
pub fn status_for(history: &EditHistory) -> (r: EditHistoryStatus)
    ensures
        history.status_matches(r),
{
    let n = history.entries.len();
    let undo_label = if history.cursor > 0 && history.cursor <= n {
        Some(history.entries[history.cursor - 1].label.clone())
    } else {
        None
    };
    let redo_label = if history.cursor < n {
        Some(history.entries[history.cursor].label.clone())
    } else {
        None
    };
    EditHistoryStatus {
        can_undo: history.cursor > 0,
        can_redo: history.cursor < n,
        undo_label,
        redo_label,
    }
}

/// Toolbar status, given whether the project files still equal the
/// journal's current snapshot (see `current_snapshot`). A journal that no
/// longer describes the files offers neither undo nor redo.
pub fn status(history: &EditHistory, current_matches: bool) -> (r: EditHistoryStatus)
    ensures
        current_matches ==> history.status_matches(r),
        !current_matches ==> !r.can_undo && !r.can_redo && r.undo_label is None
            && r.redo_label is None,
{
    if !current_matches {
        return status_for(&EditHistory::new());
    }
    status_for(history)
}

/// The snapshot the project files must equal for the journal to describe
/// them: none for an empty journal, otherwise the `before` snapshot of the
/// first entry when everything is undone, else the `after` snapshot of the
/// last applied entry.
pub fn current_snapshot(history: &EditHistory) -> (r: Option<(String, SnapshotSide)>)
    requires
        history.wf(),
    ensures
        history.entries@.len() == 0 ==> r is None,
        history.entries@.len() > 0 && history.cursor == 0 ==> (r matches Some((id, side)) && id@
            == history.entries@[0]@.id && side == SnapshotSide::Before),
        history.entries@.len() > 0 && history.cursor > 0 ==> (r matches Some((id, side)) && id@
            == history.entries@[history.cursor - 1]@.id && side == SnapshotSide::After),
{
    if history.entries.len() == 0 {
        None
    } else if history.cursor == 0 {
        Some((history.entries[0].id.clone(), SnapshotSide::Before))
    } else {
        Some((history.entries[history.cursor - 1].id.clone(), SnapshotSide::After))
    }
}

/// The ids of a list of entries.
pub open spec fn ids_of(entries: Seq<EditEntryView>) -> Seq<Seq<char>> {
    Seq::new(entries.len(), |i: int| entries[i].id)
}

/// The views of a list of strings.
pub open spec fn strings_view(v: Seq<String>) -> Seq<Seq<char>> {
    Seq::new(v.len(), |i: int| v[i]@)
}

/// Forgets every entry (used when the files no longer match the journal).
/// Returns the ids whose snapshots are to be deleted, in order.
pub fn clear_entries(history: &mut EditHistory) -> (removed: Vec<String>)
    ensures
        final(history).version == old(history).version,
        final(history).cursor == 0,
        final(history).entries@.len() == 0,
        strings_view(removed@) == ids_of(old(history).entries_v()),
{
    let mut removed: Vec<String> = Vec::new();
    let mut i: usize = 0;
    let n = history.entries.len();
    while i < n
        invariant
            n == history.entries@.len(),
            history.entries@ == old(history).entries@,
            history.cursor == old(history).cursor,
            history.version == old(history).version,
            0 <= i <= n,
            strings_view(removed@) == ids_of(old(history).entries_v()).subrange(0, i as int),
        decreases n - i,
    {
        assert(ids_of(old(history).entries_v()).len() == n);
        assert(strings_view(removed@).len() == i);
        assert(removed@.len() == i);
        let id = history.entries[i].id.clone();
        assert(id@ == ids_of(old(history).entries_v())[i as int]);
        let ghost prev = removed@;
        removed.push(id);
        assert(removed@ == prev.push(id));
        assert(strings_view(removed@).len() == i + 1);
        assert(strings_view(removed@)[i as int] == id@);
        i = i + 1;
        assert(strings_view(removed@) =~= ids_of(old(history).entries_v()).subrange(0, i as int));
    }
    assert(ids_of(old(history).entries_v()).subrange(0, n as int) =~= ids_of(
        old(history).entries_v(),
    ));
    history.entries = Vec::new();
    history.cursor = 0;
    removed
}

/// First entry kept when an edit is recorded at `cursor`.
pub open spec fn first_kept(cursor: nat) -> nat {
    if cursor + 1 > MAX_ENTRIES {
        (cursor + 1 - MAX_ENTRIES) as nat
    } else {
        0
    }
}

/// The journal after recording an edit at `cursor`: the redo branch is
/// dropped, the entry appended, and the oldest entries dropped beyond the
/// bound.
pub open spec fn recorded(
    entries: Seq<EditEntryView>,
    cursor: nat,
    entry: EditEntryView,
) -> Seq<EditEntryView> {
    entries.subrange(first_kept(cursor) as int, cursor as int).push(entry)
}

/// The ids dropped by `record_entry`: the redo branch, then the entries
/// pushed out of the bound.
pub open spec fn dropped_ids(entries: Seq<EditEntryView>, cursor: nat) -> Seq<Seq<char>> {
    ids_of(entries.subrange(cursor as int, entries.len() as int)) + ids_of(
        entries.subrange(0, first_kept(cursor) as int),
    )
}

/// Journals a completed edit whose snapshots live under `id`, labelled with
/// the trimmed `label`. Returns the ids of entries whose snapshots are to be
/// deleted.
pub fn record_entry(history: &mut EditHistory, id: String, label: &str, at: String) -> (removed:
    Vec<String>)
    requires
        old(history).wf(),
    ensures
        final(history).wf(),
        final(history).version == old(history).version,
        final(history).cursor == final(history).entries@.len(),
        final(history).entries_v() == recorded(
            old(history).entries_v(),
            old(history).cursor as nat,
            EditEntryView { id: id@, label: trimmed(label@), at: at@ },
        ),
        strings_view(removed@) == dropped_ids(old(history).entries_v(), old(history).cursor as nat),
{
    let ghost old_v = old(history).entries_v();
    let n = history.entries.len();
    let c = history.cursor;
    let start: usize = if c >= MAX_ENTRIES {
        c - (MAX_ENTRIES - 1)
    } else {
        0
    };
    let ghost redo_ids = ids_of(old_v.subrange(c as int, n as int));
    let mut removed: Vec<String> = Vec::new();
    let mut i: usize = c;
    while i < n
        invariant
            n == history.entries@.len(),
            history.entries@ == old(history).entries@,
            old_v == old(history).entries_v(),
            c <= i <= n,
            c == old(history).cursor,
            redo_ids == ids_of(old_v.subrange(c as int, n as int)),
            strings_view(removed@) == redo_ids.subrange(0, i - c),
        decreases n - i,
    {
        assert(old_v.len() == n);
        assert(redo_ids.len() == n - c);
        assert(strings_view(removed@).len() == i - c);
        let id = history.entries[i].id.clone();
        assert(id@ == redo_ids[i - c]);
        removed.push(id);
        i = i + 1;
        assert(strings_view(removed@) =~= redo_ids.subrange(0, i - c));
    }
    assert(redo_ids.subrange(0, n - c) =~= redo_ids);
    let ghost over_ids = ids_of(old_v.subrange(0, start as int));
    let mut j: usize = 0;
    while j < start
        invariant
            n == history.entries@.len(),
            history.entries@ == old(history).entries@,
            old_v == old(history).entries_v(),
            start <= c <= n,
            0 <= j <= start,
            c == old(history).cursor,
            start == first_kept(c as nat),
            redo_ids == ids_of(old_v.subrange(c as int, n as int)),
            over_ids == ids_of(old_v.subrange(0, start as int)),
            strings_view(removed@) == redo_ids + over_ids.subrange(0, j as int),
        decreases start - j,
    {
        assert(old_v.len() == n);
        assert(over_ids.len() == start);
        assert(strings_view(removed@).len() == redo_ids.len() + j);
        let id = history.entries[j].id.clone();
        assert(id@ == over_ids[j as int]);
        let ghost prev = removed@;
        removed.push(id);
        assert(removed@ == prev.push(id));
        assert(strings_view(removed@) =~= strings_view(prev).push(id@));
        assert(redo_ids + over_ids.subrange(0, j + 1) =~= (redo_ids + over_ids.subrange(
            0,
            j as int,
        )).push(over_ids[j as int]));
        j = j + 1;
        assert(strings_view(removed@) =~= redo_ids + over_ids.subrange(0, j as int));
    }
    assert(over_ids.subrange(0, start as int) =~= over_ids);
    let mut kept: Vec<EditEntry> = Vec::new();
    let mut k: usize = start;
    while k < c
        invariant
            n == history.entries@.len(),
            history.entries@ == old(history).entries@,
            old_v == old(history).entries_v(),
            start <= k <= c <= n,
            c == old(history).cursor,
            start == first_kept(c as nat),
            entries_view(kept@) == old_v.subrange(start as int, k as int),
        decreases c - k,
    {
        assert(old_v.len() == n);
        assert(entries_view(kept@).len() == k - start);
        let e = history.entries[k].clone();
        assert(e@ == old_v[k as int]);
        kept.push(e);
        k = k + 1;
        assert(entries_view(kept@) =~= old_v.subrange(start as int, k as int));
    }
    let lbl = owned(trim(label));
    assert(entries_view(kept@).len() == c - start);
    let ghost prev = kept@;
    let entry = EditEntry { id, label: lbl, at };
    assert(entry@ == EditEntryView { id: id@, label: trimmed(label@), at: at@ });
    kept.push(entry);
    assert(kept@ == prev.push(entry));
    assert(entries_view(kept@) =~= recorded(
        old_v,
        c as nat,
        EditEntryView { id: id@, label: trimmed(label@), at: at@ },
    ));
    history.cursor = kept.len();
    history.entries = kept;
    removed
}

/// The cursor after a successful undo.
pub open spec fn undone_cursor(cursor: nat) -> nat {
    if cursor == 0 {
        0
    } else {
        (cursor - 1) as nat
    }
}

/// The cursor after a successful redo.
pub open spec fn redone_cursor(cursor: nat, len: nat) -> nat {
    if cursor >= len {
        cursor
    } else {
        cursor + 1
    }
}

/// Undoes the applied entry before the cursor. `after_matches` tells whether
/// the project files equal that entry's `after` snapshot; the caller copies
/// the entry's `before` snapshot back when the journal moved.
pub fn undo(history: &mut EditHistory, after_matches: bool) -> (r: AppResult<EditHistoryAction>)
    requires
        old(history).wf(),
    ensures
        final(history).wf(),
        final(history).version == old(history).version,
        final(history).entries@ == old(history).entries@,
        old(history).cursor == 0 ==> final(history).cursor == 0 && (r matches Ok(a) && !a.changed
            && final(history).status_matches(a.status)),
        old(history).cursor > 0 && !after_matches ==> final(history).cursor
            == old(history).cursor && crate::error::schema_error(
            r,
            "the project changed outside the editor history; reload before undoing"@,
        ),
        old(history).cursor > 0 && after_matches ==> final(history).cursor
            == undone_cursor(old(history).cursor as nat) && (r matches Ok(a) && a.changed
            && final(history).status_matches(a.status)),
{
    if history.cursor == 0 {
        return Ok(EditHistoryAction { changed: false, status: status_for(history) });
    }
    if !after_matches {
        return Err(
            AppError::Schema(
                "the project changed outside the editor history; reload before undoing".to_string(),
            ),
        );
    }
    history.cursor = history.cursor - 1;
    Ok(EditHistoryAction { changed: true, status: status_for(history) })
}

/// Redoes the entry at the cursor. `before_matches` tells whether the
/// project files equal that entry's `before` snapshot; the caller copies the
/// entry's `after` snapshot back when the journal moved.
pub fn redo(history: &mut EditHistory, before_matches: bool) -> (r: AppResult<EditHistoryAction>)
    requires
        old(history).wf(),
    ensures
        final(history).wf(),
        final(history).version == old(history).version,
        final(history).entries@ == old(history).entries@,
        old(history).cursor >= old(history).entries@.len() ==> final(history).cursor
            == old(history).cursor && (r matches Ok(a) && !a.changed && final(history).status_matches(a.status)),
        old(history).cursor < old(history).entries@.len() && !before_matches ==> final(history).cursor == old(history).cursor && crate::error::schema_error(
            r,
            "the project changed outside the editor history; reload before redoing"@,
        ),
        old(history).cursor < old(history).entries@.len() && before_matches ==> final(history).cursor == redone_cursor(old(history).cursor as nat, old(history).entries@.len()) && (r matches Ok(a) && a.changed && final(history).status_matches(a.status)),
{
    if history.cursor >= history.entries.len() {
        return Ok(EditHistoryAction { changed: false, status: status_for(history) });
    }
    if !before_matches {
        return Err(
            AppError::Schema(
                "the project changed outside the editor history; reload before redoing".to_string(),
            ),
        );
    }
    history.cursor = history.cursor + 1;
    Ok(EditHistoryAction { changed: true, status: status_for(history) })
}

} // verus!

verus! {

/// An undo followed by a redo returns the journal to where it was.
pub proof fn law_redo_after_undo(cursor: nat, len: nat)
    requires
        0 < cursor <= len,
    ensures
        redone_cursor(undone_cursor(cursor), len) == cursor,
{
}

/// A redo followed by an undo returns the journal to where it was.
pub proof fn law_undo_after_redo(cursor: nat, len: nat)
    requires
        cursor < len,
    ensures
        undone_cursor(redone_cursor(cursor, len)) == cursor,
{
}

/// Recording an edit makes it the one to undo, leaves nothing to redo, keeps
/// the journal within its bound, and keeps the newest applied entries that
/// preceded it in their order.
pub proof fn law_record_truncates_redo(
    entries: Seq<EditEntryView>,
    cursor: nat,
    entry: EditEntryView,
)
    requires
        cursor <= entries.len(),
    ensures
        ({
            let r = recorded(entries, cursor, entry);
            &&& 0 < r.len() <= MAX_ENTRIES
            &&& r.last() == entry
            &&& r.drop_last() == entries.subrange(cursor - (r.len() - 1), cursor as int)
        }),
{
    let r = recorded(entries, cursor, entry);
    assert(r.drop_last() =~= entries.subrange(first_kept(cursor) as int, cursor as int));
}

/// Every entry dropped by recording an edit is either on the redo branch or
/// beyond the bound, and every other entry stays.
pub proof fn law_record_drops_exactly(
    entries: Seq<EditEntryView>,
    cursor: nat,
    entry: EditEntryView,
)
    requires
        cursor <= entries.len(),
    ensures
        recorded(entries, cursor, entry).len() + dropped_ids(entries, cursor).len()
            == entries.len() + 1,
{
}

} // verus!
