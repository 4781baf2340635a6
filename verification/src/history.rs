//! A bounded undo/redo history: entries with a cursor on the last applied one.
//!
//! Recording after an undo drops the redo branch; when the history grows past its
//! maximum size the oldest entries are evicted first.

use vstd::prelude::*;

verus! {

/// Cursor value meaning "before the first entry".
pub const CURSOR_BEFORE_START: isize = -1;

/// Default maximum number of entries of a history.
pub const DEFAULT_MAX_LOG_SIZE: usize = 1000;

/// A history of entries `T` with a cursor.
#[derive(Debug)]
pub struct History<T> {
    entries: Vec<T>,
    cursor: isize,
    max_size: usize,
}

/// The entries kept when `e` is recorded into a history holding `entries` with cursor
/// `cursor` and maximum size `max`: the redo branch after the cursor is dropped, `e` is
/// appended, and the oldest entries are evicted until at most `max` remain.
pub open spec fn recorded_entries<T>(entries: Seq<T>, cursor: int, max: nat, e: T) -> Seq<T> {
    let kept = if cursor < entries.len() - 1 { entries.subrange(0, cursor + 1) } else { entries };
    let pushed = kept.push(e);
    if pushed.len() > max {
        pushed.subrange(pushed.len() - max, pushed.len() as int)
    } else {
        pushed
    }
}

impl<T> History<T> {
    /// The recorded entries, oldest first.
    pub closed spec fn entries(&self) -> Seq<T> {
        self.entries@
    }

    /// Index of the last applied entry; -1 when every entry is undone.
    pub closed spec fn cursor(&self) -> int {
        self.cursor as int
    }

    /// The maximum number of entries kept.
    pub closed spec fn max_size(&self) -> nat {
        self.max_size as nat
    }

    /// The history is consistent: the cursor lies in `-1 .. len`, and at most
    /// `max_size` entries are held.
    pub open spec fn wf(&self) -> bool {
        &&& -1 <= self.cursor() < self.entries().len()
        &&& self.entries().len() <= self.max_size()
        &&& self.entries().len() <= isize::MAX
    }

    /// An empty history keeping at most `max_size` entries.
    pub fn with_max_size(max_size: usize) -> (r: History<T>)
        ensures
            r.wf(),
            r.entries() == Seq::<T>::empty(),
            r.cursor() == -1,
            r.max_size() == max_size,
    {
        History { entries: Vec::new(), cursor: CURSOR_BEFORE_START, max_size }
    }

    /// An empty history with the default maximum size.
    pub fn new() -> (r: History<T>)
        ensures
            r.wf(),
            r.entries() == Seq::<T>::empty(),
            r.cursor() == -1,
            r.max_size() == DEFAULT_MAX_LOG_SIZE,
    {
        Self::with_max_size(DEFAULT_MAX_LOG_SIZE)
    }

    /// Record `e` as the newest applied entry.
    pub fn record(&mut self, e: T)
        requires
            old(self).wf(),
            old(self).entries().len() < isize::MAX,
        ensures
            final(self).wf(),
            final(self).entries() == recorded_entries(old(self).entries(), old(self).cursor(), old(self).max_size(), e),
            final(self).cursor() == final(self).entries().len() - 1,
            final(self).max_size() == old(self).max_size(),
    {
        let ghost e0 = old(self).entries();
        let ghost c0 = old(self).cursor();
        if self.cursor < self.entries.len() as isize - 1 {
            let keep = (self.cursor + 1) as usize;
            self.entries.truncate(keep);
        }
        let ghost kept = self.entries@;
        assert(kept == (if c0 < e0.len() - 1 { e0.subrange(0, c0 + 1) } else { e0 }));
        self.entries.push(e);
        let ghost pushed = self.entries@;
        while self.entries.len() > self.max_size
            invariant
                self.max_size == old(self).max_size,
                pushed.len() <= isize::MAX,
                self.entries@.len() <= pushed.len(),
                self.entries@.len() >= self.max_size || self.entries@ == pushed,
                self.entries@ == pushed.subrange(pushed.len() - self.entries@.len(), pushed.len() as int),
            decreases self.entries.len(),
        {
            self.entries.remove(0);
        }
        assert(self.entries@ =~= recorded_entries(e0, c0, old(self).max_size(), e));
        self.cursor = self.entries.len() as isize - 1;
    }

    /// Whether an entry can be undone.
    pub fn can_undo(&self) -> (r: bool)
        ensures
            r == (self.cursor() >= 0),
    {
        self.cursor >= 0
    }

    /// Whether an entry can be redone.
    pub fn can_redo(&self) -> (r: bool)
        requires
            self.wf(),
        ensures
            r == (self.cursor() < self.entries().len() - 1),
    {
        self.cursor < self.entries.len() as isize - 1
    }

    /// Number of entries held.
    pub fn len(&self) -> (r: usize)
        ensures
            r == self.entries().len(),
    {
        self.entries.len()
    }

    /// The cursor.
    pub fn get_cursor(&self) -> (r: isize)
        ensures
            r == self.cursor(),
    {
        self.cursor
    }

    /// All entries, oldest first.
    pub fn get_entries(&self) -> (r: &Vec<T>)
        ensures
            r@ == self.entries(),
    {
        &self.entries
    }

    /// The entry at the cursor (the one undo reverts).
    pub fn current(&self) -> (r: &T)
        requires
            self.wf(),
            self.cursor() >= 0,
        ensures
            *r == self.entries()[self.cursor()],
    {
        &self.entries[self.cursor as usize]
    }

    /// The entry after the cursor (the one redo re-applies).
    pub fn next(&self) -> (r: &T)
        requires
            self.wf(),
            self.cursor() < self.entries().len() - 1,
        ensures
            *r == self.entries()[self.cursor() + 1],
    {
        &self.entries[(self.cursor + 1) as usize]
    }

    /// Move the cursor one entry back.
    pub fn step_back(&mut self)
        requires
            old(self).wf(),
            old(self).cursor() >= 0,
        ensures
            final(self).wf(),
            final(self).entries() == old(self).entries(),
            final(self).max_size() == old(self).max_size(),
            final(self).cursor() == old(self).cursor() - 1,
    {
        self.cursor = self.cursor - 1;
    }

    /// Move the cursor one entry forward.
    pub fn step_forward(&mut self)
        requires
            old(self).wf(),
            old(self).cursor() < old(self).entries().len() - 1,
        ensures
            final(self).wf(),
            final(self).entries() == old(self).entries(),
            final(self).max_size() == old(self).max_size(),
            final(self).cursor() == old(self).cursor() + 1,
    {
        self.cursor = self.cursor + 1;
    }

    /// Drop every entry.
    pub fn clear(&mut self)
        ensures
            final(self).wf(),
            final(self).entries() == Seq::<T>::empty(),
            final(self).cursor() == -1,
            final(self).max_size() == old(self).max_size(),
    {
        self.entries.clear();
        self.cursor = CURSOR_BEFORE_START;
    }
}

/// After recording, the newest entry is the one just recorded and can be undone, and
/// nothing can be redone.
pub proof fn law_record_then_state<T>(entries: Seq<T>, cursor: int, max: nat, e: T)
    requires
        -1 <= cursor < entries.len(),
        entries.len() <= max,
        max > 0,
    ensures
        recorded_entries(entries, cursor, max, e).len() >= 1,
        recorded_entries(entries, cursor, max, e).last() == e,
        recorded_entries(entries, cursor, max, e).len() <= max,
        recorded_entries(entries, cursor, max, e).len() == if cursor + 2 <= max { cursor + 2 } else { max as int },
{
}

/// Recording after some undos drops the undone entries: when the cursor is before the
/// last entry and the new entry fits, the entries become those up to the cursor, then
/// the new one, and it is the newest applied entry.
pub proof fn law_record_after_undo_drops_redo_branch<T>(entries: Seq<T>, cursor: int, max: nat, e: T)
    requires
        -1 <= cursor < entries.len() - 1,
        cursor + 2 <= max,
    ensures
        recorded_entries(entries, cursor, max, e) == entries.subrange(0, cursor + 1).push(e),
        recorded_entries(entries, cursor, max, e).len() - 1 == cursor + 1,
{
}

} // verus!
