//! The undo history: whole-buffer snapshots with the cursor recorded beside
//! each, and an index that undo moves left and redo moves right.

use vstd::prelude::*;

verus! {

/// What an [`UndoStack`] holds.
pub struct History {
    /// The recorded buffer contents, oldest first.
    pub snapshots: Seq<Seq<char>>,
    /// The cursor recorded with each snapshot, as `(x, y)`.
    pub cursors: Seq<(usize, usize)>,
    /// How many snapshots lie before the current point of the history.
    pub index: int,
}

impl History {
    /// One cursor for each snapshot, and the index within the list or at its
    /// end.
    pub open spec fn wf(self) -> bool {
        &&& self.snapshots.len() == self.cursors.len()
        &&& 0 <= self.index <= self.snapshots.len()
    }

    /// The history after a snapshot was recorded: it is appended, and the
    /// index stands at the end.
    pub open spec fn pushed(self, state: Seq<char>, x: usize, y: usize) -> History {
        History {
            snapshots: self.snapshots.push(state),
            cursors: self.cursors.push((x, y)),
            index: (self.snapshots.len() + 1) as int,
        }
    }

    /// The snapshot that undo hands out: the one before the index.
    pub open spec fn undo_result(self) -> Option<Seq<char>> {
        if self.index > 0 {
            Some(self.snapshots[self.index - 1])
        } else {
            None
        }
    }

    /// The history after undo: the index one to the left, if it can move.
    pub open spec fn undone(self) -> History {
        if self.index > 0 {
            History { index: self.index - 1, ..self }
        } else {
            self
        }
    }

    /// The snapshot that redo hands out: the one at the index.
    pub open spec fn redo_result(self) -> Option<Seq<char>> {
        if self.index < self.snapshots.len() {
            Some(self.snapshots[self.index])
        } else {
            None
        }
    }

    /// The history after redo: the index one to the right, if it can move.
    pub open spec fn redone(self) -> History {
        if self.index < self.snapshots.len() {
            History { index: self.index + 1, ..self }
        } else {
            self
        }
    }

    /// The cursor recorded with the snapshot at the index.
    pub open spec fn pointers(self) -> Option<(usize, usize)> {
        if self.index < self.cursors.len() {
            Some(self.cursors[self.index])
        } else {
            None
        }
    }
}

/// Undo right after a push hands out the snapshot that was pushed, character
/// for character, and leaves the history at the cursor recorded with it.
pub proof fn lemma_undo_after_push(h: History, state: Seq<char>, x: usize, y: usize)
    requires
        h.wf(),
    ensures
        h.pushed(state, x, y).wf(),
        h.pushed(state, x, y).undo_result() == Some(state),
        h.pushed(state, x, y).undone().pointers() == Some((x, y)),
{
}

/// Redo right after an undo that moved hands out the same snapshot and puts
/// the history back where it was before the undo.
pub proof fn lemma_redo_after_undo(h: History)
    requires
        h.wf(),
        h.index > 0,
    ensures
        h.undone().wf(),
        h.undone().redo_result() == h.undo_result(),
        h.undone().redone() == h,
{
}

/// Undo at the start of the history and redo at its end hand out nothing and
/// change nothing.
pub proof fn lemma_history_ends(h: History)
    requires
        h.wf(),
    ensures
        h.index == 0 ==> h.undo_result() is None && h.undone() == h,
        h.index == h.snapshots.len() ==> h.redo_result() is None && h.redone() == h,
{
}

/// One recorded buffer content and the cursor that goes with it.
#[derive(Debug)]
struct Snapshot {
    state: String,
    x: usize,
    y: usize,
}

/// A linear undo history.
#[derive(Debug)]
pub struct UndoStack {
    entries: Vec<Snapshot>,
    current_index: usize,
}

impl View for UndoStack {
    type V = History;

    closed spec fn view(&self) -> History {
        History {
            snapshots: self.entries@.map_values(|e: Snapshot| e.state@),
            cursors: self.entries@.map_values(|e: Snapshot| (e.x, e.y)),
            index: self.current_index as int,
        }
    }
}

impl UndoStack {
    #[verifier::type_invariant]
    spec fn inv(self) -> bool {
        self.current_index <= self.entries@.len()
    }

    /// An empty history.
    pub fn new() -> (r: Self)
        ensures
            r@.wf(),
            r@.snapshots.len() == 0,
            r@.index == 0,
    {
        UndoStack { entries: Vec::new(), current_index: 0 }
    }

    /// Records `state` with the cursor `(x, y)` and moves to the end of the
    /// history.
    pub fn push(&mut self, state: String, x: usize, y: usize)
        ensures
            final(self)@ == old(self)@.pushed(state@, x, y),
            final(self)@.wf(),
    {
        let ghost before = self@;
        let mut entries: Vec<Snapshot> = Vec::new();
        self.current_index = 0;
        core::mem::swap(&mut entries, &mut self.entries);
        entries.push(Snapshot { state, x, y });
        let index: usize = entries.len();
        proof {
            assert(entries@.map_values(|e: Snapshot| e.state@) =~= before.snapshots.push(state@));
            assert(entries@.map_values(|e: Snapshot| (e.x, e.y)) =~= before.cursors.push((x, y)));
        }
        self.entries = entries;
        self.current_index = index;
    }

    /// Steps back: hands out the snapshot before the index and moves the
    /// index there. At the start of the history nothing happens.
    pub fn undo(&mut self) -> (r: Option<String>)
        ensures
            final(self)@ == old(self)@.undone(),
            final(self)@.wf(),
            match r {
                Some(state) => old(self)@.undo_result() == Some(state@),
                None => old(self)@.undo_result() is None,
            },
    {
        proof {
            use_type_invariant(&*self);
        }
        if self.current_index == 0 {
            return None;
        }
        self.current_index -= 1;
        Some(self.entries[self.current_index].state.clone())
    }

    /// Steps forward: hands out the snapshot at the index and moves the index
    /// past it. At the end of the history nothing happens.
    pub fn redo(&mut self) -> (r: Option<String>)
        ensures
            final(self)@ == old(self)@.redone(),
            final(self)@.wf(),
            match r {
                Some(state) => old(self)@.redo_result() == Some(state@),
                None => old(self)@.redo_result() is None,
            },
    {
        proof {
            use_type_invariant(&*self);
        }
        if self.current_index >= self.entries.len() {
            return None;
        }
        let state = self.entries[self.current_index].state.clone();
        self.current_index += 1;
        Some(state)
    }

    /// The cursor recorded with the snapshot at the index.
    pub fn get_pointers(&self) -> (r: Option<(usize, usize)>)
        ensures
            r == self@.pointers(),
            self@.wf(),
    {
        proof {
            use_type_invariant(self);
        }
        let index = self.current_index;
        if index < self.entries.len() {
            Some((self.entries[index].x, self.entries[index].y))
        } else {
            None
        }
    }
}

} // verus!
