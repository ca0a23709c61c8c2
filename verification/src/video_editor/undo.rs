//! The undo history: one snapshot of the edit state per finished operation.
use vstd::prelude::*;
use crate::video_editor::state::{EditState, EditView};

verus! {

broadcast use vstd::seq_lib::group_seq_properties;

/// Snapshots up to the current one, and those that were undone, the next one
/// to redo last.
pub struct History {
    stack: Vec<EditState>,
    redo: Vec<EditState>,
}

/// A history as sequences of what its snapshots hold.
#[verifier::ext_equal]
pub struct HistoryView {
    pub stack: Seq<EditView>,
    pub redo: Seq<EditView>,
}

/// What the snapshots hold.
pub open spec fn edits(states: Seq<EditState>) -> Seq<EditView> {
    states.map_values(|s: EditState| s@)
}

impl HistoryView {
    /// There is a current state.
    pub open spec fn wf(self) -> bool {
        self.stack.len() > 0
    }

    /// The current state.
    pub open spec fn current(self) -> EditView {
        self.stack.last()
    }

    /// After committing `state`: nothing happens if it is the current one,
    /// otherwise it becomes current and nothing is left to redo.
    pub open spec fn committed(self, state: EditView) -> HistoryView {
        if state == self.current() {
            self
        } else {
            HistoryView { stack: self.stack.push(state), redo: Seq::empty() }
        }
    }

    /// After an undo: the current state is put aside, unless it is the oldest.
    pub open spec fn undone(self) -> HistoryView {
        if self.stack.len() <= 1 {
            self
        } else {
            HistoryView { stack: self.stack.drop_last(), redo: self.redo.push(self.stack.last()) }
        }
    }

    /// After a redo: the state put aside last is current again.
    pub open spec fn redone(self) -> HistoryView {
        if self.redo.len() == 0 {
            self
        } else {
            HistoryView { stack: self.stack.push(self.redo.last()), redo: self.redo.drop_last() }
        }
    }
}

impl View for History {
    type V = HistoryView;

    closed spec fn view(&self) -> HistoryView {
        HistoryView { stack: edits(self.stack@), redo: edits(self.redo@) }
    }
}

impl History {
    /// A history with one snapshot.
    pub fn new(initial: EditState) -> (r: History)
        ensures
            r@ == (HistoryView { stack: seq![initial@], redo: Seq::empty() }),
            r@.wf(),
    {
        let mut stack: Vec<EditState> = Vec::new();
        stack.push(initial);
        History { stack, redo: Vec::new() }
    }

    /// The current state.
    pub fn current(&self) -> (r: &EditState)
        requires
            self@.wf(),
        ensures
            r@ == self@.current(),
    {
        &self.stack[self.stack.len() - 1]
    }

    /// Push a snapshot, unless it equals the current one: a drag that ends
    /// where it began leaves no trace.
    pub fn commit(&mut self, new_state: EditState)
        requires
            old(self)@.wf(),
        ensures
            final(self)@ == old(self)@.committed(new_state@),
            final(self)@.wf(),
    {
        if new_state.same(self.current()) {
            return ;
        }
        let ghost before = self.stack@;
        self.stack.push(new_state);
        assert(edits(self.stack@) =~= edits(before).push(new_state@));
        self.redo.clear();
    }

    /// Go back one snapshot and return it, or nothing at the oldest.
    pub fn undo(&mut self) -> (r: Option<&EditState>)
        requires
            old(self)@.wf(),
        ensures
            final(self)@ == old(self)@.undone(),
            final(self)@.wf(),
            (r is None) == (old(self)@.stack.len() <= 1),
            r matches Some(s) ==> s@ == final(self)@.current(),
    {
        if self.stack.len() <= 1 {
            return None;
        }
        let ghost stack = self.stack@;
        let ghost redo = self.redo@;
        if let Some(state) = self.stack.pop() {
            self.redo.push(state);
            assert(edits(self.redo@) =~= edits(redo).push(state@));
        }
        assert(edits(self.stack@) =~= edits(stack).drop_last());
        Some(self.current())
    }

    /// Take back the last undo and return the state, or nothing if there is
    /// none.
    pub fn redo(&mut self) -> (r: Option<&EditState>)
        requires
            old(self)@.wf(),
        ensures
            final(self)@ == old(self)@.redone(),
            final(self)@.wf(),
            (r is None) == (old(self)@.redo.len() == 0),
            r matches Some(s) ==> s@ == final(self)@.current(),
    {
        let ghost stack = self.stack@;
        let ghost redo = self.redo@;
        match self.redo.pop() {
            None => None,
            Some(state) => {
                self.stack.push(state);
                assert(edits(self.stack@) =~= edits(stack).push(state@));
                assert(edits(self.redo@) =~= edits(redo).drop_last());
                Some(self.current())
            },
        }
    }
}

/// A redo takes back an undo.
pub proof fn law_redo_takes_back_undo(h: HistoryView)
    requires
        h.stack.len() > 1,
    ensures
        h.undone().redone() == h,
{
    assert(h.stack.drop_last().push(h.stack.last()) =~= h.stack);
    assert(h.redo.push(h.stack.last()).drop_last() =~= h.redo);
}

/// An undo takes back a redo.
pub proof fn law_undo_takes_back_redo(h: HistoryView)
    requires
        h.wf(),
        h.redo.len() > 0,
    ensures
        h.redone().undone() == h,
{
    assert(h.stack.push(h.redo.last()).drop_last() =~= h.stack);
    assert(h.redo.drop_last().push(h.redo.last()) =~= h.redo);
}

/// Undoing a commit of another state gives the state before it back.
pub proof fn law_undo_takes_back_commit(h: HistoryView, state: EditView)
    requires
        h.wf(),
        state != h.current(),
    ensures
        h.committed(state).current() == state,
        h.committed(state).undone().current() == h.current(),
        h.committed(state).undone().stack == h.stack,
{
    assert(h.stack.push(state).drop_last() =~= h.stack);
}

/// Committing the current state changes nothing.
pub proof fn law_commit_of_current_is_ignored(h: HistoryView)
    ensures
        h.committed(h.current()) == h,
{
}

/// After a commit of another state there is nothing to redo.
pub proof fn law_commit_clears_redo(h: HistoryView, state: EditView)
    requires
        state != h.current(),
    ensures
        h.committed(state).redo.len() == 0,
        h.committed(state).redone() == h.committed(state),
{
}

} // verus!
