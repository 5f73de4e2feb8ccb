//! Guarded deletion: the selected paths are taken one at a time, in the order
//! of the selection. Each is first inspected without following a symbolic
//! link, then removed with all it holds; a symbolic link is refused, and the
//! first failure of any kind ends the deletion.
//!
//! The deletion itself never touches the file system. It says which step is
//! due, is told how that step went, and says which step is due next.

use vstd::prelude::*;
use crate::entry::EntryKind;
use crate::error::{CleanError, CleanErrorView};
use crate::path::views;

verus! {

/// The step that is due.
#[derive(Clone, Debug)]
pub enum DeleteAction {
    /// Read what the path itself is, without following a symbolic link.
    Inspect { path: String },
    /// Remove the directory at the path and all it holds.
    Remove { path: String },
    /// Every selected path is gone; nothing is left to do.
    Succeed,
    /// The deletion has failed; nothing more is done.
    Fail(CleanError),
}

/// A `DeleteAction` as contracts see it.
pub enum DeleteActionView {
    Inspect { path: Seq<char> },
    Remove { path: Seq<char> },
    Succeed,
    Fail(CleanErrorView),
}

impl View for DeleteAction {
    type V = DeleteActionView;

    open spec fn view(&self) -> DeleteActionView {
        match self {
            DeleteAction::Inspect { path } => DeleteActionView::Inspect { path: path@ },
            DeleteAction::Remove { path } => DeleteActionView::Remove { path: path@ },
            DeleteAction::Succeed => DeleteActionView::Succeed,
            DeleteAction::Fail(error) => DeleteActionView::Fail(error@),
        }
    }
}

/// How a step went.
#[derive(Clone, Debug)]
pub enum DeleteEvent {
    /// The path was inspected and is of this kind.
    Inspected(EntryKind),
    /// The path could not be inspected.
    InspectFailed { cause: String },
    /// The path and all it held are gone.
    Removed,
    /// The removal failed.
    RemoveFailed { cause: String },
}

/// A `DeleteEvent` as contracts see it.
pub enum DeleteEventView {
    Inspected(EntryKind),
    InspectFailed { cause: Seq<char> },
    Removed,
    RemoveFailed { cause: Seq<char> },
}

impl View for DeleteEvent {
    type V = DeleteEventView;

    open spec fn view(&self) -> DeleteEventView {
        match self {
            DeleteEvent::Inspected(kind) => DeleteEventView::Inspected(*kind),
            DeleteEvent::InspectFailed { cause } => DeleteEventView::InspectFailed { cause: cause@ },
            DeleteEvent::Removed => DeleteEventView::Removed,
            DeleteEvent::RemoveFailed { cause } => DeleteEventView::RemoveFailed { cause: cause@ },
        }
    }
}

/// Where a deletion stands with the path at its position.
pub enum StageView {
    /// The path is to be inspected.
    Inspecting,
    /// The path was inspected and is to be removed.
    Removing,
    /// Every path is gone.
    Succeeded,
    /// The deletion failed at the path.
    Failed(CleanErrorView),
}

/// A `Deletion` as contracts see it: the selection, how many of its paths are
/// gone, and the stage of the next one.
pub struct DeletionView {
    pub selected: Seq<Seq<char>>,
    pub position: nat,
    pub stage: StageView,
}

/// The states that a deletion can be in: while a path is worked on or after
/// a failure the position is that of the path, after success it is the length
/// of the selection.
pub open spec fn well_formed(s: DeletionView) -> bool {
    match s.stage {
        StageView::Succeeded => s.position == s.selected.len(),
        _ => s.position < s.selected.len(),
    }
}

/// The state in which a deletion starts.
pub open spec fn start(selected: Seq<Seq<char>>) -> DeletionView {
    DeletionView {
        selected,
        position: 0,
        stage: if selected.len() == 0 {
            StageView::Succeeded
        } else {
            StageView::Inspecting
        },
    }
}

/// The step that is due in a state.
pub open spec fn pending(s: DeletionView) -> DeleteActionView {
    match s.stage {
        StageView::Inspecting => DeleteActionView::Inspect { path: s.selected[s.position as int] },
        StageView::Removing => DeleteActionView::Remove { path: s.selected[s.position as int] },
        StageView::Succeeded => DeleteActionView::Succeed,
        StageView::Failed(error) => DeleteActionView::Fail(error),
    }
}

/// The state that follows when a step went as the event says. An event that
/// does not answer the step that is due changes nothing; neither does any
/// event after success or failure.
pub open spec fn step(s: DeletionView, event: DeleteEventView) -> DeletionView {
    let path = s.selected[s.position as int];
    match (s.stage, event) {
        (StageView::Inspecting, DeleteEventView::Inspected(EntryKind::Symlink)) => DeletionView {
            stage: StageView::Failed(CleanErrorView::SymlinkRefusal { path }),
            ..s
        },
        (StageView::Inspecting, DeleteEventView::Inspected(_)) => DeletionView {
            stage: StageView::Removing,
            ..s
        },
        (StageView::Inspecting, DeleteEventView::InspectFailed { cause }) => DeletionView {
            stage: StageView::Failed(CleanErrorView::Metadata { path, cause }),
            ..s
        },
        (StageView::Removing, DeleteEventView::Removed) => DeletionView {
            position: s.position + 1,
            stage: if s.position + 1 == s.selected.len() {
                StageView::Succeeded
            } else {
                StageView::Inspecting
            },
            ..s
        },
        (StageView::Removing, DeleteEventView::RemoveFailed { cause }) => DeletionView {
            stage: StageView::Failed(CleanErrorView::Deletion { path, cause }),
            ..s
        },
        _ => s,
    }
}

/// The state after a run of events.
pub open spec fn run(s: DeletionView, events: Seq<DeleteEventView>) -> DeletionView
    decreases events.len(),
{
    if events.len() == 0 {
        s
    } else {
        step(run(s, events.drop_last()), events.last())
    }
}

/// The paths that were removed in a run of events, in the order of their
/// removal: one for each `Removed` that answered a removal that was due.
pub open spec fn removed(s: DeletionView, events: Seq<DeleteEventView>) -> Seq<Seq<char>>
    decreases events.len(),
{
    if events.len() == 0 {
        Seq::empty()
    } else {
        let before = run(s, events.drop_last());
        let earlier = removed(s, events.drop_last());
        if before.stage is Removing && events.last() is Removed {
            earlier.push(before.selected[before.position as int])
        } else {
            earlier
        }
    }
}

/// Every step keeps the selection, keeps the state well formed, and moves the
/// position by one path at most, and only when a removal has been done.
pub proof fn lemma_step_advances_in_order(s: DeletionView, event: DeleteEventView)
    requires
        well_formed(s),
    ensures
        well_formed(step(s, event)),
        step(s, event).selected == s.selected,
        step(s, event).position == s.position || (step(s, event).position == s.position + 1
            && s.stage is Removing && event is Removed),
{
}

/// The path that a step is due for, where one is.
pub open spec fn due_path(s: DeletionView) -> Option<Seq<char>> {
    match pending(s) {
        DeleteActionView::Inspect { path } => Some(path),
        DeleteActionView::Remove { path } => Some(path),
        _ => None,
    }
}

/// Deletion goes in the order of the selection: whatever the events, the
/// paths removed so far are the first paths of the selection, in its order,
/// as many as the position says.
pub proof fn lemma_removes_in_selection_order(
    selected: Seq<Seq<char>>,
    events: Seq<DeleteEventView>,
)
    ensures
        well_formed(run(start(selected), events)),
        run(start(selected), events).selected == selected,
        removed(start(selected), events) == selected.take(
            run(start(selected), events).position as int,
        ),
    decreases events.len(),
{
    if events.len() == 0 {
        assert(selected.take(0) =~= Seq::<Seq<char>>::empty());
    } else {
        lemma_removes_in_selection_order(selected, events.drop_last());
        let before = run(start(selected), events.drop_last());
        lemma_step_advances_in_order(before, events.last());
        if before.stage is Removing && events.last() is Removed {
            assert(selected.take(before.position as int + 1) =~= selected.take(
                before.position as int,
            ).push(selected[before.position as int]));
        }
    }
}

/// Later paths are left alone: at every point of a run the step that is due,
/// if any, is for the path at the position, and the position never goes
/// back. So no path after the one at which a run stands has been inspected or
/// removed in it.
pub proof fn lemma_later_paths_untouched(
    selected: Seq<Seq<char>>,
    events: Seq<DeleteEventView>,
    k: int,
)
    requires
        0 <= k <= events.len(),
    ensures
        ({
            let midway = run(start(selected), events.take(k));
            let last = run(start(selected), events);
            &&& midway.position <= last.position
            &&& due_path(midway) matches Some(path) ==> midway.position < selected.len() && path
                == selected[midway.position as int]
        }),
    decreases events.len(),
{
    lemma_removes_in_selection_order(selected, events.take(k));
    if k == events.len() {
        assert(events.take(k) == events);
    } else {
        assert(events.drop_last().take(k) == events.take(k));
        lemma_later_paths_untouched(selected, events.drop_last(), k);
        lemma_removes_in_selection_order(selected, events.drop_last());
        lemma_step_advances_in_order(run(start(selected), events.drop_last()), events.last());
    }
}

/// Deletion stops at the first failure: once it has failed or succeeded, no
/// event changes its state, and nothing more is removed.
pub proof fn lemma_stops_when_finished(s: DeletionView, events: Seq<DeleteEventView>)
    requires
        s.stage is Failed || s.stage is Succeeded,
    ensures
        run(s, events) == s,
        removed(s, events) == Seq::<Seq<char>>::empty(),
    decreases events.len(),
{
    if events.len() > 0 {
        lemma_stops_when_finished(s, events.drop_last());
    }
}

/// A symbolic link is refused: when the path that is inspected turns out to
/// be one, the deletion fails with `SymlinkRefusal` for that path, and no
/// removal is due for it or for any later path, whatever follows.
pub proof fn lemma_symlink_is_refused(s: DeletionView, later: Seq<DeleteEventView>)
    requires
        well_formed(s),
        s.stage is Inspecting,
    ensures
        ({
            let refused = step(s, DeleteEventView::Inspected(EntryKind::Symlink));
            &&& refused.stage == StageView::Failed(
                CleanErrorView::SymlinkRefusal { path: s.selected[s.position as int] },
            )
            &&& refused.position == s.position
            &&& run(refused, later) == refused
            &&& removed(refused, later) == Seq::<Seq<char>>::empty()
        }),
{
    lemma_stops_when_finished(step(s, DeleteEventView::Inspected(EntryKind::Symlink)), later);
}

/// Where a deletion stands with the path at its position.
#[derive(Clone, Debug)]
enum Stage {
    Inspecting,
    Removing,
    Failed(CleanError),
}

/// The deletion of a selection of paths.
#[derive(Debug)]
pub struct Deletion {
    selected: Vec<String>,
    position: usize,
    stage: Stage,
}

impl View for Deletion {
    type V = DeletionView;

    closed spec fn view(&self) -> DeletionView {
        DeletionView {
            selected: views(self.selected@),
            position: self.position as nat,
            stage: match self.stage {
                Stage::Inspecting => if self.position == self.selected.len() {
                    StageView::Succeeded
                } else {
                    StageView::Inspecting
                },
                Stage::Removing => StageView::Removing,
                Stage::Failed(error) => StageView::Failed(error@),
            },
        }
    }
}

impl Deletion {
    #[verifier::type_invariant]
    spec fn inv(self) -> bool {
        &&& self.position <= self.selected.len()
        &&& !(self.stage is Inspecting) ==> self.position < self.selected.len()
    }

    /// A deletion of the selected paths, in their order, with nothing done
    /// yet.
    pub fn new(selected: Vec<String>) -> (deletion: Deletion)
        ensures
            deletion@ == start(views(selected@)),
    {
        Deletion { selected, position: 0, stage: Stage::Inspecting }
    }

    /// The step that is due.
    pub fn action(&self) -> (action: DeleteAction)
        ensures
            well_formed(self@),
            action@ == pending(self@),
    {
        proof {
            use_type_invariant(self);
        }
        match &self.stage {
            Stage::Inspecting => {
                if self.position == self.selected.len() {
                    DeleteAction::Succeed
                } else {
                    DeleteAction::Inspect { path: self.selected[self.position].clone() }
                }
            },
            Stage::Removing => DeleteAction::Remove { path: self.selected[self.position].clone() },
            Stage::Failed(error) => DeleteAction::Fail(error.duplicate()),
        }
    }

    /// Takes note of how the step that was due went.
    pub fn advance(&mut self, event: DeleteEvent)
        ensures
            final(self)@ == step(old(self)@, event@),
    {
        proof {
            use_type_invariant(&*self);
        }
        if self.position == self.selected.len() {
            return ;
        }
        match (&self.stage, event) {
            (Stage::Inspecting, DeleteEvent::Inspected(EntryKind::Symlink)) => {
                let path = self.selected[self.position].clone();
                self.stage = Stage::Failed(CleanError::SymlinkRefusal { path });
            },
            (Stage::Inspecting, DeleteEvent::Inspected(_)) => {
                self.stage = Stage::Removing;
            },
            (Stage::Inspecting, DeleteEvent::InspectFailed { cause }) => {
                let path = self.selected[self.position].clone();
                self.stage = Stage::Failed(CleanError::Metadata { path, cause });
            },
            (Stage::Removing, DeleteEvent::Removed) => {
                self.stage = Stage::Inspecting;
                self.position = self.position + 1;
            },
            (Stage::Removing, DeleteEvent::RemoveFailed { cause }) => {
                let path = self.selected[self.position].clone();
                self.stage = Stage::Failed(CleanError::Deletion { path, cause });
            },
            _ => {},
        }
    }
}

} // verus!
