//! The two commands. The list command scans and lists what the scan found.
//! The delete command scans, has the user select, shows the selection, has
//! the user confirm, and deletes.
//!
//! A command does nothing to the outside world itself. It says what it
//! needs next (a walk of the tree, a choice, an answer, a step of the
//! deletion), is told what came of it, and says which lines to print and what
//! it needs after that. Whoever runs it does what it asks and nothing else, so what the
//! command never asks for never happens.

use vstd::prelude::*;
use vstd::string::StringExecFns;
use crate::delete::{
    lemma_step_advances_in_order, pending, start, step, well_formed, DeleteAction,
    DeleteActionView, DeleteEvent, DeleteEventView, Deletion, DeletionView, StageView,
};
use crate::entry::{WalkItem, WalkItemView};
use crate::error::{CleanError, CleanErrorView};
use crate::path::{lemma_views_push, views};
use crate::report::{
    format_list_report, format_no_matches, format_selection_report, list_report,
    no_matches_line, selection_report,
};
use crate::scan::{is_scan_result, lemma_scan_outcome, scan_node_modules, scan_outcome};
use crate::select::{copy_paths, in_range, picked, select_paths};

verus! {

/// Which command it is.
#[derive(Clone, Copy, Debug, PartialEq, Eq, Structural)]
pub enum Mode {
    /// Scan and list the matches. Nothing is ever deleted.
    List,
    /// Scan, select and delete.
    Delete,
}

/// The switches of the delete command.
#[derive(Clone, Copy, Debug, PartialEq, Eq, Structural)]
pub struct Options {
    /// Select every match, without asking.
    pub all: bool,
    /// Show the selection and stop.
    pub dry_run: bool,
    /// Do not ask for confirmation.
    pub yes: bool,
}

/// What the command needs next.
#[derive(Clone, Debug)]
pub enum Request {
    /// Walk the tree beneath `root`, at most `max_depth` levels deep, and
    /// hand back what the walk comes upon, up to its first failure. The walk
    /// goes into what a symbolic link points to only if `follow_links` is
    /// set, which it never is. It may turn back wherever the pruning rule of
    /// the scanner says so.
    Walk { root: String, max_depth: Option<usize>, follow_links: bool },
    /// Let the user choose among the labels.
    Choose { prompt: String, labels: Vec<String> },
    /// Ask the user yes or no; no answer counts as `default`.
    Confirm { prompt: String, default: bool },
    /// Read what the path itself is, without following a symbolic link.
    Inspect { path: String },
    /// Remove the directory at the path and all it holds.
    Remove { path: String },
    /// The command is done and ends cleanly.
    Finish,
    /// The command has failed and ends with the failure.
    Abort(CleanError),
}

/// A `Request` as contracts see it.
pub enum RequestView {
    Walk { root: Seq<char>, max_depth: Option<usize>, follow_links: bool },
    Choose { prompt: Seq<char>, labels: Seq<Seq<char>> },
    Confirm { prompt: Seq<char>, default: bool },
    Inspect { path: Seq<char> },
    Remove { path: Seq<char> },
    Finish,
    Abort(CleanErrorView),
}

impl View for Request {
    type V = RequestView;

    open spec fn view(&self) -> RequestView {
        match self {
            Request::Walk { root, max_depth, follow_links } => RequestView::Walk {
                root: root@,
                max_depth: *max_depth,
                follow_links: *follow_links,
            },
            Request::Choose { prompt, labels } => RequestView::Choose {
                prompt: prompt@,
                labels: views(labels@),
            },
            Request::Confirm { prompt, default } => RequestView::Confirm {
                prompt: prompt@,
                default: *default,
            },
            Request::Inspect { path } => RequestView::Inspect { path: path@ },
            Request::Remove { path } => RequestView::Remove { path: path@ },
            Request::Finish => RequestView::Finish,
            Request::Abort(error) => RequestView::Abort(error@),
        }
    }
}

/// What came of a request.
#[derive(Clone, Debug)]
pub enum Event {
    /// The walk came upon these entries and failures.
    Walked(Vec<WalkItem>),
    /// The user chose the labels at these positions.
    Chosen(Vec<usize>),
    /// The user answered yes (`true`) or no.
    Confirmed(bool),
    /// A step of the deletion went this way.
    Deletion(DeleteEvent),
}

/// An `Event` as contracts see it.
pub enum EventView {
    Walked(Seq<WalkItemView>),
    Chosen(Seq<usize>),
    Confirmed(bool),
    Deletion(DeleteEventView),
}

impl View for Event {
    type V = EventView;

    open spec fn view(&self) -> EventView {
        match self {
            Event::Walked(walk) => EventView::Walked(views(walk@)),
            Event::Chosen(chosen) => EventView::Chosen(chosen@),
            Event::Confirmed(yes) => EventView::Confirmed(*yes),
            Event::Deletion(event) => EventView::Deletion(event@),
        }
    }
}

/// How far the command has come.
pub enum PhaseView {
    /// The walk is awaited.
    Scanning,
    /// The user's choice among the matches is awaited.
    Choosing { items: Seq<Seq<char>> },
    /// The user's yes or no to the deletion of the selection is awaited.
    Confirming { selected: Seq<Seq<char>> },
    /// The deletion is under way.
    Deleting(DeletionView),
    /// The command has ended cleanly.
    Finished,
    /// The command has ended with a failure.
    Aborted(CleanErrorView),
}

/// A `Command` as contracts see it.
pub struct CommandView {
    pub mode: Mode,
    pub root: Seq<char>,
    pub max_depth: Option<usize>,
    pub options: Options,
    pub phase: PhaseView,
}

/// The question that the user is asked about the matches.
pub open spec fn choose_prompt() -> Seq<char> {
    "Select node_modules to delete (space to toggle, enter to confirm)"@
}

/// The question that the user is asked before anything is deleted.
pub open spec fn confirm_prompt() -> Seq<char> {
    "Proceed with deletion?"@
}

/// The states that a command can be in. Only the delete command goes past
/// the scan. It asks for a choice only without `all`, for an answer only
/// without `yes`, and goes past showing the selection only without `dry_run`;
/// what it asks about or deletes is never empty.
pub open spec fn consistent(s: CommandView) -> bool {
    match s.phase {
        PhaseView::Choosing { items } => s.mode == Mode::Delete && !s.options.all && items.len()
            > 0,
        PhaseView::Confirming { selected } => s.mode == Mode::Delete && !s.options.dry_run
            && !s.options.yes && selected.len() > 0,
        PhaseView::Deleting(deletion) => s.mode == Mode::Delete && !s.options.dry_run
            && well_formed(deletion) && (deletion.stage is Inspecting
            || deletion.stage is Removing),
        _ => true,
    }
}

/// The state in which a command starts.
pub open spec fn begin(
    mode: Mode,
    root: Seq<char>,
    max_depth: Option<usize>,
    options: Options,
) -> CommandView {
    CommandView { mode, root, max_depth, options, phase: PhaseView::Scanning }
}

/// What the command needs in a state.
pub open spec fn request_of(s: CommandView) -> RequestView {
    match s.phase {
        PhaseView::Scanning => RequestView::Walk {
            root: s.root,
            max_depth: s.max_depth,
            follow_links: false,
        },
        PhaseView::Choosing { items } => RequestView::Choose {
            prompt: choose_prompt(),
            labels: items,
        },
        PhaseView::Confirming { selected } => RequestView::Confirm {
            prompt: confirm_prompt(),
            default: false,
        },
        PhaseView::Deleting(deletion) => match pending(deletion) {
            DeleteActionView::Inspect { path } => RequestView::Inspect { path },
            DeleteActionView::Remove { path } => RequestView::Remove { path },
            DeleteActionView::Succeed => RequestView::Finish,
            DeleteActionView::Fail(error) => RequestView::Abort(error),
        },
        PhaseView::Finished => RequestView::Finish,
        PhaseView::Aborted(error) => RequestView::Abort(error),
    }
}

/// What follows once a selection that is not empty is fixed: it is shown,
/// and then the command ends (`dry_run`), deletes (`yes`) or asks.
pub open spec fn proceed(options: Options, selected: Seq<Seq<char>>) -> (PhaseView, Seq<Seq<char>>) {
    if options.dry_run {
        (PhaseView::Finished, selection_report(selected).push("Dry run: nothing deleted."@))
    } else if options.yes {
        (PhaseView::Deleting(start(selected)), selection_report(selected))
    } else {
        (PhaseView::Confirming { selected }, selection_report(selected))
    }
}

/// What follows the scan of the walk: a failed scan ends the command with
/// the failure; the list command lists the matches; the delete command ends
/// if there is none, takes them all with `all`, and has the user choose
/// otherwise.
pub open spec fn after_scan(s: CommandView, scanned: Result<Seq<Seq<char>>, CleanErrorView>) -> (
    PhaseView,
    Seq<Seq<char>>,
) {
    match scanned {
        Err(error) => (PhaseView::Aborted(error), Seq::empty()),
        Ok(items) => if s.mode == Mode::List {
            (PhaseView::Finished, list_report(s.root, items))
        } else if items.len() == 0 {
            (PhaseView::Finished, seq![no_matches_line(s.root)])
        } else if s.options.all {
            proceed(s.options, items)
        } else {
            (PhaseView::Choosing { items }, Seq::empty())
        },
    }
}

/// The phase that follows an event, and the lines that are printed on the
/// way. An event that does not answer what the command needs changes nothing
/// and prints nothing.
pub open spec fn follow(s: CommandView, event: EventView) -> (PhaseView, Seq<Seq<char>>) {
    match (s.phase, event) {
        (PhaseView::Scanning, EventView::Walked(walk)) => after_scan(
            s,
            scan_outcome(s.root, s.max_depth, walk),
        ),
        (PhaseView::Choosing { items }, EventView::Chosen(chosen)) => if chosen.len() == 0 {
            (PhaseView::Finished, seq!["Nothing selected"@])
        } else {
            proceed(s.options, picked(items, chosen))
        },
        (PhaseView::Confirming { selected }, EventView::Confirmed(yes)) => if yes {
            (PhaseView::Deleting(start(selected)), Seq::empty())
        } else {
            (PhaseView::Finished, seq!["Cancelled."@])
        },
        (PhaseView::Deleting(deletion), EventView::Deletion(event)) => {
            let after = step(deletion, event);
            match after.stage {
                StageView::Succeeded => (PhaseView::Finished, seq!["Done."@]),
                StageView::Failed(error) => (PhaseView::Aborted(error), Seq::empty()),
                _ => (PhaseView::Deleting(after), Seq::empty()),
            }
        },
        _ => (s.phase, Seq::empty()),
    }
}

/// The state that follows an event.
pub open spec fn next(s: CommandView, event: EventView) -> CommandView {
    CommandView { phase: follow(s, event).0, ..s }
}

/// The event is one that the command can take in its state: a choice names
/// positions of the items that were offered.
pub open spec fn fits(s: CommandView, event: EventView) -> bool {
    match (s.phase, event) {
        (PhaseView::Choosing { items }, EventView::Chosen(chosen)) => in_range(chosen, items.len()),
        _ => true,
    }
}

/// The state after a run of events.
pub open spec fn run(s: CommandView, events: Seq<EventView>) -> CommandView
    decreases events.len(),
{
    if events.len() == 0 {
        s
    } else {
        next(run(s, events.drop_last()), events.last())
    }
}

/// The lines printed in a run of events, in order.
pub open spec fn printed(s: CommandView, events: Seq<EventView>) -> Seq<Seq<char>>
    decreases events.len(),
{
    if events.len() == 0 {
        Seq::empty()
    } else {
        printed(s, events.drop_last()) + follow(run(s, events.drop_last()), events.last()).1
    }
}

/// The request is for a step of the deletion: the inspection of a selected
/// path or its removal.
pub open spec fn is_deletion_step(request: RequestView) -> bool {
    request is Inspect || request is Remove
}

/// Every event leaves the command in one of its states, with its mode, root,
/// depth bound and switches as they were.
pub proof fn lemma_next_consistent(s: CommandView, event: EventView)
    requires
        consistent(s),
    ensures
        consistent(next(s, event)),
        next(s, event).mode == s.mode,
        next(s, event).options == s.options,
        next(s, event).root == s.root,
        next(s, event).max_depth == s.max_depth,
{
    match (s.phase, event) {
        (PhaseView::Deleting(deletion), EventView::Deletion(e)) => {
            lemma_step_advances_in_order(deletion, e);
        },
        _ => {},
    }
}

/// Every run of events leaves the command in one of its states, with its
/// mode and switches as they were.
pub proof fn lemma_run_consistent(s: CommandView, events: Seq<EventView>)
    requires
        consistent(s),
    ensures
        consistent(run(s, events)),
        run(s, events).mode == s.mode,
        run(s, events).options == s.options,
        run(s, events).root == s.root,
    decreases events.len(),
{
    if events.len() > 0 {
        lemma_run_consistent(s, events.drop_last());
        lemma_next_consistent(run(s, events.drop_last()), events.last());
    }
}

/// The list command changes nothing on disk and asks the user nothing:
/// whatever the events, all it ever asks for is the walk.
pub proof fn lemma_list_never_deletes(
    root: Seq<char>,
    max_depth: Option<usize>,
    options: Options,
    events: Seq<EventView>,
)
    ensures
        ({
            let request = request_of(run(begin(Mode::List, root, max_depth, options), events));
            request is Walk || request is Finish || request is Abort
        }),
{
    lemma_run_consistent(begin(Mode::List, root, max_depth, options), events);
}

/// The list command lists the scan result of the walk: the reported
/// `node_modules` directories in ascending order, each once, none beneath
/// another, one line for each.
pub proof fn lemma_list_shows_scan_result(
    root: Seq<char>,
    max_depth: Option<usize>,
    options: Options,
    walk: Seq<WalkItemView>,
)
    requires
        scan_outcome(root, max_depth, walk) is Ok,
    ensures
        ({
            let found = scan_outcome(root, max_depth, walk)->Ok_0;
            &&& is_scan_result(root, max_depth, walk, found)
            &&& follow(begin(Mode::List, root, max_depth, options), EventView::Walked(walk)) == (
                PhaseView::Finished,
                list_report(root, found),
            )
        }),
{
    lemma_scan_outcome(root, max_depth, walk);
}

/// A dry run changes nothing on disk: whatever the walk finds and whatever
/// the user does, the command never asks for a step of the deletion, nor for
/// the confirmation of one.
pub proof fn lemma_dry_run_never_deletes(
    mode: Mode,
    root: Seq<char>,
    max_depth: Option<usize>,
    options: Options,
    events: Seq<EventView>,
)
    requires
        options.dry_run,
    ensures
        !is_deletion_step(request_of(run(begin(mode, root, max_depth, options), events))),
        !(request_of(run(begin(mode, root, max_depth, options), events)) is Confirm),
{
    lemma_run_consistent(begin(mode, root, max_depth, options), events);
}

/// With `all` the user is never asked to choose, and the selection is every
/// match of the scan, in the scan's order: where the scan finds anything, the
/// command goes on with the whole scan result as its selection.
pub proof fn lemma_all_selects_every_match(
    mode: Mode,
    root: Seq<char>,
    max_depth: Option<usize>,
    options: Options,
    events: Seq<EventView>,
    walk: Seq<WalkItemView>,
)
    requires
        options.all,
    ensures
        !(request_of(run(begin(mode, root, max_depth, options), events)) is Choose),
        scan_outcome(root, max_depth, walk) matches Ok(found) ==> found.len() > 0 ==> {
            &&& is_scan_result(root, max_depth, walk, found)
            &&& follow(begin(Mode::Delete, root, max_depth, options), EventView::Walked(walk))
                == proceed(options, found)
        },
{
    lemma_run_consistent(begin(mode, root, max_depth, options), events);
    lemma_scan_outcome(root, max_depth, walk);
}

/// Where the scan finds nothing, the command says so and ends cleanly: it has
/// asked for nothing but the walk, and asks for nothing more.
pub proof fn lemma_no_matches_ends_cleanly(
    mode: Mode,
    root: Seq<char>,
    max_depth: Option<usize>,
    options: Options,
    walk: Seq<WalkItemView>,
    later: Seq<EventView>,
)
    requires
        scan_outcome(root, max_depth, walk) == Ok::<Seq<Seq<char>>, CleanErrorView>(Seq::empty()),
    ensures
        ({
            let started = begin(mode, root, max_depth, options);
            let ended = next(started, EventView::Walked(walk));
            &&& follow(started, EventView::Walked(walk)) == (
                PhaseView::Finished,
                seq![no_matches_line(root)],
            )
            &&& request_of(ended) == RequestView::Finish
            &&& run(ended, later) == ended
        }),
    decreases later.len(),
{
    if later.len() > 0 {
        lemma_no_matches_ends_cleanly(mode, root, max_depth, options, walk, later.drop_last());
    }
}

/// Declining the confirmation ends the command cleanly with nothing deleted.
pub proof fn lemma_declined_never_deletes(s: CommandView, later: Seq<EventView>)
    requires
        s.phase is Confirming,
    ensures
        ({
            let ended = next(s, EventView::Confirmed(false));
            &&& follow(s, EventView::Confirmed(false)) == (PhaseView::Finished, seq!["Cancelled."@])
            &&& run(ended, later) == ended
        }),
    decreases later.len(),
{
    if later.len() > 0 {
        lemma_declined_never_deletes(s, later.drop_last());
    }
}

/// The selection is shown before anything is done to it: when the delete
/// command asks for a confirmation or for a step of the deletion, what it has
/// printed is the count and the paths of just the selection that it asks
/// about or deletes.
pub proof fn lemma_selection_shown_before_deletion(
    root: Seq<char>,
    max_depth: Option<usize>,
    options: Options,
    events: Seq<EventView>,
)
    ensures
        ({
            let started = begin(Mode::Delete, root, max_depth, options);
            match run(started, events).phase {
                PhaseView::Confirming { selected } => printed(started, events) == selection_report(
                    selected,
                ),
                PhaseView::Deleting(deletion) => printed(started, events) == selection_report(
                    deletion.selected,
                ),
                PhaseView::Scanning => printed(started, events) == Seq::<Seq<char>>::empty(),
                PhaseView::Choosing { .. } => printed(started, events) == Seq::<Seq<char>>::empty(),
                _ => true,
            }
        }),
    decreases events.len(),
{
    let started = begin(Mode::Delete, root, max_depth, options);
    if events.len() > 0 {
        let before = run(started, events.drop_last());
        let said = printed(started, events.drop_last());
        lemma_selection_shown_before_deletion(root, max_depth, options, events.drop_last());
        lemma_run_consistent(started, events.drop_last());
        lemma_next_consistent(before, events.last());
        let lines = follow(before, events.last()).1;
        match (before.phase, events.last()) {
            (PhaseView::Deleting(deletion), EventView::Deletion(e)) => {
                lemma_step_advances_in_order(deletion, e);
            },
            _ => {},
        }
        match run(started, events).phase {
            PhaseView::Confirming { selected } => {
                assert(said + lines =~= selection_report(selected));
            },
            PhaseView::Deleting(deletion) => {
                assert(said + lines =~= selection_report(deletion.selected));
            },
            PhaseView::Scanning => {
                assert(said + lines =~= Seq::<Seq<char>>::empty());
            },
            PhaseView::Choosing { .. } => {
                assert(said + lines =~= Seq::<Seq<char>>::empty());
            },
            _ => {},
        }
    }
}

/// Whatever the command and its switches, the walk that it asks for does not
/// follow symbolic links.
pub proof fn lemma_walk_never_follows_links(s: CommandView)
    ensures
        request_of(s) matches RequestView::Walk { follow_links, .. } ==> !follow_links,
{
}

/// How far the command has come.
#[derive(Debug)]
enum Phase {
    Scanning,
    Choosing { items: Vec<String> },
    Confirming { selected: Vec<String> },
    Deleting(Deletion),
    Finished,
    Aborted(CleanError),
}

impl View for Phase {
    type V = PhaseView;

    closed spec fn view(&self) -> PhaseView {
        match self {
            Phase::Scanning => PhaseView::Scanning,
            Phase::Choosing { items } => PhaseView::Choosing { items: views(items@) },
            Phase::Confirming { selected } => PhaseView::Confirming { selected: views(selected@) },
            Phase::Deleting(deletion) => PhaseView::Deleting(deletion@),
            Phase::Finished => PhaseView::Finished,
            Phase::Aborted(error) => PhaseView::Aborted(error@),
        }
    }
}

/// A command: what it is to do, and how far it has come.
#[derive(Debug)]
pub struct Command {
    mode: Mode,
    root: String,
    max_depth: Option<usize>,
    options: Options,
    phase: Phase,
}

impl View for Command {
    type V = CommandView;

    closed spec fn view(&self) -> CommandView {
        CommandView {
            mode: self.mode,
            root: self.root@,
            max_depth: self.max_depth,
            options: self.options,
            phase: self.phase@,
        }
    }
}

/// The phase and the lines that follow once a selection is fixed.
fn proceed_with(options: Options, selected: Vec<String>) -> (r: (Phase, Vec<String>))
    requires
        selected.len() > 0,
    ensures
        (r.0@, views(r.1@)) == proceed(options, views(selected@)),
        consistent(
            CommandView {
                mode: Mode::Delete,
                root: Seq::empty(),
                max_depth: None,
                options,
                phase: r.0@,
            },
        ),
{
    let mut lines = format_selection_report(&selected);
    if options.dry_run {
        let last = String::from_str("Dry run: nothing deleted.");
        proof {
            lemma_views_push(lines@, last);
        }
        lines.push(last);
        (Phase::Finished, lines)
    } else if options.yes {
        let deletion = Deletion::new(selected);
        (Phase::Deleting(deletion), lines)
    } else {
        (Phase::Confirming { selected }, lines)
    }
}

/// One line, as the lines to print.
fn one_line(text: &str) -> (lines: Vec<String>)
    ensures
        views(lines@) == seq![text@],
{
    let mut lines: Vec<String> = Vec::new();
    let line = String::from_str(text);
    proof {
        lemma_views_push(lines@, line);
    }
    lines.push(line);
    assert(views(lines@) =~= seq![text@]);
    lines
}

/// No line to print.
fn no_lines() -> (lines: Vec<String>)
    ensures
        views(lines@) == Seq::<Seq<char>>::empty(),
{
    let lines: Vec<String> = Vec::new();
    assert(views(lines@) =~= Seq::<Seq<char>>::empty());
    lines
}

impl Command {
    #[verifier::type_invariant]
    spec fn inv(self) -> bool {
        consistent(self@)
    }

    /// A list command for the tree beneath `root`, with nothing done yet.
    pub fn list(root: String, max_depth: Option<usize>) -> (command: Command)
        ensures
            command@ == begin(
                Mode::List,
                root@,
                max_depth,
                Options { all: false, dry_run: false, yes: false },
            ),
    {
        Command {
            mode: Mode::List,
            root,
            max_depth,
            options: Options { all: false, dry_run: false, yes: false },
            phase: Phase::Scanning,
        }
    }

    /// A delete command for the tree beneath `root`, with nothing done yet.
    pub fn delete(root: String, max_depth: Option<usize>, options: Options) -> (command: Command)
        ensures
            command@ == begin(Mode::Delete, root@, max_depth, options),
    {
        Command { mode: Mode::Delete, root, max_depth, options, phase: Phase::Scanning }
    }

    /// What the command needs next.
    pub fn request(&self) -> (request: Request)
        ensures
            consistent(self@),
            request@ == request_of(self@),
    {
        proof {
            use_type_invariant(self);
        }
        match &self.phase {
            Phase::Scanning => Request::Walk {
                root: self.root.clone(),
                max_depth: self.max_depth,
                follow_links: false,
            },
            Phase::Choosing { items } => Request::Choose {
                prompt: String::from_str(
                    "Select node_modules to delete (space to toggle, enter to confirm)",
                ),
                labels: copy_paths(items),
            },
            Phase::Confirming { selected } => Request::Confirm {
                prompt: String::from_str("Proceed with deletion?"),
                default: false,
            },
            Phase::Deleting(deletion) => match deletion.action() {
                DeleteAction::Inspect { path } => Request::Inspect { path },
                DeleteAction::Remove { path } => Request::Remove { path },
                DeleteAction::Succeed => Request::Finish,
                DeleteAction::Fail(error) => Request::Abort(error),
            },
            Phase::Finished => Request::Finish,
            Phase::Aborted(error) => Request::Abort(error.duplicate()),
        }
    }

    /// Takes note of what came of the request, and returns the lines to
    /// print.
    pub fn advance(&mut self, event: Event) -> (lines: Vec<String>)
        requires
            fits(old(self)@, event@),
        ensures
            final(self)@ == next(old(self)@, event@),
            views(lines@) == follow(old(self)@, event@).1,
    {
        proof {
            use_type_invariant(&*self);
        }
        let mode = self.mode;
        let max_depth = self.max_depth;
        let options = self.options;
        let mut phase = Phase::Finished;
        core::mem::swap(&mut self.phase, &mut phase);
        let root = &self.root;
        let (phase, lines) = match phase {
            Phase::Scanning => match event {
                Event::Walked(walk) => match scan_node_modules(root.as_str(), max_depth, &walk) {
                    Err(error) => (Phase::Aborted(error), no_lines()),
                    Ok(items) => {
                        if mode == Mode::List {
                            (Phase::Finished, format_list_report(root.as_str(), &items))
                        } else if items.len() == 0 {
                            let line = format_no_matches(root.as_str());
                            (Phase::Finished, one_line(line.as_str()))
                        } else if options.all {
                            proceed_with(options, items)
                        } else {
                            (Phase::Choosing { items }, no_lines())
                        }
                    },
                },
                _ => (Phase::Scanning, no_lines()),
            },
            Phase::Choosing { items } => match event {
                Event::Chosen(chosen) => {
                    if chosen.len() == 0 {
                        (Phase::Finished, one_line("Nothing selected"))
                    } else {
                        let selected = select_paths(&items, &chosen);
                        assert(views(selected@).len() == chosen@.len());
                        proceed_with(options, selected)
                    }
                },
                _ => (Phase::Choosing { items }, no_lines()),
            },
            Phase::Confirming { selected } => match event {
                Event::Confirmed(yes) => {
                    if yes {
                        (Phase::Deleting(Deletion::new(selected)), no_lines())
                    } else {
                        (Phase::Finished, one_line("Cancelled."))
                    }
                },
                _ => (Phase::Confirming { selected }, no_lines()),
            },
            Phase::Deleting(deletion) => match event {
                Event::Deletion(e) => {
                    let mut deletion = deletion;
                    proof {
                        lemma_step_advances_in_order(deletion@, e@);
                    }
                    deletion.advance(e);
                    match deletion.action() {
                        DeleteAction::Succeed => (Phase::Finished, one_line("Done.")),
                        DeleteAction::Fail(error) => (Phase::Aborted(error), no_lines()),
                        _ => (Phase::Deleting(deletion), no_lines()),
                    }
                },
                _ => (Phase::Deleting(deletion), no_lines()),
            },
            Phase::Finished => (Phase::Finished, no_lines()),
            Phase::Aborted(error) => (Phase::Aborted(error), no_lines()),
        };
        self.phase = phase;
        lines
    }
}

} // verus!
