//! Running a document against a storage and a printer. The decisions are the
//! machine's; this module asks the storage and the printer to do what it says.

use crate::error::{Error, ErrorView};
use crate::machine::{
    document_view, first, next, outcome, remaining, Action, ActionView, Document, DocumentView,
    Event, EventView, GenResult, GenResultView, Notice, Progress, ProgressView, StageView,
};
use vstd::prelude::*;
use vstd::string::*;

verus! {

/// The storage that a run reads from and writes to. Nothing is asked of an
/// implementation but to answer.
pub trait FsDriver {
    /// Writes a file, with the directories above it where they are missing.
    fn write_file(&self, path: &str, content: &str) -> Result<(), Error>;

    /// Reads a file.
    fn read_file(&self, path: &str) -> Result<String, Error>;

    /// Whether the path exists.
    fn path_exists(&self, path: &str) -> bool;

    /// The number of existing paths that a glob matches.
    fn count_glob(&self, pattern: &str) -> Result<usize, Error>;
}

/// Where a run reports what it did. The reports change nothing in the run.
pub trait Printer {
    /// A body is about to replace a file.
    fn overwrite_file(&self, file_to: &str);

    /// A part was left out.
    fn skip_exists(&self, file_to: &str);

    /// A body is about to make a new file.
    fn add_file(&self, file_to: &str);

    /// An injection was written to a file.
    fn injected(&self, file_to: &str);

    /// An injection that names no place left a file as it was.
    fn unchanged(&self, file_to: &str);
}

/// Trusted: `Path::join`. Nothing is stated of the result: how two paths
/// join is a matter of the platform.
#[verifier::external_body]
fn join_path(base: &str, target: &str) -> (joined: String) {
    std::path::Path::new(base).join(target).to_string_lossy().into_owned()
}

/// The path as the storage is to see it: under the working directory, where
/// there is one.
fn resolve(working_dir: Option<&str>, target: &str) -> (path: String)
    ensures
        working_dir is None ==> path@ == target@,
{
    match working_dir {
        Some(base) => join_path(base, target),
        None => String::from_str(target),
    }
}

/// The state and the action that a run has come to after the given answers.
pub open spec fn drive(doc: DocumentView, events: Seq<EventView>) -> (ProgressView, ActionView)
    decreases events.len(),
{
    if events.len() == 0 {
        first(doc)
    } else {
        next(doc, drive(doc, events.drop_last()).0, events.last())
    }
}

/// Whether an event answers an action: a question about a path is answered
/// with yes or no; a glob, a read and a write succeed or fail; a report is
/// made.
pub open spec fn fits(a: ActionView, ev: EventView) -> bool {
    match a {
        ActionView::Exists(_) => ev is Exists,
        ActionView::Glob(_) => ev is Globbed || ev is Failed,
        ActionView::Read(_) => ev is Content || ev is Failed,
        ActionView::Write { .. } => ev is Done || ev is Failed,
        ActionView::Skip(_) => ev is Done,
        ActionView::Finish(_) => false,
    }
}

/// Whether each of the answers answers what the run had asked for when it
/// came.
pub open spec fn in_turn(doc: DocumentView, events: Seq<EventView>) -> bool {
    forall|i: int|
        0 <= i < events.len() ==> fits(drive(doc, events.take(i)).1, #[trigger] events[i])
}

/// Whether what a run has asked for is what its stage waits for.
pub open spec fn asks_in_order(doc: DocumentView, st: ProgressView, a: ActionView) -> bool {
    if st.stage is Finished {
        a is Finish
    } else {
        &&& st.part < doc.len()
        &&& match st.stage {
            StageView::SkipCheck => a is Exists,
            StageView::GlobCheck => a is Glob,
            StageView::Skipping => a is Skip,
            StageView::PriorCheck => a is Exists,
            StageView::Body => a is Write,
            StageView::Target(index) => a is Exists && index < doc[st.part as int].0.injections.len(),
            StageView::Reading(index) => a is Read && index < doc[st.part as int].0.injections.len(),
            StageView::Patching(index) => a is Write && index
                < doc[st.part as int].0.injections.len(),
            StageView::Finished => a is Finish,
        }
    }
}

/// Whether a run has ended with `OutOfTurn`.
pub open spec fn ended_out_of_turn(a: ActionView) -> bool {
    a == ActionView::Finish(Err::<GenResultView, ErrorView>(ErrorView::OutOfTurn))
}

/// A run begins in order.
proof fn lemma_first_asks_in_order(doc: DocumentView)
    ensures
        asks_in_order(doc, first(doc).0, first(doc).1),
        !ended_out_of_turn(first(doc).1),
{
}

/// An answer that fits keeps a run in order.
proof fn lemma_step_keeps_order(doc: DocumentView, st: ProgressView, a: ActionView, ev: EventView)
    requires
        asks_in_order(doc, st, a),
        fits(a, ev),
        ev != EventView::Failed(ErrorView::OutOfTurn),
    ensures
        asks_in_order(doc, next(doc, st, ev).0, next(doc, st, ev).1),
        !ended_out_of_turn(next(doc, st, ev).1),
{
}

/// Answers in turn keep a run in order. Where every answer answers what
/// was asked, and none of them is itself the failure `OutOfTurn`, the run
/// asks in order after each of them, and does not end with `OutOfTurn`.
pub proof fn lemma_in_turn_stays_in_order(doc: DocumentView, events: Seq<EventView>)
    requires
        in_turn(doc, events),
        forall|i: int|
            0 <= i < events.len() ==> #[trigger] events[i] != EventView::Failed(
                ErrorView::OutOfTurn,
            ),
    ensures
        asks_in_order(doc, drive(doc, events).0, drive(doc, events).1),
        !ended_out_of_turn(drive(doc, events).1),
    decreases events.len(),
{
    if events.len() > 0 {
        let before = events.drop_last();
        assert forall|i: int| 0 <= i < before.len() implies fits(
            drive(doc, before.take(i)).1,
            #[trigger] before[i],
        ) by {
            assert(before.take(i) =~= events.take(i));
            assert(before[i] == events[i]);
        }
        assert forall|i: int| 0 <= i < before.len() implies #[trigger] before[i]
            != EventView::Failed(ErrorView::OutOfTurn) by {
            assert(before[i] == events[i]);
        }
        lemma_in_turn_stays_in_order(doc, before);
        assert(events.take(events.len() - 1) =~= before);
        assert(fits(drive(doc, before).1, events.last()));
        lemma_step_keeps_order(doc, drive(doc, before).0, drive(doc, before).1, events.last());
    } else {
        lemma_first_asks_in_order(doc);
    }
}

/// The result of a run, with each text given by its characters.
pub open spec fn result_view(r: Result<GenResult, Error>) -> Result<GenResultView, ErrorView> {
    match r {
        Ok(g) => Ok(g@),
        Err(e) => Err(e@),
    }
}

/// Whether a run on the given answers ends, after the last of them, with the
/// given result.
pub open spec fn ends_with(
    doc: DocumentView,
    events: Seq<EventView>,
    result: Result<GenResultView, ErrorView>,
) -> bool {
    drive(doc, events).1 == ActionView::Finish(result)
}

/// Does what an action asks for, and returns the answer. A path goes to the
/// storage and the printer under the working directory; a glob goes as it
/// stands.
fn perform<F: FsDriver, P: Printer>(
    fs: &F,
    printer: &P,
    working_dir: Option<&str>,
    action: &Action,
) -> (event: Event)
    requires
        !(action@ is Finish),
    ensures
        fits(action@, event@),
{
    match action {
        Action::Exists(path) => {
            let full = resolve(working_dir, path.as_str());
            Event::Exists(fs.path_exists(full.as_str()))
        },
        Action::Glob(pattern) => match fs.count_glob(pattern.as_str()) {
            Ok(hits) => Event::Globbed(hits),
            Err(e) => Event::Failed(e),
        },
        Action::Read(path) => {
            let full = resolve(working_dir, path.as_str());
            match fs.read_file(full.as_str()) {
                Ok(text) => Event::Content(text),
                Err(e) => Event::Failed(e),
            }
        },
        Action::Write { path, content, notice } => {
            let full = resolve(working_dir, path.as_str());
            match notice {
                Notice::Added => printer.add_file(full.as_str()),
                Notice::Overwritten => printer.overwrite_file(full.as_str()),
                Notice::Unchanged => printer.unchanged(full.as_str()),
                Notice::Injected => {},
            }
            match fs.write_file(full.as_str(), content.as_str()) {
                Ok(()) => {
                    match notice {
                        Notice::Injected | Notice::Unchanged => printer.injected(full.as_str()),
                        _ => {},
                    }
                    Event::Done
                },
                Err(e) => Event::Failed(e),
            }
        },
        Action::Skip(path) => {
            let full = resolve(working_dir, path.as_str());
            printer.skip_exists(full.as_str());
            Event::Done
        },
        Action::Finish(_) => Event::Done,
    }
}

/// Runs a document: goes through its parts in order, asks the storage and
/// the printer for what the machine says, and returns how the run ended.
/// The run always ends. Its result is the one that the machine comes to on
/// the answers that the storage gave, each of them to what the machine had
/// asked; what the storage answers is up to it. A document without parts
/// touches nothing.
pub fn generate<F: FsDriver, P: Printer>(
    fs: &F,
    printer: &P,
    working_dir: Option<&str>,
    doc: &Document,
) -> (r: Result<GenResult, Error>)
    ensures
        exists|events: Seq<EventView>|
            in_turn(document_view(doc@), events) && ends_with(
                document_view(doc@),
                events,
                result_view(r),
            ),
        doc@.len() == 0 ==> (r matches Ok(g) && g@ == outcome(Seq::empty())),
{
    let ghost dv = document_view(doc@);
    let ghost mut events: Seq<EventView> = Seq::empty();
    let (mut progress, mut action) = Progress::start(doc);
    loop
        invariant
            dv == document_view(doc@),
            (progress@, action@) == drive(dv, events),
            in_turn(dv, events),
            doc@.len() == 0 ==> events.len() == 0,
        decreases
            (if action@ is Finish { 0nat } else { 1nat }),
            remaining(dv, progress@).0,
            remaining(dv, progress@).1,
            remaining(dv, progress@).2,
    {
        if let Action::Finish(r) = action {
            proof {
                assert(in_turn(dv, events) && ends_with(dv, events, result_view(r)));
            }
            return r;
        }
        let event = perform(fs, printer, working_dir, &action);
        let ghost before = events;
        proof {
            events = events.push(event@);
            assert(events.drop_last() =~= before);
            assert forall|i: int| 0 <= i < events.len() implies fits(
                drive(dv, events.take(i)).1,
                #[trigger] events[i],
            ) by {
                if i < before.len() {
                    assert(events.take(i) =~= before.take(i));
                    assert(events[i] == before[i]);
                } else {
                    assert(events.take(i) =~= before);
                }
            }
        }
        let (following, then) = progress.step(doc, event);
        progress = following;
        action = then;
    }
}

} // verus!
