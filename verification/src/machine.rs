//! The course of one generation run, as a machine: it asks for one piece of
//! outside work at a time (a question to the storage, a write, a notice) and
//! decides from the answer what comes next. The machine itself touches
//! nothing; whoever drives it does the work.
//!
//! The parts of the document are taken in order. A part is left out where its
//! directive says so and the storage agrees; else its body is written and its
//! injections are made, in order. The first failure ends the run.

use crate::directive::{FrontMatter, FrontMatterView};
use crate::error::{Error, ErrorView};
use crate::injection::{patched, Injection};
use crate::text::{join_lines, joined, views};
use vstd::prelude::*;
use vstd::string::*;

verus! {

/// How a run ended.
#[derive(Debug)]
pub enum GenResult {
    /// Nothing was done.
    Skipped,
    /// The parts were gone through; `message` holds the messages of those
    /// that were written, one per line.
    Generated { message: Option<String> },
}

/// The end of a run, with the message given by its characters.
pub enum GenResultView {
    Skipped,
    Generated { message: Option<Seq<char>> },
}

impl View for GenResult {
    type V = GenResultView;

    open spec fn view(&self) -> GenResultView {
        match *self {
            GenResult::Skipped => GenResultView::Skipped,
            GenResult::Generated { message } => GenResultView::Generated {
                message: match message {
                    Some(m) => Some(m@),
                    None => None,
                },
            },
        }
    }
}

/// What a write is reported as.
#[derive(Debug, Clone, Copy)]
pub enum Notice {
    /// A body went to a file that did not exist.
    Added,
    /// A body went to a file that existed.
    Overwritten,
    /// An injection changed a file.
    Injected,
    /// An injection that names no place wrote a file back as it was.
    Unchanged,
}

/// The outside work that a run asks for.
#[derive(Debug)]
pub enum Action {
    /// Say whether the path exists.
    Exists(String),
    /// Say how many existing paths the glob matches.
    Glob(String),
    /// Hand over the text of the file.
    Read(String),
    /// Write the text to the file, and report it as `notice` says.
    Write { path: String, content: String, notice: Notice },
    /// Report that the part for this path was left out.
    Skip(String),
    /// Nothing more: the run has ended.
    Finish(Result<GenResult, Error>),
}

/// An action, with each text given by its characters.
pub enum ActionView {
    Exists(Seq<char>),
    Glob(Seq<char>),
    Read(Seq<char>),
    Write { path: Seq<char>, content: Seq<char>, notice: Notice },
    Skip(Seq<char>),
    Finish(Result<GenResultView, ErrorView>),
}

impl View for Action {
    type V = ActionView;

    open spec fn view(&self) -> ActionView {
        match *self {
            Action::Exists(p) => ActionView::Exists(p@),
            Action::Glob(g) => ActionView::Glob(g@),
            Action::Read(p) => ActionView::Read(p@),
            Action::Write { path, content, notice } => ActionView::Write {
                path: path@,
                content: content@,
                notice,
            },
            Action::Skip(p) => ActionView::Skip(p@),
            Action::Finish(r) => ActionView::Finish(
                match r {
                    Ok(g) => Ok(g@),
                    Err(e) => Err(e@),
                },
            ),
        }
    }
}

/// The answer to an action.
#[derive(Debug)]
pub enum Event {
    /// Whether the path exists.
    Exists(bool),
    /// How many existing paths the glob matches.
    Globbed(usize),
    /// The text of the file.
    Content(String),
    /// The write or the report was made.
    Done,
    /// The work failed.
    Failed(Error),
}

/// An event, with each text given by its characters.
pub enum EventView {
    Exists(bool),
    Globbed(usize),
    Content(Seq<char>),
    Done,
    Failed(ErrorView),
}

impl View for Event {
    type V = EventView;

    open spec fn view(&self) -> EventView {
        match *self {
            Event::Exists(b) => EventView::Exists(b),
            Event::Globbed(n) => EventView::Globbed(n),
            Event::Content(t) => EventView::Content(t@),
            Event::Done => EventView::Done,
            Event::Failed(e) => EventView::Failed(e@),
        }
    }
}

/// What a run waits for.
#[derive(Debug, Clone, Copy)]
pub enum Stage {
    /// Whether the target exists, to leave the part out if it does.
    SkipCheck,
    /// How many paths the glob matches, to leave the part out if any.
    GlobCheck,
    /// The report that the part was left out.
    Skipping,
    /// Whether the target exists, to report the write rightly.
    PriorCheck,
    /// The writing of the body.
    Body,
    /// Whether the target of the injection with this index exists.
    Target(usize),
    /// The text of the target of the injection with this index.
    Reading(usize),
    /// The writing of the target of the injection with this index.
    Patching(usize),
    /// Nothing: the run has ended.
    Finished,
}

/// What a run waits for, with each index as a natural number.
pub enum StageView {
    SkipCheck,
    GlobCheck,
    Skipping,
    PriorCheck,
    Body,
    Target(nat),
    Reading(nat),
    Patching(nat),
    Finished,
}

impl View for Stage {
    type V = StageView;

    open spec fn view(&self) -> StageView {
        match *self {
            Stage::SkipCheck => StageView::SkipCheck,
            Stage::GlobCheck => StageView::GlobCheck,
            Stage::Skipping => StageView::Skipping,
            Stage::PriorCheck => StageView::PriorCheck,
            Stage::Body => StageView::Body,
            Stage::Target(index) => StageView::Target(index as nat),
            Stage::Reading(index) => StageView::Reading(index as nat),
            Stage::Patching(index) => StageView::Patching(index as nat),
            Stage::Finished => StageView::Finished,
        }
    }
}

/// A document: its parts, each a directive and a body.
pub type Document = Vec<(FrontMatter, String)>;

/// A document, with each text given by its characters.
pub type DocumentView = Seq<(FrontMatterView, Seq<char>)>;

/// The view of a document.
pub open spec fn document_view(doc: Seq<(FrontMatter, String)>) -> DocumentView {
    doc.map_values(|p: (FrontMatter, String)| (p.0@, p.1@))
}

/// How far a run has come.
#[derive(Debug)]
pub struct Progress {
    part: usize,
    stage: Stage,
    messages: Vec<String>,
}

/// The state of a run: the part it is in, what it waits for, and the
/// messages of the parts written so far.
pub struct ProgressView {
    pub part: nat,
    pub stage: StageView,
    pub messages: Seq<Seq<char>>,
}

impl View for Progress {
    type V = ProgressView;

    closed spec fn view(&self) -> ProgressView {
        ProgressView { part: self.part as nat, stage: self.stage@, messages: views(self.messages@) }
    }
}

/// The messages with that of a part added, where it has one that is not empty.
pub open spec fn with_message(messages: Seq<Seq<char>>, message: Option<Seq<char>>) -> Seq<
    Seq<char>,
> {
    match message {
        Some(m) => if m.len() > 0 {
            messages.push(m)
        } else {
            messages
        },
        None => messages,
    }
}

/// The end of a run that went through: the messages, one per line, or no
/// message where there is none.
pub open spec fn outcome(messages: Seq<Seq<char>>) -> GenResultView {
    GenResultView::Generated {
        message: if messages.len() == 0 {
            None
        } else {
            Some(joined(messages))
        },
    }
}

/// A run that has ended.
pub open spec fn ended(part: nat, messages: Seq<Seq<char>>) -> ProgressView {
    ProgressView { part, stage: StageView::Finished, messages }
}

/// What follows once the existence of the target does not leave the part
/// out: the glob is asked for, if there is one, and else whether the target
/// exists.
pub open spec fn past_skip_check(doc: DocumentView, part: nat, messages: Seq<Seq<char>>) -> (
    ProgressView,
    ActionView,
)
    recommends
        part < doc.len(),
{
    let front = doc[part as int].0;
    match front.skip_glob {
        Some(glob) => (
            ProgressView { part, stage: StageView::GlobCheck, messages },
            ActionView::Glob(glob),
        ),
        None => (
            ProgressView { part, stage: StageView::PriorCheck, messages },
            ActionView::Exists(front.to),
        ),
    }
}

/// What a run does on coming to part `part`: past the last part it ends.
pub open spec fn enter_part(doc: DocumentView, part: nat, messages: Seq<Seq<char>>) -> (
    ProgressView,
    ActionView,
) {
    if part >= doc.len() {
        (ended(part, messages), ActionView::Finish(Ok(outcome(messages))))
    } else {
        let front = doc[part as int].0;
        if front.skip_exists {
            (
                ProgressView { part, stage: StageView::SkipCheck, messages },
                ActionView::Exists(front.to),
            )
        } else {
            past_skip_check(doc, part, messages)
        }
    }
}

/// What a run does on coming to injection `index` of part `part`: past the
/// last injection the part is done, its message counts, and the next part
/// comes.
pub open spec fn enter_injection(
    doc: DocumentView,
    part: nat,
    index: nat,
    messages: Seq<Seq<char>>,
) -> (ProgressView, ActionView)
    recommends
        part < doc.len(),
{
    let front = doc[part as int].0;
    if index >= front.injections.len() {
        enter_part(doc, part + 1, with_message(messages, front.message))
    } else {
        (
            ProgressView { part, stage: StageView::Target(index), messages },
            ActionView::Exists(front.injections[index as int].into),
        )
    }
}

/// A run that ends with an error.
pub open spec fn failed(st: ProgressView, e: ErrorView) -> (ProgressView, ActionView) {
    (ended(st.part, st.messages), ActionView::Finish(Err(e)))
}

/// The first state and action of a run.
pub open spec fn first(doc: DocumentView) -> (ProgressView, ActionView) {
    enter_part(doc, 0, Seq::empty())
}

/// The state and the action that follow on an event.
pub open spec fn next(doc: DocumentView, st: ProgressView, ev: EventView) -> (
    ProgressView,
    ActionView,
) {
    if st.stage is Finished || st.part >= doc.len() {
        failed(st, ErrorView::OutOfTurn)
    } else if ev is Failed {
        failed(st, ev->Failed_0)
    } else {
        let front = doc[st.part as int].0;
        let body = doc[st.part as int].1;
        match (st.stage, ev) {
            (StageView::SkipCheck, EventView::Exists(found)) => if found {
                (
                    ProgressView { part: st.part, stage: StageView::Skipping, messages: st.messages },
                    ActionView::Skip(front.to),
                )
            } else {
                past_skip_check(doc, st.part, st.messages)
            },
            (StageView::GlobCheck, EventView::Globbed(hits)) => if hits > 0 {
                (
                    ProgressView { part: st.part, stage: StageView::Skipping, messages: st.messages },
                    ActionView::Skip(front.to),
                )
            } else {
                (
                    ProgressView { part: st.part, stage: StageView::PriorCheck, messages: st.messages },
                    ActionView::Exists(front.to),
                )
            },
            (StageView::Skipping, EventView::Done) => enter_part(doc, st.part + 1, st.messages),
            (StageView::PriorCheck, EventView::Exists(found)) => (
                ProgressView { part: st.part, stage: StageView::Body, messages: st.messages },
                ActionView::Write {
                    path: front.to,
                    content: body,
                    notice: if found {
                        Notice::Overwritten
                    } else {
                        Notice::Added
                    },
                },
            ),
            (StageView::Body, EventView::Done) => enter_injection(doc, st.part, 0, st.messages),
            (StageView::Target(index), EventView::Exists(found)) => if index
                >= front.injections.len() {
                failed(st, ErrorView::OutOfTurn)
            } else if found {
                (
                    ProgressView {
                        part: st.part,
                        stage: StageView::Reading(index),
                        messages: st.messages,
                    },
                    ActionView::Read(front.injections[index as int].into),
                )
            } else {
                failed(st, ErrorView::TargetMissing(front.injections[index as int].into))
            },
            (StageView::Reading(index), EventView::Content(text)) => if index
                >= front.injections.len() {
                failed(st, ErrorView::OutOfTurn)
            } else {
                let injection = front.injections[index as int];
                match patched(injection, text) {
                    None => enter_injection(doc, st.part, index + 1, st.messages),
                    Some(new_text) => (
                        ProgressView {
                            part: st.part,
                            stage: StageView::Patching(index),
                            messages: st.messages,
                        },
                        ActionView::Write {
                            path: injection.into,
                            content: new_text,
                            notice: if injection.placement is None {
                                Notice::Unchanged
                            } else {
                                Notice::Injected
                            },
                        },
                    ),
                }
            },
            (StageView::Patching(index), EventView::Done) => if index >= front.injections.len() {
                failed(st, ErrorView::OutOfTurn)
            } else {
                enter_injection(doc, st.part, index + 1, st.messages)
            },
            _ => failed(st, ErrorView::OutOfTurn),
        }
    }
}

/// How much of a run is left: the parts not yet done; within the part, the
/// injections not yet done, and one more while the body is not written; and
/// the steps left before what the run waits for is settled.
pub open spec fn remaining(doc: DocumentView, st: ProgressView) -> (nat, nat, nat) {
    if st.stage is Finished || st.part >= doc.len() {
        (0, 0, 0)
    } else {
        let parts = (doc.len() - st.part) as nat;
        let count = doc[st.part as int].0.injections.len();
        match st.stage {
            StageView::SkipCheck => (parts, count + 1, 4),
            StageView::GlobCheck => (parts, count + 1, 3),
            StageView::PriorCheck => (parts, count + 1, 2),
            StageView::Body => (parts, count + 1, 1),
            StageView::Skipping => (parts, count + 1, 0),
            StageView::Target(index) => (parts, (count - index) as nat, 2),
            StageView::Reading(index) => (parts, (count - index) as nat, 1),
            StageView::Patching(index) => (parts, (count - index) as nat, 0),
            StageView::Finished => (0, 0, 0),
        }
    }
}

/// Whether less is left in `after` than in `before`.
pub open spec fn less_left(after: (nat, nat, nat), before: (nat, nat, nat)) -> bool {
    after.0 < before.0 || (after.0 == before.0 && (after.1 < before.1 || (after.1 == before.1
        && after.2 < before.2)))
}

/// Every step leaves less: whatever the answer, a run that has not ended has
/// less left after the step than before it.
pub proof fn lemma_step_leaves_less(doc: DocumentView, st: ProgressView, ev: EventView)
    requires
        !(st.stage is Finished),
        st.part < doc.len(),
    ensures
        less_left(remaining(doc, next(doc, st, ev).0), remaining(doc, st)),
{
}

/// The messages with that of a part added, where it has one that is not empty.
fn add_message(messages: &mut Vec<String>, message: &Option<String>)
    ensures
        views(final(messages)@) == with_message(
            views(old(messages)@),
            match *message {
                Some(m) => Some(m@),
                None => None,
            },
        ),
{
    let ghost before = messages@;
    match message {
        Some(m) => {
            if m.as_str().unicode_len() > 0 {
                messages.push(m.clone());
                proof {
                    assert(views(messages@) =~= views(before).push(m@));
                }
            }
        },
        None => {},
    }
}

impl Progress {
    /// The end of the run: the messages, one per line.
    fn finish(part: usize, messages: Vec<String>) -> (r: (Progress, Action))
        ensures
            r.0@ == ended(part as nat, views(messages@)),
            r.1@ == ActionView::Finish(Ok(outcome(views(messages@)))),
    {
        let message = if messages.len() == 0 {
            None
        } else {
            Some(join_lines(&messages))
        };
        (
            Progress { part, stage: Stage::Finished, messages },
            Action::Finish(Ok(GenResult::Generated { message })),
        )
    }

    /// The end of the run with an error.
    fn fail(self, e: Error) -> (r: (Progress, Action))
        ensures
            (r.0@, r.1@) == failed(self@, e@),
    {
        (
            Progress { part: self.part, stage: Stage::Finished, messages: self.messages },
            Action::Finish(Err(e)),
        )
    }

    /// Asks for the glob of the part, if it has one, and else whether its
    /// target exists.
    fn go_past_skip_check(doc: &Document, part: usize, messages: Vec<String>) -> (r: (
        Progress,
        Action,
    ))
        requires
            part < doc@.len(),
        ensures
            (r.0@, r.1@) == past_skip_check(document_view(doc@), part as nat, views(messages@)),
    {
        let front = &doc[part].0;
        match &front.skip_glob {
            Some(glob) => (
                Progress { part, stage: Stage::GlobCheck, messages },
                Action::Glob(glob.clone()),
            ),
            None => (
                Progress { part, stage: Stage::PriorCheck, messages },
                Action::Exists(front.to.clone()),
            ),
        }
    }

    /// Comes to a part, or to the end of the run past the last part.
    fn go_to_part(doc: &Document, part: usize, messages: Vec<String>) -> (r: (Progress, Action))
        requires
            part <= doc@.len(),
        ensures
            (r.0@, r.1@) == enter_part(document_view(doc@), part as nat, views(messages@)),
    {
        if part >= doc.len() {
            Progress::finish(part, messages)
        } else {
            let front = &doc[part].0;
            if front.skip_exists {
                (Progress { part, stage: Stage::SkipCheck, messages }, Action::Exists(front.to.clone()))
            } else {
                Progress::go_past_skip_check(doc, part, messages)
            }
        }
    }

    /// Comes to an injection of a part, or to the next part past the last
    /// injection.
    fn go_to_injection(doc: &Document, part: usize, index: usize, messages: Vec<String>) -> (r: (
        Progress,
        Action,
    ))
        requires
            part < doc@.len(),
            index <= doc@[part as int].0.injections@.len(),
        ensures
            (r.0@, r.1@) == enter_injection(
                document_view(doc@),
                part as nat,
                index as nat,
                views(messages@),
            ),
    {
        let front = &doc[part].0;
        assert(doc@.len() == doc.len());
        if index >= front.injections.len() {
            let mut messages = messages;
            add_message(&mut messages, &front.message);
            Progress::go_to_part(doc, part + 1, messages)
        } else {
            (
                Progress { part, stage: Stage::Target(index), messages },
                Action::Exists(front.injections[index].into.clone()),
            )
        }
    }

    /// Begins a run on a document: the state, and the first thing to do.
    pub fn start(doc: &Document) -> (r: (Progress, Action))
        ensures
            (r.0@, r.1@) == first(document_view(doc@)),
    {
        let messages: Vec<String> = Vec::new();
        proof {
            assert(views(messages@) =~= Seq::empty());
        }
        Progress::go_to_part(doc, 0, messages)
    }

    /// Takes the answer to the action that was asked for last, and says what
    /// to do next. An answer that does not fit what was asked ends the run
    /// with `OutOfTurn`, and so does any answer once the run has ended; a
    /// failure ends it with the failure's error. Unless the run ends, less
    /// of it is left than before.
    pub fn step(self, doc: &Document, event: Event) -> (r: (Progress, Action))
        ensures
            (r.0@, r.1@) == next(document_view(doc@), self@, event@),
            !(r.1@ is Finish) ==> less_left(
                remaining(document_view(doc@), r.0@),
                remaining(document_view(doc@), self@),
            ),
    {
        if matches!(self.stage, Stage::Finished) || self.part >= doc.len() {
            return self.fail(Error::OutOfTurn);
        }
        let part = self.part;
        let front = &doc[part].0;
        let count = front.injections.len();
        match (self.stage, event) {
            (_, Event::Failed(e)) => self.fail(e),
            (Stage::SkipCheck, Event::Exists(found)) => {
                if found {
                    (
                        Progress { part, stage: Stage::Skipping, messages: self.messages },
                        Action::Skip(front.to.clone()),
                    )
                } else {
                    Progress::go_past_skip_check(doc, part, self.messages)
                }
            },
            (Stage::GlobCheck, Event::Globbed(hits)) => {
                if hits > 0 {
                    (
                        Progress { part, stage: Stage::Skipping, messages: self.messages },
                        Action::Skip(front.to.clone()),
                    )
                } else {
                    (
                        Progress { part, stage: Stage::PriorCheck, messages: self.messages },
                        Action::Exists(front.to.clone()),
                    )
                }
            },
            (Stage::Skipping, Event::Done) => Progress::go_to_part(doc, part + 1, self.messages),
            (Stage::PriorCheck, Event::Exists(found)) => {
                let notice = if found {
                    Notice::Overwritten
                } else {
                    Notice::Added
                };
                (
                    Progress { part, stage: Stage::Body, messages: self.messages },
                    Action::Write { path: front.to.clone(), content: doc[part].1.clone(), notice },
                )
            },
            (Stage::Body, Event::Done) => Progress::go_to_injection(doc, part, 0, self.messages),
            (Stage::Target(index), Event::Exists(found)) => {
                if index >= count {
                    self.fail(Error::OutOfTurn)
                } else if found {
                    (
                        Progress { part, stage: Stage::Reading(index), messages: self.messages },
                        Action::Read(front.injections[index].into.clone()),
                    )
                } else {
                    self.fail(Error::TargetMissing(front.injections[index].into.clone()))
                }
            },
            (Stage::Reading(index), Event::Content(text)) => {
                if index >= count {
                    self.fail(Error::OutOfTurn)
                } else {
                    let injection = &front.injections[index];
                    match injection.apply(text.as_str()) {
                        None => Progress::go_to_injection(doc, part, index + 1, self.messages),
                        Some(new_text) => {
                            let notice = if injection.is_idle() {
                                Notice::Unchanged
                            } else {
                                Notice::Injected
                            };
                            (
                                Progress {
                                    part,
                                    stage: Stage::Patching(index),
                                    messages: self.messages,
                                },
                                Action::Write {
                                    path: injection.into.clone(),
                                    content: new_text,
                                    notice,
                                },
                            )
                        },
                    }
                }
            },
            (Stage::Patching(index), Event::Done) => {
                if index >= count {
                    self.fail(Error::OutOfTurn)
                } else {
                    Progress::go_to_injection(doc, part, index + 1, self.messages)
                }
            },
            _ => self.fail(Error::OutOfTurn),
        }
    }
}

} // verus!
