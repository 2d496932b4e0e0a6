//! A storage in the abstract, and what a run makes of it: a map from paths to
//! texts that answers every question truthfully and takes every write. On
//! this model the laws of a whole run are stated and proved.

use crate::error::ErrorView;
use crate::machine::{
    enter_part, first, lemma_step_leaves_less, less_left, next, outcome, remaining, ActionView,
    DocumentView, EventView, GenResultView, ProgressView, StageView,
};
use vstd::prelude::*;

verus! {

/// The files of a storage, and the number of writes it has taken.
pub struct World {
    pub files: Map<Seq<char>, Seq<char>>,
    pub writes: nat,
}

/// Which paths a glob matches: `matcher(glob, path)`.
pub type Matcher = spec_fn(Seq<char>, Seq<char>) -> bool;

/// Whether a glob matches a path that exists.
pub open spec fn glob_hits(w: World, matcher: Matcher, glob: Seq<char>) -> bool {
    exists|path: Seq<char>| w.files.contains_key(path) && #[trigger] matcher(glob, path)
}

/// What the storage answers to an action. A file that is not there cannot be
/// read; everything else succeeds.
pub open spec fn answer(w: World, matcher: Matcher, a: ActionView) -> EventView {
    match a {
        ActionView::Exists(path) => EventView::Exists(w.files.contains_key(path)),
        ActionView::Glob(glob) => EventView::Globbed(
            if glob_hits(w, matcher, glob) {
                1
            } else {
                0
            },
        ),
        ActionView::Read(path) => if w.files.contains_key(path) {
            EventView::Content(w.files[path])
        } else {
            EventView::Failed(ErrorView::Storage(path))
        },
        _ => EventView::Done,
    }
}

/// The storage after an action: a write puts the text under the path and
/// counts; nothing else changes it.
pub open spec fn effect(w: World, a: ActionView) -> World {
    match a {
        ActionView::Write { path, content, notice } => World {
            files: w.files.insert(path, content),
            writes: w.writes + 1,
        },
        _ => w,
    }
}

/// A run from a state and the action it has asked for, to its end: the
/// storage it leaves, and its result.
pub open spec fn run(
    doc: DocumentView,
    matcher: Matcher,
    st: ProgressView,
    a: ActionView,
    w: World,
) -> (World, Result<GenResultView, ErrorView>)
    decreases remaining(doc, st).0, remaining(doc, st).1, remaining(doc, st).2,
    via run_leaves_less
{
    match a {
        ActionView::Finish(r) => (w, r),
        _ => if st.stage is Finished || st.part >= doc.len() {
            (w, Err(ErrorView::OutOfTurn))
        } else {
            let following = next(doc, st, answer(w, matcher, a));
            run(doc, matcher, following.0, following.1, effect(w, a))
        },
    }
}

/// A run ends: each step leaves less of it.
#[via_fn]
proof fn run_leaves_less(
    doc: DocumentView,
    matcher: Matcher,
    st: ProgressView,
    a: ActionView,
    w: World,
) {
    if !(a is Finish) && !(st.stage is Finished) && st.part < doc.len() {
        lemma_step_leaves_less(doc, st, answer(w, matcher, a));
    }
}

/// A run of a whole document on a storage.
pub open spec fn run_document(doc: DocumentView, matcher: Matcher, w: World) -> (
    World,
    Result<GenResultView, ErrorView>,
) {
    run(doc, matcher, first(doc).0, first(doc).1, w)
}

/// Whether a part with `skip_exists` would be left out on this storage: its
/// target exists, or its glob matches a path that exists.
pub open spec fn part_settled(doc: DocumentView, matcher: Matcher, i: int, w: World) -> bool {
    let front = doc[i].0;
    w.files.contains_key(front.to) || (front.skip_glob matches Some(glob) && glob_hits(
        w,
        matcher,
        glob,
    ))
}

/// Whether each of the first `upto` parts is settled.
pub open spec fn settled(doc: DocumentView, matcher: Matcher, upto: int, w: World) -> bool {
    forall|i: int| 0 <= i < upto ==> part_settled(doc, matcher, i, w)
}

/// Whether every directive of the document sets `skip_exists`.
pub open spec fn all_skip_exists(doc: DocumentView) -> bool {
    forall|i: int| 0 <= i < doc.len() ==> (#[trigger] doc[i]).0.skip_exists
}

/// What holds of a run on its way: the parts behind it are settled, and so
/// is the part it is in once the body is written or the part is being left
/// out; and what it has asked for is what its stage waits for.
pub open spec fn on_course(
    doc: DocumentView,
    matcher: Matcher,
    st: ProgressView,
    a: ActionView,
    w: World,
) -> bool {
    if a is Finish {
        a matches ActionView::Finish(Ok(_)) ==> settled(doc, matcher, doc.len() as int, w)
    } else {
        &&& st.part < doc.len()
        &&& !(st.stage is Finished)
        &&& settled(doc, matcher, st.part as int, w)
        &&& match st.stage {
            StageView::SkipCheck => a == ActionView::Exists(doc[st.part as int].0.to),
            StageView::GlobCheck => doc[st.part as int].0.skip_glob matches Some(glob) && a
                == ActionView::Glob(glob),
            StageView::Skipping => part_settled(doc, matcher, st.part as int, w),
            StageView::PriorCheck => true,
            StageView::Body => a matches ActionView::Write { path, .. } && path
                == doc[st.part as int].0.to,
            _ => part_settled(doc, matcher, st.part as int, w),
        }
    }
}

/// An action takes no file away, so what was settled stays settled.
pub proof fn lemma_effect_keeps_settled(
    doc: DocumentView,
    matcher: Matcher,
    upto: int,
    w: World,
    a: ActionView,
)
    requires
        settled(doc, matcher, upto, w),
    ensures
        settled(doc, matcher, upto, effect(w, a)),
        forall|i: int| part_settled(doc, matcher, i, w) ==> part_settled(doc, matcher, i, effect(w, a)),
{
    let after = effect(w, a);
    assert forall|i: int| part_settled(doc, matcher, i, w) implies part_settled(
        doc,
        matcher,
        i,
        after,
    ) by {
        let front = doc[i].0;
        if !w.files.contains_key(front.to) {
            let glob = front.skip_glob->0;
            let path = choose|path: Seq<char>|
                w.files.contains_key(path) && #[trigger] matcher(glob, path);
            assert(after.files.contains_key(path) && matcher(glob, path));
        }
    }
}

/// A step keeps a run on course.
pub proof fn lemma_step_stays_on_course(
    doc: DocumentView,
    matcher: Matcher,
    st: ProgressView,
    a: ActionView,
    w: World,
)
    requires
        on_course(doc, matcher, st, a, w),
        !(a is Finish),
    ensures
        ({
            let following = next(doc, st, answer(w, matcher, a));
            on_course(doc, matcher, following.0, following.1, effect(w, a))
        }),
{
    let following = next(doc, st, answer(w, matcher, a));
    let after = effect(w, a);
    let part = st.part as int;
    lemma_effect_keeps_settled(doc, matcher, part, w, a);
    if following.0.part == st.part + 1 || (following.1 matches ActionView::Finish(Ok(_))) {
        assert(part_settled(doc, matcher, part, after));
        assert forall|i: int| 0 <= i < part + 1 implies part_settled(doc, matcher, i, after) by {}
    }
}

/// Where a run ends well, every part is settled on the storage it leaves.
pub proof fn lemma_run_settles(
    doc: DocumentView,
    matcher: Matcher,
    st: ProgressView,
    a: ActionView,
    w: World,
)
    requires
        on_course(doc, matcher, st, a, w),
        run(doc, matcher, st, a, w).1 is Ok,
    ensures
        settled(doc, matcher, doc.len() as int, run(doc, matcher, st, a, w).0),
    decreases remaining(doc, st).0, remaining(doc, st).1, remaining(doc, st).2,
{
    if !(a is Finish) {
        let following = next(doc, st, answer(w, matcher, a));
        lemma_step_stays_on_course(doc, matcher, st, a, w);
        lemma_step_leaves_less(doc, st, answer(w, matcher, a));
        lemma_run_settles(doc, matcher, following.0, following.1, effect(w, a));
    }
}

/// On a storage where every part is settled, a run from the start of a part
/// leaves out that part and every part after it: the storage stays as it
/// is, and no message is added.
pub proof fn lemma_settled_parts_are_left_out(
    doc: DocumentView,
    matcher: Matcher,
    part: nat,
    messages: Seq<Seq<char>>,
    w: World,
)
    requires
        all_skip_exists(doc),
        settled(doc, matcher, doc.len() as int, w),
        part <= doc.len(),
    ensures
        run(doc, matcher, enter_part(doc, part, messages).0, enter_part(doc, part, messages).1, w)
            == (w, Ok::<GenResultView, ErrorView>(outcome(messages))),
    decreases doc.len() - part,
{
    if part < doc.len() {
        let front = doc[part as int].0;
        assert(doc[part as int].0.skip_exists);
        assert(part_settled(doc, matcher, part as int, w));
        let entered = enter_part(doc, part, messages);
        let skipping = ProgressView { part, stage: StageView::Skipping, messages };
        let skip = ActionView::Skip(front.to);
        lemma_settled_parts_are_left_out(doc, matcher, part + 1, messages, w);
        assert(run(doc, matcher, skipping, skip, w) == run(
            doc,
            matcher,
            enter_part(doc, part + 1, messages).0,
            enter_part(doc, part + 1, messages).1,
            w,
        ));
        if w.files.contains_key(front.to) {
            assert(next(doc, entered.0, answer(w, matcher, entered.1)) == (skipping, skip));
        } else {
            let glob = front.skip_glob->0;
            let asking = ProgressView { part, stage: StageView::GlobCheck, messages };
            assert(next(doc, entered.0, answer(w, matcher, entered.1)) == (
                asking,
                ActionView::Glob(glob),
            ));
            assert(next(doc, asking, answer(w, matcher, ActionView::Glob(glob))) == (
                skipping,
                skip,
            ));
            assert(run(doc, matcher, asking, ActionView::Glob(glob), w) == run(
                doc,
                matcher,
                skipping,
                skip,
                w,
            ));
        }
    }
}

/// Idempotence. Where every directive sets `skip_exists` and a run of the
/// document ends well, a second run on the storage that the first one left
/// ends well too, writes nothing, leaves the storage as it is, and has no
/// message.
pub proof fn lemma_second_run_is_idle(doc: DocumentView, matcher: Matcher, w: World)
    requires
        all_skip_exists(doc),
        run_document(doc, matcher, w).1 is Ok,
    ensures
        ({
            let left = run_document(doc, matcher, w).0;
            run_document(doc, matcher, left) == (
                left,
                Ok::<GenResultView, ErrorView>(outcome(Seq::empty())),
            )
        }),
{
    let left = run_document(doc, matcher, w).0;
    assert(on_course(doc, matcher, first(doc).0, first(doc).1, w));
    lemma_run_settles(doc, matcher, first(doc).0, first(doc).1, w);
    lemma_settled_parts_are_left_out(doc, matcher, 0, Seq::empty(), left);
}

} // verus!
