//! One patch to an existing file: how it is described, and what it makes of
//! the file's text.

use crate::error::{Error, ErrorView};
use crate::insertion::{insert_content_at_matches, with_payload, InsertionPoint};
use crate::pattern::{
    expanded, is_match, leading, match_spans, pattern_compiles, substituted, Pattern,
};
use crate::positions::MatchPositions;
use crate::text::{join_lines, joined, lines_of, split_lines, views};
use vstd::prelude::*;
use vstd::string::*;

verus! {

/// Where, and how, the payload of an injection goes into the text.
#[derive(Debug)]
pub enum Placement {
    /// Before the whole text, on a line of its own.
    Prepend,
    /// After the whole text, on a line of its own.
    Append,
    /// At the lines that `pattern` matches, chosen by `select`, on the side
    /// that `point` names.
    At { pattern: Pattern, select: MatchPositions, point: InsertionPoint },
    /// No payload goes in: every line that the pattern matches is dropped.
    RemoveLines(Pattern),
    /// The payload replaces the first match of the pattern in the text.
    Replace(Pattern),
    /// The payload replaces every match of the pattern in the text.
    ReplaceAll(Pattern),
}

/// A placement, with each pattern given by its text.
pub enum PlacementView {
    Prepend,
    Append,
    At { pattern: Seq<char>, select: MatchPositions, point: InsertionPoint },
    RemoveLines(Seq<char>),
    Replace(Seq<char>),
    ReplaceAll(Seq<char>),
}

impl View for Placement {
    type V = PlacementView;

    open spec fn view(&self) -> PlacementView {
        match *self {
            Placement::Prepend => PlacementView::Prepend,
            Placement::Append => PlacementView::Append,
            Placement::At { pattern, select, point } => PlacementView::At {
                pattern: pattern@,
                select,
                point,
            },
            Placement::RemoveLines(p) => PlacementView::RemoveLines(p@),
            Placement::Replace(p) => PlacementView::Replace(p@),
            Placement::ReplaceAll(p) => PlacementView::ReplaceAll(p@),
        }
    }
}

/// One patch to an existing file.
#[derive(Debug)]
pub struct Injection {
    /// The file to patch.
    pub into: String,
    /// The payload.
    pub content: String,
    /// Whether the payload goes inside the matched line, and not on a line
    /// of its own.
    pub inline: bool,
    /// Where this matches the file's text, the file is left as it is.
    pub skip_if: Option<Pattern>,
    /// Where the payload goes; `None` where the description names no place.
    pub placement: Option<Placement>,
}

/// An injection, with each pattern given by its text.
pub struct InjectionView {
    pub into: Seq<char>,
    pub content: Seq<char>,
    pub inline: bool,
    pub skip_if: Option<Seq<char>>,
    pub placement: Option<PlacementView>,
}

impl View for Injection {
    type V = InjectionView;

    open spec fn view(&self) -> InjectionView {
        InjectionView {
            into: self.into@,
            content: self.content@,
            inline: self.inline,
            skip_if: match self.skip_if {
                Some(p) => Some(p@),
                None => None,
            },
            placement: match self.placement {
                Some(p) => Some(p@),
                None => None,
            },
        }
    }
}

/// An injection as a decoder of the structured notation hands it over: every
/// field as it was written, the patterns still as texts.
#[derive(Debug)]
pub struct InjectionFields {
    pub into: String,
    pub content: String,
    pub inline: bool,
    pub skip_if: Option<String>,
    pub before: Option<String>,
    pub before_last: Option<String>,
    pub before_all: Option<String>,
    pub after: Option<String>,
    pub after_last: Option<String>,
    pub after_all: Option<String>,
    pub remove_lines: Option<String>,
    pub replace: Option<String>,
    pub replace_all: Option<String>,
    pub prepend: bool,
    pub append: bool,
}

/// The placement that a field with a pattern stands for.
#[derive(Debug, Clone, Copy)]
pub enum Slot {
    At(MatchPositions, InsertionPoint),
    RemoveLines,
    Replace,
    ReplaceAll,
}

/// The placement that a slot makes with a pattern text.
pub open spec fn slot_view(slot: Slot, pattern: Seq<char>) -> PlacementView {
    match slot {
        Slot::At(select, point) => PlacementView::At { pattern, select, point },
        Slot::RemoveLines => PlacementView::RemoveLines(pattern),
        Slot::Replace => PlacementView::Replace(pattern),
        Slot::ReplaceAll => PlacementView::ReplaceAll(pattern),
    }
}

/// Whether a field holds a text that does not compile.
pub open spec fn is_bad(text: Option<String>) -> bool {
    text matches Some(t) && !pattern_compiles(t@)
}

/// The placement that a flag asks for, if it is set.
pub open spec fn flagged(set: bool, placement: PlacementView) -> Seq<PlacementView> {
    if set {
        seq![placement]
    } else {
        Seq::empty()
    }
}

/// The placement that a pattern field asks for, if it is set.
pub open spec fn slotted(text: Option<String>, slot: Slot) -> Seq<PlacementView> {
    match text {
        Some(t) => seq![slot_view(slot, t@)],
        None => Seq::empty(),
    }
}

/// Every placement that the fields ask for.
pub open spec fn requested(f: InjectionFields) -> Seq<PlacementView> {
    flagged(f.prepend, PlacementView::Prepend) + flagged(f.append, PlacementView::Append)
        + slotted(f.before, Slot::At(MatchPositions::First, InsertionPoint::Before)) + slotted(
        f.before_last,
        Slot::At(MatchPositions::Last, InsertionPoint::Before),
    ) + slotted(f.before_all, Slot::At(MatchPositions::All, InsertionPoint::Before)) + slotted(
        f.after,
        Slot::At(MatchPositions::First, InsertionPoint::After),
    ) + slotted(f.after_last, Slot::At(MatchPositions::Last, InsertionPoint::After)) + slotted(
        f.after_all,
        Slot::At(MatchPositions::All, InsertionPoint::After),
    ) + slotted(f.remove_lines, Slot::RemoveLines) + slotted(f.replace, Slot::Replace) + slotted(
        f.replace_all,
        Slot::ReplaceAll,
    )
}

/// The first field, in the order in which they are read, whose text does not
/// compile.
pub open spec fn rejected_pattern(f: InjectionFields) -> Option<Seq<char>> {
    if is_bad(f.skip_if) {
        Some(f.skip_if->0@)
    } else if is_bad(f.before) {
        Some(f.before->0@)
    } else if is_bad(f.before_last) {
        Some(f.before_last->0@)
    } else if is_bad(f.before_all) {
        Some(f.before_all->0@)
    } else if is_bad(f.after) {
        Some(f.after->0@)
    } else if is_bad(f.after_last) {
        Some(f.after_last->0@)
    } else if is_bad(f.after_all) {
        Some(f.after_all->0@)
    } else if is_bad(f.remove_lines) {
        Some(f.remove_lines->0@)
    } else if is_bad(f.replace) {
        Some(f.replace->0@)
    } else if is_bad(f.replace_all) {
        Some(f.replace_all->0@)
    } else {
        None
    }
}

/// Why the fields describe no injection, if they do not: a text that does
/// not compile, or more than one placement asked for.
pub open spec fn refusal(f: InjectionFields) -> Option<ErrorView> {
    match rejected_pattern(f) {
        Some(t) => Some(ErrorView::InvalidPattern(t)),
        None => if requested(f).len() > 1 {
            Some(ErrorView::ConflictingPlacements(f.into@))
        } else {
            None
        },
    }
}

/// The injection that the fields describe, where they describe one.
pub open spec fn described(f: InjectionFields) -> InjectionView {
    InjectionView {
        into: f.into@,
        content: f.content@,
        inline: f.inline,
        skip_if: match f.skip_if {
            Some(t) => Some(t@),
            None => None,
        },
        placement: if requested(f).len() == 1 {
            Some(requested(f)[0])
        } else {
            None
        },
    }
}

/// The views of a vector of placements.
pub open spec fn placement_views(set: Seq<Placement>) -> Seq<PlacementView> {
    set.map_values(|p: Placement| p@)
}

/// Compiles the text of a pattern field, if it is set, and adds the placement
/// it asks for.
fn gather(set: &mut Vec<Placement>, text: &Option<String>, slot: Slot) -> (r: Result<(), Error>)
    ensures
        r is Err <==> is_bad(*text),
        r matches Err(e) ==> e@ == ErrorView::InvalidPattern(text->0@),
        r is Ok ==> placement_views(final(set)@) == placement_views(old(set)@) + slotted(*text, slot),
{
    let ghost before = set@;
    match text {
        None => {
            proof {
                assert(placement_views(before) + slotted(*text, slot) =~= placement_views(before));
            }
            Ok(())
        },
        Some(t) => match Pattern::new(t.as_str()) {
            Err(e) => Err(e),
            Ok(pattern) => {
                let placement = match slot {
                    Slot::At(select, point) => Placement::At { pattern, select, point },
                    Slot::RemoveLines => Placement::RemoveLines(pattern),
                    Slot::Replace => Placement::Replace(pattern),
                    Slot::ReplaceAll => Placement::ReplaceAll(pattern),
                };
                set.push(placement);
                proof {
                    assert(placement_views(set@) =~= placement_views(before) + seq![placement@]);
                }
                Ok(())
            },
        },
    }
}

/// The lines that the pattern does not match, in the order they had.
pub open spec fn retained(source: Seq<char>, lines: Seq<Seq<char>>) -> Seq<Seq<char>> {
    lines.filter(|line: Seq<char>| !is_match(source, line))
}

/// The text without the lines that the pattern matches.
pub open spec fn without_lines(content: Seq<char>, source: Seq<char>) -> Seq<char> {
    joined(retained(source, lines_of(content)))
}

/// Removal. No line that is kept matches the pattern; every line that does
/// not match is kept; and the lines kept of two texts, one after the other,
/// are those kept of the first followed by those kept of the second, so
/// that no line changes place.
pub proof fn lemma_retained_lines(source: Seq<char>, lines: Seq<Seq<char>>, more: Seq<Seq<char>>)
    ensures
        forall|i: int|
            0 <= i < retained(source, lines).len() ==> !is_match(
                source,
                #[trigger] retained(source, lines)[i],
            ),
        forall|i: int|
            0 <= i < lines.len() && !is_match(source, #[trigger] lines[i]) ==> retained(
                source,
                lines,
            ).contains(lines[i]),
        retained(source, lines).len() <= lines.len(),
        retained(source, lines + more) == retained(source, lines) + retained(source, more),
{
    let keep = |line: Seq<char>| !is_match(source, line);
    assert forall|i: int| 0 <= i < lines.filter(keep).len() implies keep(
        #[trigger] lines.filter(keep)[i],
    ) by {
        lines.lemma_filter_pred(keep, i);
    }
    assert forall|i: int| 0 <= i < lines.len() && keep(#[trigger] lines[i]) implies lines.filter(
        keep,
    ).contains(lines[i]) by {
        lines.lemma_filter_contains(keep, i);
    }
    lines.lemma_filter_len(keep);
    Seq::filter_distributes_over_add(lines, more, keep);
}

/// Drops every line that the pattern matches, and joins the others, in their
/// order, by line feeds.
pub fn remove_lines(file_content: &str, pattern: &Pattern) -> (out: String)
    ensures
        out@ == without_lines(file_content@, pattern@),
{
    let lines = split_lines(file_content);
    let ghost texts = views(lines@);
    let ghost keep = |line: Seq<char>| !is_match(pattern@, line);
    let mut kept: Vec<String> = Vec::new();
    let mut i: usize = 0;
    while i < lines.len()
        invariant
            i <= lines.len(),
            texts == views(lines@),
            keep == |line: Seq<char>| !is_match(pattern@, line),
            views(kept@) == texts.take(i as int).filter(keep),
        decreases lines.len() - i,
    {
        let ghost done = kept@;
        let line = lines[i].as_str();
        proof {
            reveal(Seq::filter);
            assert(texts.take(i + 1).drop_last() =~= texts.take(i as int));
            assert(texts.take(i + 1).last() == line@);
        }
        if !pattern.is_match(line) {
            kept.push(String::from_str(line));
            proof {
                assert(views(kept@) =~= views(done) + seq![line@]);
                assert(views(done) + seq![line@] =~= views(done).push(line@));
            }
        }
        i = i + 1;
    }
    proof {
        assert(texts.take(i as int) =~= texts);
    }
    join_lines(&kept)
}

/// What an injection makes of a file's text: `None` where its `skip_if`
/// matches the text, and else the new text.
pub open spec fn patched(inj: InjectionView, file: Seq<char>) -> Option<Seq<char>> {
    if inj.skip_if matches Some(skip) && is_match(skip, file) {
        None
    } else {
        Some(
            match inj.placement {
                None => file,
                Some(PlacementView::Prepend) => inj.content + seq!['\n'] + file,
                Some(PlacementView::Append) => file + seq!['\n'] + inj.content,
                Some(PlacementView::At { pattern, select, point }) => with_payload(
                    file,
                    pattern,
                    select,
                    inj.content,
                    point,
                    inj.inline,
                ),
                Some(PlacementView::RemoveLines(pattern)) => without_lines(file, pattern),
                Some(PlacementView::Replace(pattern)) => expanded(pattern, file, 1, inj.content),
                Some(PlacementView::ReplaceAll(pattern)) => expanded(pattern, file, 0, inj.content),
            },
        )
    }
}

impl Injection {
    /// Makes an injection of its fields. Every pattern is compiled: the first
    /// text that does not compile is reported. Fields that between them ask
    /// for more than one placement are refused. Where none asks for one, the
    /// injection has no placement.
    pub fn decode(fields: &InjectionFields) -> (r: Result<Injection, Error>)
        ensures
            r is Err <==> refusal(*fields) is Some,
            r matches Err(e) ==> Some(e@) == refusal(*fields),
            r matches Ok(inj) ==> inj@ == described(*fields),
    {
        let skip_if = match &fields.skip_if {
            None => None,
            Some(t) => match Pattern::new(t.as_str()) {
                Ok(p) => Some(p),
                Err(e) => {
                    return Err(e);
                },
            },
        };
        let mut set: Vec<Placement> = Vec::new();
        if fields.prepend {
            set.push(Placement::Prepend);
        }
        if fields.append {
            set.push(Placement::Append);
        }
        proof {
            assert(placement_views(set@) =~= flagged(fields.prepend, PlacementView::Prepend)
                + flagged(fields.append, PlacementView::Append));
        }
        match gather(&mut set, &fields.before, Slot::At(MatchPositions::First, InsertionPoint::Before)) {
            Err(e) => {
                return Err(e);
            },
            Ok(()) => {},
        }
        match gather(
            &mut set,
            &fields.before_last,
            Slot::At(MatchPositions::Last, InsertionPoint::Before),
        ) {
            Err(e) => {
                return Err(e);
            },
            Ok(()) => {},
        }
        match gather(&mut set, &fields.before_all, Slot::At(MatchPositions::All, InsertionPoint::Before)) {
            Err(e) => {
                return Err(e);
            },
            Ok(()) => {},
        }
        match gather(&mut set, &fields.after, Slot::At(MatchPositions::First, InsertionPoint::After)) {
            Err(e) => {
                return Err(e);
            },
            Ok(()) => {},
        }
        match gather(&mut set, &fields.after_last, Slot::At(MatchPositions::Last, InsertionPoint::After)) {
            Err(e) => {
                return Err(e);
            },
            Ok(()) => {},
        }
        match gather(&mut set, &fields.after_all, Slot::At(MatchPositions::All, InsertionPoint::After)) {
            Err(e) => {
                return Err(e);
            },
            Ok(()) => {},
        }
        match gather(&mut set, &fields.remove_lines, Slot::RemoveLines) {
            Err(e) => {
                return Err(e);
            },
            Ok(()) => {},
        }
        match gather(&mut set, &fields.replace, Slot::Replace) {
            Err(e) => {
                return Err(e);
            },
            Ok(()) => {},
        }
        match gather(&mut set, &fields.replace_all, Slot::ReplaceAll) {
            Err(e) => {
                return Err(e);
            },
            Ok(()) => {},
        }
        assert(placement_views(set@) == requested(*fields));
        if set.len() > 1 {
            return Err(Error::ConflictingPlacements(fields.into.clone()));
        }
        let placement = set.pop();
        Ok(
            Injection {
                into: fields.into.clone(),
                content: fields.content.clone(),
                inline: fields.inline,
                skip_if,
                placement,
            },
        )
    }

    /// Whether the description names no place for the payload, so that
    /// applying it changes nothing.
    pub fn is_idle(&self) -> (b: bool)
        ensures
            b == (self@.placement is None),
    {
        self.placement.is_none()
    }

    /// Applies the injection to the text of its target. Returns `None`, and
    /// nothing is to be written, exactly where `skip_if` is set and matches
    /// the text; else the new text. Where no place is named the text comes
    /// back as it is. A pattern that matches nowhere changes no line.
    pub fn apply(&self, file_content: &str) -> (out: Option<String>)
        ensures
            out is Some <==> patched(self@, file_content@) is Some,
            out matches Some(text) ==> Some(text@) == patched(self@, file_content@),
            out matches Some(text) ==> (self@.placement matches Some(PlacementView::Replace(p)) ==> (
            !self@.content.contains('$') ==> text@ == substituted(
                file_content@,
                leading(match_spans(p, file_content@), 1),
                self@.content,
            ))),
            out matches Some(text) ==> (self@.placement matches Some(PlacementView::ReplaceAll(p))
                ==> (!self@.content.contains('$') ==> text@ == substituted(
                file_content@,
                match_spans(p, file_content@),
                self@.content,
            ))),
    {
        if let Some(skip_if) = &self.skip_if {
            if skip_if.is_match(file_content) {
                return None;
            }
        }
        let content = self.content.as_str();
        let new_content = match &self.placement {
            None => String::from_str(file_content),
            Some(Placement::Prepend) => {
                let mut out = String::from_str(content);
                out.append("\n");
                out.append(file_content);
                out
            },
            Some(Placement::Append) => {
                let mut out = String::from_str(file_content);
                out.append("\n");
                out.append(content);
                out
            },
            Some(Placement::At { pattern, select, point }) => {
                insert_content_at_matches(
                    file_content,
                    content,
                    self.inline,
                    pattern,
                    *select,
                    *point,
                )
            },
            Some(Placement::RemoveLines(pattern)) => remove_lines(file_content, pattern),
            Some(Placement::Replace(pattern)) => pattern.replace_matches(file_content, 1, content),
            Some(Placement::ReplaceAll(pattern)) => pattern.replace_matches(file_content, 0, content),
        };
        proof {
            reveal_strlit("\n");
            assert("\n"@ =~= seq!['\n']);
        }
        Some(new_content)
    }
}

} // verus!
