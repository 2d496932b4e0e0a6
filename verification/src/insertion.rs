//! Putting a payload into a text at the lines that a pattern matches.

use crate::pattern::{adjoined, is_match, leading, match_spans, Pattern};
use crate::positions::{find_positions, selected, MatchPositions};
use crate::text::{
    chars_of, closing, has_crlf, join_chars, joined, lemma_join_split, lines_of,
    split_chars, string_of, views,
};
use vstd::prelude::*;
use vstd::string::*;

verus! {

/// On which side of a match the payload goes.
#[derive(Debug, Clone, Copy)]
pub enum InsertionPoint {
    /// Directly before the match.
    Before,
    /// Directly after the match.
    After,
}

/// A chosen line with the payload put inside it, next to what the pattern
/// matches in the line: under `First` next to the first match only, under
/// `All` and `Last` next to every match.
pub open spec fn spliced(
    source: Seq<char>,
    line: Seq<char>,
    mode: MatchPositions,
    payload: Seq<char>,
    point: InsertionPoint,
) -> Seq<char> {
    let spans = match_spans(source, line);
    let used = match mode {
        MatchPositions::First => leading(spans, 1),
        _ => spans,
    };
    adjoined(line, used, payload, point is Before)
}

/// What stands in place of line `i`: the line itself where it is not chosen;
/// else, inline, the line with the payload inside it, and otherwise the line
/// with the payload as a line of its own before or after it.
pub open spec fn piece(
    source: Seq<char>,
    lines: Seq<Seq<char>>,
    mode: MatchPositions,
    payload: Seq<char>,
    point: InsertionPoint,
    inline: bool,
    i: int,
) -> Seq<Seq<char>> {
    if !selected(source, lines, mode, i) {
        seq![lines[i]]
    } else if inline {
        seq![spliced(source, lines[i], mode, payload, point)]
    } else if point is Before {
        seq![payload, lines[i]]
    } else {
        seq![lines[i], payload]
    }
}

/// The pieces of the first `upto` lines, one after the other.
pub open spec fn rewritten(
    source: Seq<char>,
    lines: Seq<Seq<char>>,
    mode: MatchPositions,
    payload: Seq<char>,
    point: InsertionPoint,
    inline: bool,
    upto: int,
) -> Seq<Seq<char>>
    decreases upto,
{
    if upto <= 0 {
        Seq::empty()
    } else {
        rewritten(source, lines, mode, payload, point, inline, upto - 1) + piece(
            source,
            lines,
            mode,
            payload,
            point,
            inline,
            upto - 1,
        )
    }
}

/// The text with the payload put in at the chosen lines: its lines, each
/// replaced by its piece, joined by line feeds, and closed by a line feed
/// where the text was.
pub open spec fn with_payload(
    content: Seq<char>,
    source: Seq<char>,
    mode: MatchPositions,
    payload: Seq<char>,
    point: InsertionPoint,
    inline: bool,
) -> Seq<char> {
    let lines = lines_of(content);
    joined(rewritten(source, lines, mode, payload, point, inline, lines.len() as int)) + closing(
        content,
    )
}

/// Where no line is chosen, every line stands for itself.
pub proof fn lemma_rewritten_without_match(
    source: Seq<char>,
    lines: Seq<Seq<char>>,
    mode: MatchPositions,
    payload: Seq<char>,
    point: InsertionPoint,
    inline: bool,
    upto: int,
)
    requires
        0 <= upto <= lines.len(),
        forall|i: int| 0 <= i < lines.len() ==> !is_match(source, #[trigger] lines[i]),
    ensures
        rewritten(source, lines, mode, payload, point, inline, upto) == lines.take(upto),
    decreases upto,
{
    if upto > 0 {
        lemma_rewritten_without_match(source, lines, mode, payload, point, inline, upto - 1);
        assert(!selected(source, lines, mode, upto - 1));
        assert(lines.take(upto - 1) + seq![lines[upto - 1]] =~= lines.take(upto));
    } else {
        assert(lines.take(0) =~= Seq::<Seq<char>>::empty());
    }
}

/// No match, no change. Where the pattern matches no line of a text without
/// CRLF pairs, the text comes back as it was, whatever the payload, the
/// choice of lines and the side.
pub proof fn lemma_no_match_keeps_text(
    content: Seq<char>,
    source: Seq<char>,
    mode: MatchPositions,
    payload: Seq<char>,
    point: InsertionPoint,
    inline: bool,
)
    requires
        !has_crlf(content),
        forall|i: int|
            0 <= i < lines_of(content).len() ==> !is_match(source, #[trigger] lines_of(content)[i]),
    ensures
        with_payload(content, source, mode, payload, point, inline) == content,
{
    let lines = lines_of(content);
    lemma_rewritten_without_match(source, lines, mode, payload, point, inline, lines.len() as int);
    assert(lines.take(lines.len() as int) =~= lines);
    lemma_join_split(content);
}

/// Whether `index` is among `positions`.
pub fn holds_index(positions: &Vec<usize>, index: usize) -> (b: bool)
    ensures
        b == positions@.contains(index),
{
    let mut k: usize = 0;
    while k < positions.len()
        invariant
            k <= positions.len(),
            forall|j: int| 0 <= j < k ==> positions@[j] != index,
        decreases positions.len() - k,
    {
        if positions[k] == index {
            return true;
        }
        k = k + 1;
    }
    false
}

/// Puts `content` into `file_content` at the lines that the pattern matches.
/// The lines to act on are chosen on the text as it is given; an insertion
/// moves none of them. Where no line matches, the text comes back with its
/// line ends normalised and nothing else changed.
pub fn insert_content_at_matches(
    file_content: &str,
    content: &str,
    inline: bool,
    pattern: &Pattern,
    match_positions: MatchPositions,
    position: InsertionPoint,
) -> (out: String)
    ensures
        out@ == with_payload(file_content@, pattern@, match_positions, content@, position, inline),
{
    let chars = chars_of(file_content);
    let lines = split_chars(&chars);
    let positions = find_positions(&lines, pattern, &match_positions);
    let before = matches!(position, InsertionPoint::Before);
    let ghost texts = views(lines@);
    let mut new_lines: Vec<String> = Vec::new();
    let mut index: usize = 0;
    while index < lines.len()
        invariant
            index <= lines.len(),
            texts == views(lines@),
            before == (position is Before),
            forall|i: int|
                0 <= i <= usize::MAX ==> (positions@.contains(i as usize) <==> selected(
                    pattern@,
                    texts,
                    match_positions,
                    i,
                )),
            views(new_lines@) == rewritten(
                pattern@,
                texts,
                match_positions,
                content@,
                position,
                inline,
                index as int,
            ),
        decreases lines.len() - index,
    {
        let ghost done = new_lines@;
        let line = lines[index].as_str();
        proof {
            assert(texts[index as int] == line@);
        }
        if pattern.is_match(line) && holds_index(&positions, index) {
            if inline {
                let new_line = match match_positions {
                    MatchPositions::All => pattern.adjoin_matches(line, 0, content, before),
                    MatchPositions::First => pattern.adjoin_matches(line, 1, content, before),
                    MatchPositions::Last => {
                        let count = pattern.count_matches(line);
                        pattern.adjoin_matches(line, count, content, before)
                    },
                };
                new_lines.push(new_line);
                proof {
                    assert(new_line@ == spliced(
                        pattern@,
                        line@,
                        match_positions,
                        content@,
                        position,
                    ));
                    assert(views(new_lines@) =~= views(done) + seq![new_line@]);
                }
            } else if before {
                new_lines.push(String::from_str(content));
                new_lines.push(String::from_str(line));
                proof {
                    assert(views(new_lines@) =~= views(done) + seq![content@, line@]);
                }
            } else {
                new_lines.push(String::from_str(line));
                new_lines.push(String::from_str(content));
                proof {
                    assert(views(new_lines@) =~= views(done) + seq![line@, content@]);
                }
            }
        } else {
            new_lines.push(String::from_str(line));
            proof {
                assert(views(new_lines@) =~= views(done) + seq![line@]);
            }
        }
        index = index + 1;
    }
    let mut out = join_chars(&new_lines);
    let ghost body = out@;
    if chars.len() > 0 && chars[chars.len() - 1] == '\n' {
        out.push('\n');
    }
    proof {
        assert(out@ =~= body + closing(file_content@));
    }
    string_of(&out)
}

} // verus!
