//! A rendered document: directives and bodies, told apart by delimiter lines.
//!
//! A delimiter is a line that holds three hyphens and nothing else, closed by
//! a line feed. The text between delimiters falls into parts; a part that
//! holds nothing but white space does not count. The parts that count come in
//! pairs: a directive, then its body.

use crate::error::{Error, ErrorView};
use crate::text::{
    chars_of, has_crlf, lemma_line_end_bounds, lemma_normalized_plain, line_end, normalize_chars,
    normalized, string_of, views,
};
use vstd::prelude::*;

verus! {

/// Whether a delimiter stands at position `at` of `t`. This is meant for the
/// start of a line.
pub open spec fn delimiter_at(t: Seq<char>, at: int) -> bool {
    &&& 0 <= at
    &&& at + 4 <= t.len()
    &&& t[at] == '-'
    &&& t[at + 1] == '-'
    &&& t[at + 2] == '-'
    &&& t[at + 3] == '\n'
}

/// The start of the first delimiter line at or after the line start `from`,
/// or the length of `t` where there is none.
pub open spec fn next_delimiter(t: Seq<char>, from: int) -> int
    decreases t.len() + 1 - from,
{
    if from < 0 || from >= t.len() {
        t.len() as int
    } else if delimiter_at(t, from) {
        from
    } else {
        let end = line_end(t, from);
        if from <= end < t.len() {
            next_delimiter(t, end + 1)
        } else {
            t.len() as int
        }
    }
}

/// Space, tab, line feed, form feed or carriage return.
pub open spec fn is_space(c: char) -> bool {
    c == ' ' || c == '\t' || c == '\n' || c == '\x0c' || c == '\r'
}

/// Whether `s` holds nothing but white space.
pub open spec fn is_blank(s: Seq<char>) -> bool {
    forall|i: int| 0 <= i < s.len() ==> is_space(#[trigger] s[i])
}

/// The parts that count, from the line start `from` on.
pub open spec fn parts_from(t: Seq<char>, from: int) -> Seq<Seq<char>>
    decreases t.len() + 1 - from,
{
    if from < 0 || from > t.len() {
        Seq::empty()
    } else {
        let stop = next_delimiter(t, from);
        if from <= stop <= t.len() {
            let part = t.subrange(from, stop);
            let head = if is_blank(part) {
                Seq::empty()
            } else {
                seq![part]
            };
            if delimiter_at(t, stop) {
                head + parts_from(t, stop + 4)
            } else {
                head
            }
        } else {
            Seq::empty()
        }
    }
}

/// The parts of a text that count, in order.
pub open spec fn parts_of(t: Seq<char>) -> Seq<Seq<char>> {
    parts_from(t, 0)
}

/// The parts taken two by two: a directive and its body.
pub open spec fn paired(parts: Seq<Seq<char>>) -> Seq<(Seq<char>, Seq<char>)> {
    Seq::new(parts.len() / 2, |i: int| (parts[2 * i], parts[2 * i + 1]))
}

/// The views of a vector of pairs of strings.
pub open spec fn pair_views(pairs: Seq<(String, String)>) -> Seq<(Seq<char>, Seq<char>)> {
    pairs.map_values(|p: (String, String)| (p.0@, p.1@))
}

/// What a document holds: its pairs, or nothing where a directive is left
/// without a body. CRLF pairs count as line feeds.
pub open spec fn document_of(input: Seq<char>) -> Option<Seq<(Seq<char>, Seq<char>)>> {
    let parts = parts_of(normalized(input));
    if parts.len() % 2 == 0 {
        Some(paired(parts))
    } else {
        None
    }
}

/// Line ends. A document holds what the same document holds with each of
/// its CRLF pairs written as a line feed. This is stated for the documents
/// in which that rewriting leaves no CRLF pair behind: where two carriage
/// returns stand before a line feed, one of them stays, and a second
/// rewriting would take it too.
pub proof fn lemma_crlf_reads_as_lf(input: Seq<char>)
    requires
        !has_crlf(normalized(input)),
    ensures
        document_of(normalized(input)) == document_of(input),
{
    lemma_normalized_plain(normalized(input));
}

/// A delimiter line.
pub open spec fn delimiter() -> Seq<char> {
    seq!['-', '-', '-', '\n']
}

/// Whether a line of `x` starts at `j`.
pub open spec fn line_start(x: Seq<char>, j: int) -> bool {
    0 <= j < x.len() && (j == 0 || x[j - 1] == '\n')
}

/// Whether a text can stand as a part of a document: it is not blank, it is
/// closed by a line feed, and none of its lines is a delimiter.
pub open spec fn is_part(x: Seq<char>) -> bool {
    &&& !is_blank(x)
    &&& x.len() > 0
    &&& x.last() == '\n'
    &&& forall|j: int| line_start(x, j) ==> !delimiter_at(x, j)
}

/// The document made of the pairs: a delimiter line before each directive
/// and before each body.
pub open spec fn composed(pairs: Seq<(Seq<char>, Seq<char>)>) -> Seq<char>
    decreases pairs.len(),
{
    if pairs.len() == 0 {
        Seq::empty()
    } else {
        delimiter() + pairs[0].0 + delimiter() + pairs[0].1 + composed(pairs.skip(1))
    }
}

/// The directives and bodies of the pairs, one after the other.
pub open spec fn unpaired(pairs: Seq<(Seq<char>, Seq<char>)>) -> Seq<Seq<char>> {
    Seq::new(
        2 * pairs.len(),
        |k: int|
            if k % 2 == 0 {
                pairs[k / 2].0
            } else {
                pairs[k / 2].1
            },
    )
}

/// The end of a line does not depend on what stands before the line.
pub proof fn lemma_line_end_shift(t: Seq<char>, k: int, j: int)
    requires
        0 <= k <= t.len(),
        0 <= j,
    ensures
        line_end(t, k + j) == k + line_end(t.skip(k), j),
    decreases t.len() - k - j,
{
    if k + j < t.len() {
        assert(t.skip(k)[j] == t[k + j]);
        if t[k + j] != '\n' {
            lemma_line_end_shift(t, k, j + 1);
        }
    }
}

/// Whether a delimiter stands at a place does not depend on what stands
/// before it.
pub proof fn lemma_delimiter_shift(t: Seq<char>, k: int, j: int)
    requires
        0 <= k <= t.len(),
        0 <= j,
    ensures
        delimiter_at(t, k + j) == delimiter_at(t.skip(k), j),
{
    if k + j + 4 <= t.len() {
        assert(t.skip(k)[j] == t[k + j]);
        assert(t.skip(k)[j + 1] == t[k + j + 1]);
        assert(t.skip(k)[j + 2] == t[k + j + 2]);
        assert(t.skip(k)[j + 3] == t[k + j + 3]);
    }
}

/// The next delimiter does not depend on what stands before the line.
pub proof fn lemma_next_delimiter_shift(t: Seq<char>, k: int, j: int)
    requires
        0 <= k <= t.len(),
        0 <= j,
    ensures
        next_delimiter(t, k + j) == k + next_delimiter(t.skip(k), j),
    decreases t.len() + 1 - k - j,
{
    if k + j < t.len() {
        lemma_delimiter_shift(t, k, j);
        if !delimiter_at(t, k + j) {
            lemma_line_end_shift(t, k, j);
            lemma_line_end_bounds(t, k + j);
            let end = line_end(t, k + j);
            if end < t.len() {
                lemma_next_delimiter_shift(t, k, end + 1 - k);
            }
        }
    }
}

/// The parts from a line on do not depend on what stands before the line.
pub proof fn lemma_parts_shift(t: Seq<char>, k: int, j: int)
    requires
        0 <= k <= t.len(),
        0 <= j,
    ensures
        parts_from(t, k + j) == parts_from(t.skip(k), j),
    decreases t.len() + 1 - k - j,
{
    if k + j <= t.len() {
        lemma_next_delimiter_shift(t, k, j);
        lemma_next_delimiter_bounds(t, k + j);
        let stop = next_delimiter(t, k + j);
        lemma_delimiter_shift(t, k, stop - k);
        assert(t.subrange(k + j, stop) =~= t.skip(k).subrange(j, stop - k));
        if delimiter_at(t, stop) {
            lemma_parts_shift(t, k, stop + 4 - k);
        }
    }
}

/// The next delimiter is found at or after the line, and inside the text.
pub proof fn lemma_next_delimiter_bounds(t: Seq<char>, from: int)
    requires
        0 <= from <= t.len(),
    ensures
        from <= next_delimiter(t, from) <= t.len(),
        next_delimiter(t, from) < t.len() ==> delimiter_at(t, next_delimiter(t, from)),
    decreases t.len() + 1 - from,
{
    if from < t.len() && !delimiter_at(t, from) {
        lemma_line_end_bounds(t, from);
        let end = line_end(t, from);
        if end < t.len() {
            lemma_next_delimiter_bounds(t, end + 1);
        }
    }
}

/// A delimiter line at the head of a text adds no part.
pub proof fn lemma_leading_delimiter(v: Seq<char>)
    ensures
        parts_of(delimiter() + v) == parts_of(v),
{
    let t = delimiter() + v;
    assert(delimiter_at(t, 0));
    assert(t.subrange(0, 0) =~= Seq::<char>::empty());
    assert(is_blank(t.subrange(0, 0)));
    lemma_parts_shift(t, 4, 0);
    assert(t.skip(4) =~= v);
}

/// From any line of a part, the next delimiter of the text is the one that
/// follows the part, or the end of the text where the part stands last.
proof fn lemma_part_runs_to_its_end(x: Seq<char>, v: Seq<char>, j: int)
    requires
        is_part(x),
        v.len() == 0 || delimiter_at(v, 0),
        line_start(x, j) || j == x.len(),
    ensures
        next_delimiter(x + v, j) == x.len(),
    decreases x.len() - j,
{
    let t = x + v;
    if j == x.len() {
        if v.len() > 0 {
            lemma_delimiter_shift(t, x.len() as int, 0);
            assert(t.skip(x.len() as int) =~= v);
        }
    } else {
        assert(t[x.len() - 1] == '\n');
        if j + 4 <= x.len() {
            assert(t[j] == x[j] && t[j + 1] == x[j + 1] && t[j + 2] == x[j + 2] && t[j + 3]
                == x[j + 3]);
        }
        assert(!delimiter_at(t, j));
        lemma_line_end_bounds(t, j);
        let end = line_end(t, j);
        assert(end <= x.len() - 1);
        assert(t[end] == x[end]);
        lemma_part_runs_to_its_end(x, v, end + 1);
    }
}

/// A part, a delimiter line and a text: the part, then the parts of the text.
pub proof fn lemma_part_then_delimiter(x: Seq<char>, v: Seq<char>)
    requires
        is_part(x),
    ensures
        parts_of(x + delimiter() + v) == seq![x] + parts_of(v),
{
    let tail = delimiter() + v;
    let t = x + tail;
    assert(x + delimiter() + v =~= t);
    assert(delimiter_at(tail, 0));
    lemma_part_runs_to_its_end(x, tail, 0);
    let stop = x.len() as int;
    assert(t.subrange(0, stop) =~= x);
    lemma_delimiter_shift(t, stop, 0);
    assert(t.skip(stop) =~= tail);
    lemma_parts_shift(t, stop + 4, 0);
    assert(t.skip(stop + 4) =~= v);
}

/// A part alone is the one part of its text.
pub proof fn lemma_part_alone(x: Seq<char>)
    requires
        is_part(x),
    ensures
        parts_of(x) == seq![x],
{
    let v = Seq::<char>::empty();
    assert(x + v =~= x);
    lemma_part_runs_to_its_end(x, v, 0);
    assert(x.subrange(0, x.len() as int) =~= x);
}

/// The directives and bodies of the pairs are those of the first pair, then
/// those of the others.
proof fn lemma_unpaired_unfolds(pairs: Seq<(Seq<char>, Seq<char>)>)
    requires
        pairs.len() > 0,
    ensures
        unpaired(pairs) == seq![pairs[0].0, pairs[0].1] + unpaired(pairs.skip(1)),
{
    let rest = pairs.skip(1);
    let right = seq![pairs[0].0, pairs[0].1] + unpaired(rest);
    assert(unpaired(pairs).len() == right.len());
    assert forall|k: int| 0 <= k < unpaired(pairs).len() implies unpaired(pairs)[k] == right[k] by {
        if k >= 2 {
            assert(right[k] == unpaired(rest)[k - 2]);
            assert((k - 2) / 2 == k / 2 - 1);
            assert((k - 2) % 2 == k % 2);
            assert(rest[k / 2 - 1] == pairs[k / 2]);
        }
    }
    assert(unpaired(pairs) =~= right);
}

/// A document begins with a delimiter line, or is empty.
proof fn lemma_composed_opens(pairs: Seq<(Seq<char>, Seq<char>)>)
    ensures
        pairs.len() == 0 ==> composed(pairs) == Seq::<char>::empty(),
        pairs.len() > 0 ==> composed(pairs) == delimiter() + (pairs[0].0 + delimiter() + (
        pairs[0].1 + composed(pairs.skip(1)))),
{
    if pairs.len() > 0 {
        assert(composed(pairs) =~= delimiter() + (pairs[0].0 + delimiter() + (pairs[0].1
            + composed(pairs.skip(1)))));
    }
}

/// A body and the document that follows it: the body, then the parts of
/// that document.
proof fn lemma_body_then_document(body: Seq<char>, rest: Seq<(Seq<char>, Seq<char>)>)
    requires
        is_part(body),
    ensures
        parts_of(body + composed(rest)) == seq![body] + parts_of(composed(rest)),
{
    lemma_composed_opens(rest);
    if rest.len() == 0 {
        assert(body + composed(rest) =~= body);
        lemma_part_alone(body);
        assert(is_blank(Seq::<char>::empty().subrange(0, 0)));
        assert(parts_of(Seq::<char>::empty()) =~= Seq::<Seq<char>>::empty());
        assert(seq![body] + parts_of(composed(rest)) =~= seq![body]);
    } else {
        let inner = rest[0].0 + delimiter() + (rest[0].1 + composed(rest.skip(1)));
        assert(body + composed(rest) =~= body + delimiter() + inner);
        lemma_part_then_delimiter(body, inner);
        lemma_leading_delimiter(inner);
    }
}

/// The parts of a composed document are the directives and bodies it was
/// made of, in their order.
pub proof fn lemma_composed_parts(pairs: Seq<(Seq<char>, Seq<char>)>)
    requires
        forall|i: int| 0 <= i < pairs.len() ==> is_part((#[trigger] pairs[i]).0) && is_part(pairs[i].1),
    ensures
        parts_of(composed(pairs)) == unpaired(pairs),
    decreases pairs.len(),
{
    lemma_composed_opens(pairs);
    if pairs.len() == 0 {
        assert(is_blank(Seq::<char>::empty().subrange(0, 0)));
        assert(parts_of(Seq::<char>::empty()) =~= Seq::<Seq<char>>::empty());
        assert(unpaired(pairs) =~= Seq::<Seq<char>>::empty());
    } else {
        let directive = pairs[0].0;
        let body = pairs[0].1;
        let rest = pairs.skip(1);
        assert forall|i: int| 0 <= i < rest.len() implies is_part((#[trigger] rest[i]).0)
            && is_part(rest[i].1) by {
            assert(rest[i] == pairs[i + 1]);
        }
        lemma_composed_parts(rest);
        let after = body + composed(rest);
        lemma_leading_delimiter(directive + delimiter() + after);
        lemma_part_then_delimiter(directive, after);
        lemma_body_then_document(body, rest);
        lemma_unpaired_unfolds(pairs);
        assert(seq![directive] + (seq![body] + unpaired(rest)) =~= seq![directive, body]
            + unpaired(rest));
    }
}

/// Pairing undoes unpairing.
proof fn lemma_paired_unpaired(pairs: Seq<(Seq<char>, Seq<char>)>)
    ensures
        unpaired(pairs).len() % 2 == 0,
        paired(unpaired(pairs)) == pairs,
{
    let parts = unpaired(pairs);
    assert(parts.len() == 2 * pairs.len());
    assert(parts.len() / 2 == pairs.len());
    assert forall|i: int| 0 <= i < pairs.len() implies paired(parts)[i] == pairs[i] by {
        assert((2 * i) % 2 == 0);
        assert((2 * i) / 2 == i);
        assert((2 * i + 1) % 2 == 1);
        assert((2 * i + 1) / 2 == i);
    }
    assert(paired(parts) =~= pairs);
}

/// Splitting undoes composing. A document made of N pairs of parts, in
/// which no carriage return stands before a line feed, holds exactly those
/// N pairs, in their order.
pub proof fn lemma_composed_document(pairs: Seq<(Seq<char>, Seq<char>)>)
    requires
        forall|i: int| 0 <= i < pairs.len() ==> is_part((#[trigger] pairs[i]).0) && is_part(pairs[i].1),
        !has_crlf(composed(pairs)),
    ensures
        document_of(composed(pairs)) == Some(pairs),
{
    lemma_normalized_plain(composed(pairs));
    lemma_composed_parts(pairs);
    lemma_paired_unpaired(pairs);
}

/// Whether the characters from `from` up to `to` are all white space.
fn blank_between(t: &Vec<char>, from: usize, to: usize) -> (b: bool)
    requires
        from <= to <= t.len(),
    ensures
        b == is_blank(t@.subrange(from as int, to as int)),
{
    let ghost part = t@.subrange(from as int, to as int);
    let mut k: usize = from;
    while k < to
        invariant
            from <= k <= to <= t.len(),
            part == t@.subrange(from as int, to as int),
            forall|i: int| 0 <= i < k - from ==> is_space(#[trigger] part[i]),
        decreases to - k,
    {
        let c = t[k];
        if !(c == ' ' || c == '\t' || c == '\n' || c == '\x0c' || c == '\r') {
            proof {
                assert(part[k - from] == c);
            }
            return false;
        }
        proof {
            assert(part[k - from] == c);
        }
        k = k + 1;
    }
    true
}

/// The characters from `from` up to `to`, as a string.
fn text_between(t: &Vec<char>, from: usize, to: usize) -> (s: String)
    requires
        from <= to <= t.len(),
    ensures
        s@ == t@.subrange(from as int, to as int),
{
    let mut piece: Vec<char> = Vec::new();
    let mut k: usize = from;
    while k < to
        invariant
            from <= k <= to <= t.len(),
            piece@ == t@.subrange(from as int, k as int),
        decreases to - k,
    {
        piece.push(t[k]);
        proof {
            assert(piece@ =~= t@.subrange(from as int, k + 1));
        }
        k = k + 1;
    }
    string_of(&piece)
}

/// Cuts a text, given by its characters, at its delimiter lines, and returns
/// the parts that count, in order.
pub fn split_parts(t: &Vec<char>) -> (parts: Vec<String>)
    ensures
        views(parts@) == parts_of(t@),
{
    let mut parts: Vec<String> = Vec::new();
    let mut start: usize = 0;
    let mut pos: usize = 0;
    while pos < t.len()
        invariant
            start <= pos <= t.len(),
            next_delimiter(t@, pos as int) == next_delimiter(t@, start as int),
            views(parts@) + parts_from(t@, start as int) == parts_of(t@),
        decreases t.len() - pos,
    {
        if t.len() - pos >= 4 && t[pos] == '-' && t[pos + 1] == '-' && t[pos + 2] == '-' && t[pos
            + 3] == '\n' {
            proof {
                assert(delimiter_at(t@, pos as int));
                assert(next_delimiter(t@, start as int) == pos);
            }
            let ghost before = parts@;
            if !blank_between(t, start, pos) {
                let part = text_between(t, start, pos);
                parts.push(part);
                proof {
                    assert(views(parts@) =~= views(before) + seq![part@]);
                }
            }
            proof {
                assert(views(parts@) + parts_from(t@, pos + 4) =~= views(before) + parts_from(
                    t@,
                    start as int,
                ));
            }
            start = pos + 4;
            pos = start;
        } else {
            proof {
                assert(!delimiter_at(t@, pos as int));
                lemma_line_end_bounds(t@, pos as int);
            }
            let mut end: usize = pos;
            while end < t.len() && t[end] != '\n'
                invariant
                    pos <= end <= t.len(),
                    line_end(t@, end as int) == line_end(t@, pos as int),
                decreases t.len() - end,
            {
                end = end + 1;
            }
            pos = if end < t.len() {
                end + 1
            } else {
                end
            };
        }
    }
    let ghost before = parts@;
    proof {
        assert(next_delimiter(t@, start as int) == t@.len());
    }
    if !blank_between(t, start, t.len()) {
        let part = text_between(t, start, t.len());
        parts.push(part);
        proof {
            assert(views(parts@) =~= views(before) + seq![part@]);
        }
    }
    proof {
        assert(views(parts@) =~= views(before) + parts_from(t@, start as int));
    }
    parts
}

/// Splits a rendered document into its pairs of directive and body. CRLF
/// pairs are read as line feeds. Fails exactly where the number of parts
/// that count is odd.
pub fn parse_template(input: &str) -> (r: Result<Vec<(String, String)>, Error>)
    ensures
        r is Ok <==> document_of(input@) is Some,
        r matches Ok(pairs) ==> Some(pair_views(pairs@)) == document_of(input@),
        r matches Ok(pairs) ==> 2 * pairs@.len() == parts_of(normalized(input@)).len(),
        r matches Err(e) ==> e@ == ErrorView::UnpairedPart,
{
    let raw = chars_of(input);
    let t = normalize_chars(&raw);
    let mut parts = split_parts(&t);
    if parts.len() % 2 != 0 {
        return Err(Error::UnpairedPart);
    }
    let ghost all = views(parts@);
    let mut pairs: Vec<(String, String)> = Vec::new();
    let mut i: usize = 0;
    while i < parts.len()
        invariant
            i <= parts.len(),
            i % 2 == 0,
            parts.len() % 2 == 0,
            all == views(parts@),
            2 * pairs@.len() == i,
            forall|k: int|
                0 <= k < pairs@.len() ==> (#[trigger] pairs@[k]).0@ == all[2 * k] && pairs@[k].1@
                    == all[2 * k + 1],
        decreases parts.len() - i,
    {
        let directive = parts[i].clone();
        let body = parts[i + 1].clone();
        proof {
            assert(all[i as int] == parts@[i as int]@);
            assert(all[i + 1] == parts@[i + 1]@);
        }
        pairs.push((directive, body));
        i = i + 2;
    }
    proof {
        assert(pair_views(pairs@) =~= paired(all));
    }
    Ok(pairs)
}

} // verus!
