//! Which lines of a text an edit acts on.

use crate::pattern::{is_match, Pattern};
use crate::text::views;
use vstd::prelude::*;

verus! {

/// Which of the matching lines are chosen.
#[derive(Debug, Clone, Copy)]
pub enum MatchPositions {
    /// Every matching line.
    All,
    /// The matching line with the smallest index.
    First,
    /// The matching line with the largest index.
    Last,
}

/// Whether line `i` is chosen: it matches, and under `First` no line before
/// it does, under `Last` no line after it does.
pub open spec fn selected(
    source: Seq<char>,
    lines: Seq<Seq<char>>,
    mode: MatchPositions,
    i: int,
) -> bool {
    &&& 0 <= i < lines.len()
    &&& is_match(source, lines[i])
    &&& match mode {
        MatchPositions::All => true,
        MatchPositions::First => forall|j: int| 0 <= j < i ==> !is_match(source, #[trigger] lines[j]),
        MatchPositions::Last => forall|j: int|
            i < j < lines.len() ==> !is_match(source, #[trigger] lines[j]),
    }
}

/// Whether each element is smaller than the next.
pub open spec fn ascending(v: Seq<usize>) -> bool {
    forall|a: int, b: int| 0 <= a < b < v.len() ==> v[a] < v[b]
}

/// Whether `found` holds, in ascending order, exactly the indices below
/// `upto` of the lines that match.
pub open spec fn holds_matches(
    found: Seq<usize>,
    source: Seq<char>,
    lines: Seq<Seq<char>>,
    upto: int,
) -> bool {
    &&& ascending(found)
    &&& forall|k: int| 0 <= k < found.len() ==> (#[trigger] found[k]) < upto && is_match(source, lines[found[k] as int])
    &&& forall|i: int| 0 <= i < upto && is_match(source, #[trigger] lines[i]) ==> found.contains(i as usize)
}

/// The indices of the lines that the pattern matches, chosen by `mode`, in
/// ascending order. Where no line matches, the result is empty.
pub fn find_positions(lines: &Vec<String>, pattern: &Pattern, mode: &MatchPositions) -> (found: Vec<
    usize,
>)
    ensures
        ascending(found@),
        forall|i: int|
            0 <= i <= usize::MAX ==> (found@.contains(i as usize) <==> selected(
                pattern@,
                views(lines@),
                *mode,
                i,
            )),
        !(mode is All) ==> found@.len() <= 1,
{
    let ghost texts = views(lines@);
    let mut matching: Vec<usize> = Vec::new();
    let mut i: usize = 0;
    while i < lines.len()
        invariant
            i <= lines.len(),
            texts == views(lines@),
            holds_matches(matching@, pattern@, texts, i as int),
        decreases lines.len() - i,
    {
        let ghost before = matching@;
        if pattern.is_match(lines[i].as_str()) {
            matching.push(i);
            proof {
                assert(texts[i as int] == lines@[i as int]@);
                assert(matching@[before.len() as int] == i);
                assert forall|j: int|
                    0 <= j < i + 1 && is_match(pattern@, #[trigger] texts[j]) implies matching@.contains(
                    j as usize,
                ) by {
                    if j < i {
                        let k = choose|k: int| 0 <= k < before.len() && before[k] == j as usize;
                        assert(matching@[k] == j as usize);
                    }
                }
            }
        } else {
            proof {
                assert(texts[i as int] == lines@[i as int]@);
            }
        }
        i = i + 1;
    }
    let found = match mode {
        MatchPositions::All => matching,
        MatchPositions::First => {
            let mut one: Vec<usize> = Vec::new();
            if matching.len() > 0 {
                one.push(matching[0]);
            }
            one
        },
        MatchPositions::Last => {
            let mut one: Vec<usize> = Vec::new();
            if matching.len() > 0 {
                one.push(matching[matching.len() - 1]);
            }
            one
        },
    };
    proof {
        let n = lines@.len() as int;
        assert forall|p: int| 0 <= p <= usize::MAX implies (found@.contains(p as usize) <==> selected(
            pattern@,
            texts,
            *mode,
            p,
        )) by {
            if found@.contains(p as usize) {
                let k = choose|k: int| 0 <= k < found@.len() && found@[k] == p as usize;
                match mode {
                    MatchPositions::All => {},
                    MatchPositions::First => {
                        assert(p == matching@[0]);
                        assert forall|j: int| 0 <= j < p implies !is_match(
                            pattern@,
                            #[trigger] texts[j],
                        ) by {
                            if is_match(pattern@, texts[j]) {
                                let m = choose|m: int|
                                    0 <= m < matching@.len() && matching@[m] == j as usize;
                                assert(m == 0 || matching@[0] < matching@[m]);
                            }
                        }
                    },
                    MatchPositions::Last => {
                        let last = matching@.len() - 1;
                        assert(p == matching@[last]);
                        assert forall|j: int| p < j < n implies !is_match(
                            pattern@,
                            #[trigger] texts[j],
                        ) by {
                            if is_match(pattern@, texts[j]) {
                                let m = choose|m: int|
                                    0 <= m < matching@.len() && matching@[m] == j as usize;
                                assert(m == last || matching@[m] < matching@[last]);
                            }
                        }
                    },
                }
            }
            if selected(pattern@, texts, *mode, p) {
                assert(matching@.contains(p as usize));
                let m = choose|m: int| 0 <= m < matching@.len() && matching@[m] == p as usize;
                match mode {
                    MatchPositions::All => {},
                    MatchPositions::First => {
                        if m != 0 {
                            assert(matching@[0] < matching@[m]);
                            assert(is_match(pattern@, texts[matching@[0] as int]));
                        }
                        assert(found@[0] == p as usize);
                    },
                    MatchPositions::Last => {
                        let last = matching@.len() - 1;
                        if m != last {
                            assert(matching@[m] < matching@[last]);
                            assert(is_match(pattern@, texts[matching@[last] as int]));
                        }
                        assert(found@[0] == p as usize);
                    },
                }
            }
        }
    }
    found
}

} // verus!
