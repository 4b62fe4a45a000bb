//! JSON documents inside scripts.
use crate::text::{
    chars_of, find_from, holds_text, is_first_at, is_space, is_white_space, occurs_at, string_of,
    trim_start_by,
};
use crate::weburl::optional_text;
use vstd::prelude::*;

verus! {

/// Where a reader of bracketed text stands: the brackets that are open, whether
/// it is inside a string and behind a backslash there, and whether a bracket
/// was closed that was not open.
pub struct Scan {
    pub open: Seq<char>,
    pub in_string: bool,
    pub escaped: bool,
    pub broken: bool,
}

/// The opening bracket that belongs to a closing one.
pub open spec fn opening(closing: char) -> char {
    if closing == '}' {
        '{'
    } else {
        '['
    }
}

/// The reader after one more character.
pub open spec fn scan_step(scan: Scan, character: char) -> Scan {
    if scan.broken {
        scan
    } else if scan.in_string {
        if scan.escaped {
            Scan { escaped: false, ..scan }
        } else if character == '\\' {
            Scan { escaped: true, ..scan }
        } else if character == '"' {
            Scan { in_string: false, ..scan }
        } else {
            scan
        }
    } else if character == '"' {
        Scan { in_string: true, ..scan }
    } else if character == '{' || character == '[' {
        Scan { open: scan.open.push(character), ..scan }
    } else if character == '}' || character == ']' {
        if scan.open.len() > 0 && scan.open.last() == opening(character) {
            Scan { open: scan.open.drop_last(), ..scan }
        } else {
            Scan { broken: true, ..scan }
        }
    } else {
        scan
    }
}

/// The reader after `text`.
pub open spec fn scanned(text: Seq<char>) -> Scan
    decreases text.len(),
{
    if text.len() == 0 {
        Scan { open: Seq::empty(), in_string: false, escaped: false, broken: false }
    } else {
        scan_step(scanned(text.drop_last()), text.last())
    }
}

/// All brackets of `text` are closed in order.
pub open spec fn is_balanced(text: Seq<char>) -> bool {
    !scanned(text).broken && scanned(text).open.len() == 0
}

/// The first `count` characters, and no fewer but none, are balanced.
pub open spec fn is_balanced_prefix(text: Seq<char>, count: int) -> bool {
    &&& 1 <= count <= text.len()
    &&& is_balanced(text.take(count))
    &&& forall|fewer: int| 1 <= fewer < count ==> !is_balanced(#[trigger] text.take(fewer))
}

/// The first position at which `part` stands in `text`.
pub open spec fn first_position(text: Seq<char>, part: Seq<char>) -> int {
    choose|at: int| is_first_at(text, part, at)
}

/// What follows the equals sign after the first `marker`, without leading
/// white space.
pub open spec fn assigned_text(script: Seq<char>, marker: Seq<char>) -> Option<Seq<char>> {
    if !holds_text(script, marker) {
        None
    } else {
        let after = script.skip(first_position(script, marker) + marker.len());
        if !holds_text(after, seq!['=']) {
            None
        } else {
            Some(
                trim_start_by(
                    after.skip(first_position(after, seq!['=']) + 1),
                    |character: char| is_space(character),
                ),
            )
        }
    }
}

/// The bracketed text that a script assigns to `marker`: what follows the
/// marker's equals sign, if it opens with a bracket, up to where that bracket is
/// closed.
pub open spec fn balanced_json(script: Seq<char>, marker: Seq<char>) -> Option<Seq<char>> {
    match assigned_text(script, marker) {
        None => None,
        Some(rest) => if rest.len() > 0 && (rest[0] == '{' || rest[0] == '[') && exists|count: int|
            is_balanced_prefix(rest, count) {
            Some(rest.take(choose|count: int| is_balanced_prefix(rest, count)))
        } else {
            None
        },
    }
}

proof fn lemma_first_position(text: Seq<char>, part: Seq<char>, at: int)
    requires
        is_first_at(text, part, at),
    ensures
        holds_text(text, part),
        first_position(text, part) == at,
{
    let found = first_position(text, part);
    assert(is_first_at(text, part, found));
    if found < at {
        assert(!occurs_at(text, part, found));
    }
    if at < found {
        assert(!occurs_at(text, part, at));
    }
}

proof fn lemma_balanced_prefix(text: Seq<char>, count: int)
    requires
        is_balanced_prefix(text, count),
    ensures
        (choose|other: int| is_balanced_prefix(text, other)) == count,
{
    let found = choose|other: int| is_balanced_prefix(text, other);
    assert(is_balanced_prefix(text, found));
    if found < count {
        assert(!is_balanced(text.take(found)));
    }
    if count < found {
        assert(!is_balanced(text.take(count)));
    }
}

/// Once broken, the reader stays so.
proof fn lemma_stays_broken(text: Seq<char>, count: int)
    requires
        0 <= count <= text.len(),
        scanned(text.take(count)).broken,
    ensures
        forall|more: int| count <= more <= text.len() ==> scanned(#[trigger] text.take(more)).broken,
    decreases text.len() - count,
{
    assert forall|more: int| count <= more <= text.len() implies scanned(
        #[trigger] text.take(more),
    ).broken by {
        if more > count {
            assert(text.take(count + 1).drop_last() =~= text.take(count));
            lemma_stays_broken(text, count + 1);
        }
    }
}

/// The characters of `text[from..]` up to where the brackets are balanced.
fn balanced_end(text: &Vec<char>, from: usize) -> (end: Option<usize>)
    requires
        from < text@.len(),
        text@[from as int] == '{' || text@[from as int] == '[',
    ensures
        match end {
            Some(end) => from < end <= text@.len() && is_balanced_prefix(
                text@.skip(from as int),
                end - from,
            ),
            None => forall|count: int| !is_balanced_prefix(text@.skip(from as int), count),
        },
{
    let ghost rest = text@.skip(from as int);
    let mut open: Vec<char> = Vec::new();
    let mut in_string = false;
    let mut escaped = false;
    let mut at: usize = from;
    assert(rest.take(0) =~= Seq::<char>::empty());
    while at < text.len()
        invariant
            from <= at <= text@.len(),
            from < text@.len(),
            rest == text@.skip(from as int),
            rest[0] == '{' || rest[0] == '[',
            scanned(rest.take(at - from)) == (Scan {
                open: open@,
                in_string,
                escaped,
                broken: false,
            }),
            at > from ==> open@.len() > 0,
            at == from ==> !in_string,
            forall|fewer: int| 1 <= fewer <= at - from ==> !is_balanced(#[trigger] rest.take(fewer)),
        decreases text@.len() - at,
    {
        let character = text[at];
        assert(rest[at - from] == character);
        assert(rest.take(at - from + 1).drop_last() =~= rest.take(at - from));
        let ghost before = open@;
        at = at + 1;
        if in_string {
            if escaped {
                escaped = false;
            } else if character == '\\' {
                escaped = true;
            } else if character == '"' {
                in_string = false;
            }
        } else if character == '"' {
            in_string = true;
        } else if character == '{' || character == '[' {
            open.push(character);
        } else if character == '}' || character == ']' {
            let expected = if character == '}' {
                '{'
            } else {
                '['
            };
            let popped = open.pop();
            let matching = match popped {
                Some(bracket) => bracket == expected,
                None => false,
            };
            if !matching {
                proof {
                    lemma_stays_broken(rest, at - from);
                    assert forall|count: int| !is_balanced_prefix(rest, count) by {
                        if is_balanced_prefix(rest, count) {
                            if count <= at - from - 1 {
                                assert(!is_balanced(rest.take(count)));
                            } else {
                                assert(scanned(rest.take(count)).broken);
                            }
                        }
                    }
                }
                return None;
            }
            assert(open@ =~= before.drop_last());
            if open.len() == 0 {
                assert(is_balanced(rest.take(at - from)));
                return Some(at);
            }
        }
    }
    assert forall|count: int| !is_balanced_prefix(rest, count) by {
        if is_balanced_prefix(rest, count) {
            assert(!is_balanced(rest.take(count)));
        }
    }
    None
}

/// The bracketed text that a script assigns to `marker`; see [`balanced_json`].
pub fn balanced_json_after_assignment(script: &str, marker: &str) -> (json: Option<String>)
    ensures
        optional_text(json) == balanced_json(script@, marker@),
{
    let chars = chars_of(script);
    let mark = chars_of(marker);
    let found = match find_from(&chars, &mark, 0) {
        Some(at) => at,
        None => {
            return None;
        },
    };
    proof {
        lemma_first_position(script@, marker@, found as int);
    }
    assert(found + mark@.len() <= chars.len());
    let behind: usize = found + mark.len();
    let ghost after = script@.skip(behind as int);
    let mut equals: Vec<char> = Vec::new();
    equals.push('=');
    assert(equals@ =~= seq!['=']);
    let sign = find_from(&chars, &equals, behind);
    proof {
        assert forall|at: int| occurs_at(after, seq!['='], at) <==> at >= 0 && occurs_at(
            chars@,
            seq!['='],
            behind + at,
        ) by {
            if 0 <= at && at + 1 <= after.len() {
                assert(after.subrange(at, at + 1) =~= chars@.subrange(behind + at, behind + at + 1));
            }
        }
    }
    let sign = match sign {
        Some(at) => at,
        None => {
            assert forall|at: int| !occurs_at(after, seq!['='], at) by {
                if occurs_at(after, seq!['='], at) {
                    assert(occurs_at(chars@, seq!['='], behind + at));
                }
            }
            return None;
        },
    };
    proof {
        assert(occurs_at(chars@, seq!['='], behind + (sign - behind)));
        assert(occurs_at(after, seq!['='], sign - behind));
        assert(is_first_at(after, seq!['='], sign - behind));
        lemma_first_position(after, seq!['='], sign - behind);
    }
    let mut start: usize = sign + 1;
    let ghost space = |character: char| is_space(character);
    let ghost behind_sign = after.skip(sign - behind + 1);
    assert(behind_sign =~= chars@.skip(start as int));
    while start < chars.len() && is_white_space(chars[start])
        invariant
            start <= chars@.len(),
            space == (|character: char| is_space(character)),
            trim_start_by(chars@.skip(start as int), space) == trim_start_by(behind_sign, space),
        decreases chars@.len() - start,
    {
        assert(chars@.skip(start as int).skip(1) =~= chars@.skip(start + 1));
        start = start + 1;
    }
    let ghost rest = chars@.skip(start as int);
    assert(assigned_text(script@, marker@) == Some(rest));
    if start >= chars.len() || (chars[start] != '{' && chars[start] != '[') {
        return None;
    }
    match balanced_end(&chars, start) {
        Some(end) => {
            proof {
                lemma_balanced_prefix(rest, end - start);
            }
            assert(rest.take(end - start) =~= chars@.subrange(start as int, end as int));
            Some(string_of(&chars, start, end))
        },
        None => None,
    }
}

/// What is left of a text without its leading characters is its end.
proof fn lemma_trim_start(text: Seq<char>, drop: spec_fn(char) -> bool)
    ensures
        trim_start_by(text, drop).is_suffix_of(text),
    decreases text.len(),
{
    if text.len() > 0 && drop(text[0]) {
        lemma_trim_start(text.skip(1), drop);
        let rest = trim_start_by(text.skip(1), drop);
        assert(text.skip(1).subrange(text.len() - 1 - rest.len(), text.len() - 1)
            =~= text.subrange(text.len() - rest.len(), text.len() as int));
    } else {
        assert(text.subrange(0, text.len() as int) =~= text);
    }
}

/// The bracketed text that a script assigns stands in the script, opens with a
/// bracket, and is balanced where it ends and nowhere before.
pub proof fn assigned_documents_are_balanced(
    script: Seq<char>,
    marker: Seq<char>,
    json: Seq<char>,
)
    requires
        balanced_json(script, marker) == Some(json),
    ensures
        holds_text(script, json),
        json.len() > 0,
        json[0] == '{' || json[0] == '[',
        is_balanced(json),
        forall|fewer: int| 1 <= fewer < json.len() ==> !is_balanced(#[trigger] json.take(fewer)),
{
    let rest = assigned_text(script, marker)->0;
    let count = choose|count: int| is_balanced_prefix(rest, count);
    assert(is_balanced_prefix(rest, count));
    assert forall|fewer: int| 1 <= fewer < json.len() implies !is_balanced(
        #[trigger] json.take(fewer),
    ) by {
        assert(json.take(fewer) =~= rest.take(fewer));
    }
    let at = first_position(script, marker);
    assert(holds_text(script, marker));
    lemma_has_first(script, marker);
    let after = script.skip(at + marker.len());
    lemma_has_first(after, seq!['=']);
    let sign = first_position(after, seq!['=']);
    let behind = after.skip(sign + 1);
    lemma_trim_start(behind, |character: char| is_space(character));
    let from = script.len() - rest.len();
    assert(script.subrange(from, from + count) =~= json) by {
        assert(behind =~= script.skip(at + marker.len() + sign + 1));
        assert(rest =~= behind.subrange(behind.len() - rest.len(), behind.len() as int));
    }
    assert(occurs_at(script, json, from));
}

/// A text that stands in another has a first position there.
pub proof fn lemma_has_first(text: Seq<char>, part: Seq<char>)
    requires
        holds_text(text, part),
    ensures
        is_first_at(text, part, first_position(text, part)),
{
    let found = choose|at: int| occurs_at(text, part, at);
    lemma_has_first_before(text, part, found);
}

proof fn lemma_has_first_before(text: Seq<char>, part: Seq<char>, found: int)
    requires
        occurs_at(text, part, found),
    ensures
        exists|at: int| is_first_at(text, part, at),
    decreases found,
{
    if exists|before: int| 0 <= before < found && occurs_at(text, part, before) {
        let before = choose|before: int| 0 <= before < found && occurs_at(text, part, before);
        lemma_has_first_before(text, part, before);
    } else {
        assert(is_first_at(text, part, found));
    }
}

} // verus!
