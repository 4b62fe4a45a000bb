//! Character-level text operations, each stated over the text's sequence of
//! characters.
use crate::patterns::texts_model;
use vstd::prelude::*;
use vstd::string::*;
use vstd::utf8::{encode_utf8, encode_utf8_decode_utf8};

verus! {

/// `String::push`: the character is added at the end.
pub assume_specification[ String::push ](text: &mut String, character: char)
    ensures
        final(text)@ == old(text)@.push(character),
;

/// `character` with the ASCII capital letters mapped to small ones.
pub open spec fn lower_char(character: char) -> char {
    if 'A' <= character && character <= 'Z' {
        ((character as u32 + 32) as u32) as char
    } else {
        character
    }
}

/// `text` with the ASCII capital letters mapped to small ones.
pub open spec fn lower(text: Seq<char>) -> Seq<char> {
    text.map_values(|character: char| lower_char(character))
}

/// The characters of the Unicode property `White_Space`.
pub open spec fn is_space(character: char) -> bool {
    let code = character as u32;
    ||| 0x09 <= code <= 0x0d
    ||| code == 0x20
    ||| code == 0x85
    ||| code == 0xa0
    ||| code == 0x1680
    ||| 0x2000 <= code <= 0x200a
    ||| code == 0x2028
    ||| code == 0x2029
    ||| code == 0x202f
    ||| code == 0x205f
    ||| code == 0x3000
}

pub open spec fn is_digit(character: char) -> bool {
    '0' <= character && character <= '9'
}

pub open spec fn is_alphanumeric(character: char) -> bool {
    ||| is_digit(character)
    ||| 'a' <= character && character <= 'z'
    ||| 'A' <= character && character <= 'Z'
}

/// Letters, digits, `-`, `_` and `.`: what a served file may be named with.
pub open spec fn is_name_char(character: char) -> bool {
    is_alphanumeric(character) || character == '-' || character == '_' || character == '.'
}

pub open spec fn all_digits(text: Seq<char>) -> bool {
    forall|i: int| 0 <= i < text.len() ==> is_digit(#[trigger] text[i])
}

pub open spec fn all_name_chars(text: Seq<char>) -> bool {
    forall|i: int| 0 <= i < text.len() ==> is_name_char(#[trigger] text[i])
}

/// `text` without the leading characters that `drop` holds of.
pub open spec fn trim_start_by(text: Seq<char>, drop: spec_fn(char) -> bool) -> Seq<char>
    decreases text.len(),
{
    if text.len() > 0 && drop(text[0]) {
        trim_start_by(text.skip(1), drop)
    } else {
        text
    }
}

/// `text` without the trailing characters that `drop` holds of.
pub open spec fn trim_end_by(text: Seq<char>, drop: spec_fn(char) -> bool) -> Seq<char>
    decreases text.len(),
{
    if text.len() > 0 && drop(text.last()) {
        trim_end_by(text.drop_last(), drop)
    } else {
        text
    }
}

/// Trimming the end drops trailing characters until one is kept.
pub proof fn lemma_trim_end(text: Seq<char>, drop: spec_fn(char) -> bool)
    ensures
        trim_end_by(text, drop).is_prefix_of(text),
        trim_end_by(text, drop).len() > 0 ==> !drop(trim_end_by(text, drop).last()),
    decreases text.len(),
{
    if text.len() > 0 && drop(text.last()) {
        lemma_trim_end(text.drop_last(), drop);
    }
}

/// `text` without the white space at both ends.
pub open spec fn trimmed(text: Seq<char>) -> Seq<char> {
    trim_end_by(
        trim_start_by(text, |character: char| is_space(character)),
        |character: char| is_space(character),
    )
}

/// `part` stands in `text` at position `at`.
pub open spec fn occurs_at(text: Seq<char>, part: Seq<char>, at: int) -> bool {
    &&& 0 <= at
    &&& at + part.len() <= text.len()
    &&& text.subrange(at, at + part.len()) == part
}

/// `part` stands somewhere in `text`.
pub open spec fn holds_text(text: Seq<char>, part: Seq<char>) -> bool {
    exists|at: int| occurs_at(text, part, at)
}

/// The first position at which `part` stands in `text`.
pub open spec fn is_first_at(text: Seq<char>, part: Seq<char>, at: int) -> bool {
    &&& occurs_at(text, part, at)
    &&& forall|before: int| 0 <= before < at ==> !occurs_at(text, part, before)
}

/// What follows the last `mark` in `text`; all of `text` where there is none.
pub open spec fn after_last(text: Seq<char>, mark: char) -> Seq<char>
    decreases text.len(),
{
    if text.len() == 0 || text.last() == mark {
        Seq::empty()
    } else {
        after_last(text.drop_last(), mark).push(text.last())
    }
}

/// The pieces of `text` between the occurrences of `mark`.
pub open spec fn split_at_mark(text: Seq<char>, mark: char) -> Seq<Seq<char>>
    decreases text.len(),
{
    if text.len() == 0 {
        seq![Seq::empty()]
    } else {
        let before = split_at_mark(text.drop_last(), mark);
        if text.last() == mark {
            before.push(Seq::empty())
        } else {
            before.drop_last().push(before.last().push(text.last()))
        }
    }
}

/// The decimal digits of `number`.
pub open spec fn decimal(number: nat) -> Seq<char>
    decreases number,
{
    if number < 10 {
        seq![digit_char(number)]
    } else {
        decimal(number / 10).push(digit_char(number % 10))
    }
}

pub open spec fn digit_char(digit: nat) -> char {
    (('0' as u32 + digit) as u32) as char
}

/// The characters of `text`, in order.
pub fn chars_of(text: &str) -> (chars: Vec<char>)
    ensures
        chars@ == text@,
{
    let mut chars: Vec<char> = Vec::new();
    for character in iter: text.chars()
        invariant
            chars@ == text@.take(iter.index()),
            iter.seq() == text@,
    {
        chars.push(character);
        assert(chars@ =~= text@.take(iter.index() + 1));
    }
    assert(text@.take(text@.len() as int) =~= text@);
    chars
}

/// The text of `chars[from..to]`.
pub fn string_of(chars: &Vec<char>, from: usize, to: usize) -> (text: String)
    requires
        from <= to <= chars@.len(),
    ensures
        text@ == chars@.subrange(from as int, to as int),
{
    let mut text = String::new();
    let mut at: usize = from;
    while at < to
        invariant
            from <= at <= to <= chars@.len(),
            text@ == chars@.subrange(from as int, at as int),
        decreases to - at,
    {
        text.push(chars[at]);
        at = at + 1;
        assert(text@ =~= chars@.subrange(from as int, at as int));
    }
    text
}

/// A copy of `text`.
pub fn owned(text: &str) -> (copy: String)
    ensures
        copy@ == text@,
{
    text.to_owned()
}

/// The parts one after the other.
pub fn join2(first: &str, second: &str) -> (text: String)
    ensures
        text@ == first@ + second@,
{
    let mut text = first.to_owned();
    text.append(second);
    text
}

/// The parts one after the other.
pub fn join3(first: &str, second: &str, third: &str) -> (text: String)
    ensures
        text@ == first@ + second@ + third@,
{
    let mut text = first.to_owned();
    text.append(second);
    text.append(third);
    text
}

/// Whether the two texts are the same.
pub fn same(left: &str, right: &str) -> (equal: bool)
    ensures
        equal == (left@ == right@),
{
    let first = left.as_bytes();
    let second = right.as_bytes();
    proof {
        encode_utf8_decode_utf8(left@);
        encode_utf8_decode_utf8(right@);
    }
    if first.len() != second.len() {
        return false;
    }
    let mut at: usize = 0;
    while at < first.len()
        invariant
            at <= first@.len(),
            first@ == encode_utf8(left@),
            second@ == encode_utf8(right@),
            first@.len() == second@.len(),
            forall|i: int| 0 <= i < at ==> first@[i] == second@[i],
        decreases first@.len() - at,
    {
        if first[at] != second[at] {
            return false;
        }
        at = at + 1;
    }
    assert(first@ =~= second@);
    true
}

/// Whether `part` stands in `text` at position `at`.
pub fn occurs(text: &Vec<char>, part: &Vec<char>, at: usize) -> (found: bool)
    ensures
        found == occurs_at(text@, part@, at as int),
{
    if text.len() < part.len() || at > text.len() - part.len() {
        return false;
    }
    let mut offset: usize = 0;
    assert(text@.len() == text.len());
    while offset < part.len()
        invariant
            offset <= part@.len(),
            at + part@.len() <= text@.len(),
            text@.len() <= usize::MAX,
            forall|i: int| 0 <= i < offset ==> text@[at + i] == part@[i],
        decreases part@.len() - offset,
    {
        if text[at + offset] != part[offset] {
            assert(text@.subrange(at as int, at + part@.len())[offset as int] != part@[offset as int]);
            return false;
        }
        offset = offset + 1;
    }
    assert(text@.subrange(at as int, at + part@.len()) =~= part@);
    true
}

/// The first position at or after `from` at which `part` stands in `text`.
pub fn find_from(text: &Vec<char>, part: &Vec<char>, from: usize) -> (found: Option<usize>)
    requires
        from <= text@.len(),
    ensures
        match found {
            Some(at) => {
                &&& from <= at
                &&& occurs_at(text@, part@, at as int)
                &&& forall|before: int|
                    from <= before < at ==> !occurs_at(text@, part@, before)
            },
            None => forall|at: int| from <= at ==> !occurs_at(text@, part@, at),
        },
{
    let mut at: usize = from;
    loop
        invariant
            from <= at <= text@.len(),
            forall|before: int| from <= before < at ==> !occurs_at(text@, part@, before),
        decreases text@.len() - at,
    {
        if occurs(text, part, at) {
            return Some(at);
        }
        if at == text.len() {
            return None;
        }
        at = at + 1;
    }
}

/// Whether `part` stands somewhere in `text`.
pub fn contains(text: &str, part: &str) -> (found: bool)
    ensures
        found == holds_text(text@, part@),
{
    let text = chars_of(text);
    let part = chars_of(part);
    match find_from(&text, &part, 0) {
        Some(at) => {
            assert(occurs_at(text@, part@, at as int));
            true
        },
        None => false,
    }
}

/// Whether `text` begins with `prefix`.
pub fn starts_with(text: &str, prefix: &str) -> (found: bool)
    ensures
        found == prefix@.is_prefix_of(text@),
{
    let text = chars_of(text);
    let prefix = chars_of(prefix);
    occurs(&text, &prefix, 0)
}

/// Whether `text` ends with `suffix`.
pub fn ends_with(text: &str, suffix: &str) -> (found: bool)
    ensures
        found == suffix@.is_suffix_of(text@),
{
    let text = chars_of(text);
    let suffix = chars_of(suffix);
    if text.len() < suffix.len() {
        return false;
    }
    let at: usize = text.len() - suffix.len();
    occurs(&text, &suffix, at)
}

pub fn lower_of(character: char) -> (small: char)
    ensures
        small == lower_char(character),
{
    if 'A' <= character && character <= 'Z' {
        ((character as u8) + 32) as char
    } else {
        character
    }
}

/// `text` with the ASCII capital letters mapped to small ones.
pub fn to_lower(text: &str) -> (small: String)
    ensures
        small@ == lower(text@),
{
    let mut small = String::new();
    for character in iter: text.chars()
        invariant
            small@ == lower(text@.take(iter.index())),
            iter.seq() == text@,
    {
        small.push(lower_of(character));
        assert(small@ =~= lower(text@.take(iter.index() + 1)));
    }
    assert(text@.take(text@.len() as int) =~= text@);
    small
}

pub fn is_white_space(character: char) -> (found: bool)
    ensures
        found == is_space(character),
{
    let code: u32 = character as u32;
    (0x09 <= code && code <= 0x0d) || code == 0x20 || code == 0x85 || code == 0xa0
        || code == 0x1680 || (0x2000 <= code && code <= 0x200a) || code == 0x2028
        || code == 0x2029 || code == 0x202f || code == 0x205f || code == 0x3000
}

pub fn is_ascii_digit(character: char) -> (found: bool)
    ensures
        found == is_digit(character),
{
    '0' <= character && character <= '9'
}

pub fn is_ascii_alphanumeric(character: char) -> (found: bool)
    ensures
        found == is_alphanumeric(character),
{
    is_ascii_digit(character) || ('a' <= character && character <= 'z') || ('A' <= character
        && character <= 'Z')
}

/// `text` without the white space at both ends.
pub fn trim(text: &str) -> (inner: String)
    ensures
        inner@ == trimmed(text@),
{
    let chars = chars_of(text);
    let ghost space = |character: char| is_space(character);
    let mut from: usize = 0;
    assert(chars@.skip(0) =~= chars@);
    while from < chars.len() && is_white_space(chars[from])
        invariant
            from <= chars@.len(),
            space == (|character: char| is_space(character)),
            trim_start_by(chars@.skip(from as int), space) == trim_start_by(chars@, space),
        decreases chars@.len() - from,
    {
        assert(chars@.skip(from as int).skip(1) =~= chars@.skip(from + 1));
        from = from + 1;
    }
    assert(trim_start_by(chars@, space) == chars@.skip(from as int));
    let mut to: usize = chars.len();
    assert(chars@.subrange(from as int, to as int) =~= chars@.skip(from as int));
    while from < to && is_white_space(chars[to - 1])
        invariant
            from <= to <= chars@.len(),
            space == (|character: char| is_space(character)),
            trim_end_by(chars@.subrange(from as int, to as int), space) == trim_end_by(
                chars@.skip(from as int),
                space,
            ),
        decreases to,
    {
        assert(chars@.subrange(from as int, to as int).drop_last() =~= chars@.subrange(
            from as int,
            to - 1,
        ));
        to = to - 1;
    }
    string_of(&chars, from, to)
}

/// What follows the last `mark` in `text`; all of `text` where there is none.
pub fn tail_after(text: &str, mark: char) -> (tail: String)
    ensures
        tail@ == after_last(text@, mark),
{
    let chars = chars_of(text);
    let mut from: usize = chars.len();
    assert(chars@.take(from as int) =~= chars@);
    assert(after_last(chars@, mark) =~= after_last(chars@, mark) + chars@.skip(from as int));
    while from > 0 && chars[from - 1] != mark
        invariant
            from <= chars@.len(),
            after_last(chars@, mark) == after_last(chars@.take(from as int), mark)
                + chars@.skip(from as int),
        decreases from,
    {
        assert(chars@.take(from as int).drop_last() =~= chars@.take(from - 1));
        assert(after_last(chars@.take(from as int), mark) + chars@.skip(from as int)
            =~= after_last(chars@.take(from - 1), mark) + chars@.skip(from - 1));
        from = from - 1;
    }
    assert(after_last(chars@.take(from as int), mark) =~= Seq::<char>::empty());
    assert(chars@.skip(from as int) =~= chars@.subrange(from as int, chars@.len() as int));
    string_of(&chars, from, chars.len())
}

/// The decimal digits of `number`.
pub fn decimal_of(number: u64) -> (text: String)
    ensures
        text@ == decimal(number as nat),
    decreases number,
{
    let digit: char = ((number % 10) as u8 + 48) as char;
    let mut text = String::new();
    if number >= 10 {
        text = decimal_of(number / 10);
    }
    text.push(digit);
    assert(number < 10 ==> text@ =~= decimal(number as nat));
    text
}

/// The number in decimal, with a minus sign if it is negative.
pub open spec fn signed_decimal(number: int) -> Seq<char> {
    if number < 0 {
        "-"@ + decimal((-number) as nat)
    } else {
        decimal(number as nat)
    }
}

/// The number in decimal, with a minus sign if it is negative.
pub fn signed_decimal_of(number: i64) -> (text: String)
    ensures
        text@ == signed_decimal(number as int),
{
    if number < 0 {
        let size: u64 = (-(number as i128)) as u64;
        let digits = decimal_of(size);
        join2("-", digits.as_str())
    } else {
        decimal_of(number as u64)
    }
}

/// Whether the text is made of letters, digits, `-`, `_` and `.` alone.
pub fn only_name_chars(text: &str) -> (only: bool)
    ensures
        only == all_name_chars(text@),
{
    let chars = chars_of(text);
    let mut at: usize = 0;
    while at < chars.len()
        invariant
            at <= chars@.len(),
            chars@ == text@,
            forall|i: int| 0 <= i < at ==> is_name_char(#[trigger] text@[i]),
        decreases chars@.len() - at,
    {
        let character = chars[at];
        if !is_ascii_alphanumeric(character) && character != '-' && character != '_' && character
            != '.' {
            assert(!is_name_char(text@[at as int]));
            return false;
        }
        at = at + 1;
    }
    true
}

/// The pieces of `text` between the occurrences of `mark`.
pub fn split(text: &str, mark: char) -> (pieces: Vec<String>)
    ensures
        texts_model(pieces@) == split_at_mark(text@, mark),
{
    let chars = chars_of(text);
    let mut pieces: Vec<String> = Vec::new();
    let mut piece = String::new();
    let mut at: usize = 0;
    assert(chars@.take(0) =~= Seq::empty());
    assert(texts_model(pieces@).push(piece@) =~= split_at_mark(chars@.take(0), mark));
    while at < chars.len()
        invariant
            at <= chars@.len(),
            texts_model(pieces@).push(piece@) == split_at_mark(chars@.take(at as int), mark),
        decreases chars@.len() - at,
    {
        let ghost before = texts_model(pieces@);
        let ghost last = piece@;
        assert(before.push(last).drop_last() =~= before);
        assert(chars@.take(at + 1).drop_last() =~= chars@.take(at as int));
        if chars[at] == mark {
            pieces.push(piece);
            piece = String::new();
            assert(texts_model(pieces@) =~= before.push(last));
        } else {
            piece.push(chars[at]);
        }
        at = at + 1;
    }
    assert(chars@.take(at as int) =~= text@);
    let ghost before = texts_model(pieces@);
    let ghost last = piece@;
    pieces.push(piece);
    assert(texts_model(pieces@) =~= before.push(last));
    pieces
}

} // verus!
