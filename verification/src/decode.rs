//! Decoding of texts found in pages: HTML entities, backslash escapes and
//! percent-encoding.
use crate::text::{
    chars_of, is_alphanumeric, is_ascii_alphanumeric, lower, same, starts_with, string_of, to_lower,
};
use vstd::prelude::*;
use vstd::string::*;

verus! {

/// `char::from_u32`: the character with this code point, if there is one; the
/// surrogates and the numbers above the last code point have none.
pub assume_specification[ char::from_u32 ](code: u32) -> (character: Option<char>)
    ensures
        character is Some <==> (code < 0xd800 || 0xdfff < code <= 0x10ffff),
        character matches Some(found) ==> found as u32 == code,
;

/// The value of a digit in a base of at most sixteen.
pub open spec fn digit_value(character: char) -> nat {
    if '0' <= character && character <= '9' {
        (character as u32 - '0' as u32) as nat
    } else if 'a' <= character && character <= 'f' {
        (character as u32 - 'a' as u32 + 10) as nat
    } else if 'A' <= character && character <= 'F' {
        (character as u32 - 'A' as u32 + 10) as nat
    } else {
        16
    }
}

pub open spec fn all_digits_in(digits: Seq<char>, base: nat) -> bool {
    forall|i: int| 0 <= i < digits.len() ==> digit_value(#[trigger] digits[i]) < base
}

/// The number that the digits write in the base.
pub open spec fn number_value(digits: Seq<char>, base: nat) -> nat
    decreases digits.len(),
{
    if digits.len() == 0 {
        0
    } else {
        number_value(digits.drop_last(), base) * base + digit_value(digits.last())
    }
}

/// The digits of an unsigned number, without the plus sign that may lead it.
pub open spec fn unsigned_digits(text: Seq<char>) -> Seq<char> {
    if text.len() > 1 && text[0] == '+' {
        text.skip(1)
    } else {
        text
    }
}

/// The number that the text writes in the base, if it writes one up to `max`:
/// digits, with a plus sign or none before them.
pub open spec fn unsigned_value(text: Seq<char>, base: nat, max: nat) -> Option<nat> {
    let digits = unsigned_digits(text);
    if digits.len() > 0 && all_digits_in(digits, base) && number_value(digits, base) <= max {
        Some(number_value(digits, base))
    } else {
        None
    }
}

/// The digits before a digit write no more than the digits with it.
proof fn lemma_prefix_value(digits: Seq<char>, base: nat, count: int)
    requires
        0 <= count <= digits.len(),
        base >= 1,
    ensures
        number_value(digits.take(count), base) <= number_value(digits, base),
    decreases digits.len() - count,
{
    if count < digits.len() {
        lemma_prefix_value(digits, base, count + 1);
        let longer = digits.take(count + 1);
        assert(longer.drop_last() =~= digits.take(count));
        let value = number_value(digits.take(count), base);
        assert(value <= value * base) by (nonlinear_arith)
            requires
                base >= 1,
        ;
    } else {
        assert(digits.take(count) =~= digits);
    }
}

fn digit_of(character: char) -> (value: u64)
    ensures
        value == digit_value(character),
{
    if '0' <= character && character <= '9' {
        (character as u32 - 48) as u64
    } else if 'a' <= character && character <= 'f' {
        (character as u32 - 87) as u64
    } else if 'A' <= character && character <= 'F' {
        (character as u32 - 55) as u64
    } else {
        16
    }
}

/// The number that `text` writes in the base, if it writes one up to `max`.
pub fn parse_unsigned(text: &str, base: u64, max: u64) -> (number: Option<u64>)
    requires
        2 <= base <= 16,
    ensures
        match number {
            Some(value) => unsigned_value(text@, base as nat, max as nat) == Some(value as nat),
            None => unsigned_value(text@, base as nat, max as nat) is None,
        },
{
    let chars = chars_of(text);
    let from: usize = if chars.len() > 1 && chars[0] == '+' {
        1
    } else {
        0
    };
    let ghost digits = unsigned_digits(text@);
    assert(digits =~= chars@.skip(from as int));
    if chars.len() == 0 {
        return None;
    }
    let mut at: usize = from;
    let mut value: u64 = 0;
    assert(digits.take(0) =~= Seq::<char>::empty());
    while at < chars.len()
        invariant
            from <= at <= chars@.len(),
            2 <= base <= 16,
            digits == chars@.skip(from as int),
            digits == unsigned_digits(text@),
            digits.len() > 0,
            value == number_value(digits.take(at - from), base as nat),
            value <= max,
            forall|i: int| 0 <= i < at - from ==> digit_value(#[trigger] digits[i]) < base,
        decreases chars@.len() - at,
    {
        let digit: u64 = digit_of(chars[at]);
        assert(digits[at - from] == chars@[at as int]);
        if digit >= base {
            return None;
        }
        assert((value as u128) * (base as u128) + (digit as u128) <= u128::MAX) by (nonlinear_arith)
            requires
                value <= u64::MAX,
                base <= 16,
                digit <= 16,
        ;
        assert((value as u128) * (base as u128) <= u128::MAX) by (nonlinear_arith)
            requires
                value <= u64::MAX,
                base <= 16,
        ;
        let wide: u128 = (value as u128) * (base as u128) + (digit as u128);
        assert(digits.take(at - from + 1).drop_last() =~= digits.take(at - from));
        assert(wide == number_value(digits.take(at - from + 1), base as nat));
        if wide > max as u128 {
            proof {
                lemma_prefix_value(digits, base as nat, at - from + 1);
            }
            return None;
        }
        value = wide as u64;
        at = at + 1;
    }
    assert(digits.take(digits.len() as int) =~= digits);
    Some(value)
}

/// The 64-bit integer that the text writes in decimal, if it writes one: digits,
/// with a plus or a minus sign or none before them.
pub open spec fn signed_value(text: Seq<char>) -> Option<int> {
    if text.len() > 1 && text[0] == '-' {
        let digits = text.skip(1);
        if all_digits_in(digits, 10) && number_value(digits, 10) <= 0x8000_0000_0000_0000 {
            Some(-(number_value(digits, 10) as int))
        } else {
            None
        }
    } else {
        match unsigned_value(text, 10, i64::MAX as nat) {
            Some(value) => Some(value as int),
            None => None,
        }
    }
}

/// The 64-bit integer that the text writes in decimal, if it writes one.
pub fn parse_signed(text: &str) -> (number: Option<i64>)
    ensures
        match number {
            Some(value) => signed_value(text@) == Some(value as int),
            None => signed_value(text@) is None,
        },
{
    let chars = chars_of(text);
    if chars.len() > 1 && chars[0] == '-' {
        if chars[1] == '+' {
            assert(digit_value(text@.skip(1)[0]) == 16);
            return None;
        }
        let rest = string_of(&chars, 1, chars.len());
        assert(rest@ =~= text@.skip(1));
        match parse_unsigned(rest.as_str(), 10, 0x8000_0000_0000_0000) {
            Some(value) => if value == 0x8000_0000_0000_0000 {
                Some(i64::MIN)
            } else {
                Some(-(value as i64))
            },
            None => None,
        }
    } else {
        match parse_unsigned(text, 10, 0x7fff_ffff_ffff_ffff) {
            Some(value) => Some(value as i64),
            None => None,
        }
    }
}

/// The character that the number stands for, as a text; `otherwise` where it
/// stands for none.
pub open spec fn character_or(code: Option<nat>, otherwise: Seq<char>) -> Seq<char> {
    match code {
        Some(code) => if code < 0xd800 || 0xdfff < code <= 0x10ffff {
            seq![(code as u32) as char]
        } else {
            otherwise
        },
        None => otherwise,
    }
}

/// What an entity stands for, given its text and the name between `&` and `;`.
pub open spec fn entity_value(entity: Seq<char>, name: Seq<char>) -> Seq<char> {
    let key = lower(name);
    if key == "amp"@ {
        "&"@
    } else if key == "quot"@ {
        "\""@
    } else if key == "apos"@ {
        "'"@
    } else if key == "lt"@ {
        "<"@
    } else if key == "gt"@ {
        ">"@
    } else if "#x"@.is_prefix_of(key) {
        character_or(unsigned_value(key.skip(2), 16, u32::MAX as nat), entity)
    } else if "#"@.is_prefix_of(key) {
        character_or(unsigned_value(key.skip(1), 10, u32::MAX as nat), entity)
    } else {
        entity
    }
}

/// What an escape stands for, given its text and its hexadecimal digits.
pub open spec fn escape_value(escape: Seq<char>, digits: Seq<char>) -> Seq<char> {
    character_or(unsigned_value(digits, 16, u32::MAX as nat), escape)
}

/// The character may stand in the name of an entity.
pub open spec fn is_entity_char(character: char) -> bool {
    is_alphanumeric(character) || character == '#'
}

/// The first position, from `from` on, whose character may not stand in the name
/// of an entity.
pub open spec fn name_end(text: Seq<char>, from: int) -> int
    decreases text.len() - from,
{
    if 0 <= from < text.len() && is_entity_char(text[from]) {
        name_end(text, from + 1)
    } else {
        from
    }
}

/// The name is that of an entity that is decoded, in small or capital letters.
pub open spec fn is_entity_name(name: Seq<char>) -> bool {
    let key = lower(name);
    ||| key == "amp"@
    ||| key == "quot"@
    ||| key == "apos"@
    ||| key == "lt"@
    ||| key == "gt"@
    ||| "#x"@.is_prefix_of(key) && key.len() > 2 && all_digits_in(key.skip(2), 16)
    ||| "#"@.is_prefix_of(key) && key.len() > 1 && all_digits_in(key.skip(1), 10)
}

/// The text starts with an entity that is decoded, whose name ends at `end`.
pub open spec fn is_entity(text: Seq<char>, end: int) -> bool {
    &&& text.len() > 0
    &&& text[0] == '&'
    &&& 1 <= end < text.len()
    &&& text[end] == ';'
    &&& is_entity_name(text.subrange(1, end))
}

/// `text` with the entities decoded, left to right.
pub open spec fn entities_decoded(text: Seq<char>) -> Seq<char>
    decreases text.len(),
{
    let end = name_end(text, 1);
    if text.len() == 0 {
        Seq::empty()
    } else if is_entity(text, end) {
        entity_value(text.take(end + 1), text.subrange(1, end)) + entities_decoded(
            text.skip(end + 1),
        )
    } else {
        seq![text[0]] + entities_decoded(text.skip(1))
    }
}

/// The text starts with an escape: a backslash, the letter, and so many
/// hexadecimal digits.
pub open spec fn is_escape(text: Seq<char>, letter: char, digits: int) -> bool {
    &&& text.len() >= 2 + digits
    &&& text[0] == '\\'
    &&& text[1] == letter
    &&& all_digits_in(text.subrange(2, 2 + digits), 16)
}

/// `text` with the escapes of one letter decoded, left to right.
pub open spec fn escapes_decoded(text: Seq<char>, letter: char, digits: nat) -> Seq<char>
    decreases text.len(),
{
    let end = 2 + digits as int;
    if text.len() == 0 {
        Seq::empty()
    } else if is_escape(text, letter, digits as int) {
        escape_value(text.take(end), text.subrange(2, end)) + escapes_decoded(
            text.skip(end),
            letter,
            digits,
        )
    } else {
        seq![text[0]] + escapes_decoded(text.skip(1), letter, digits)
    }
}

/// `text` with each `\/` made a `/`, left to right.
pub open spec fn slashes_decoded(text: Seq<char>) -> Seq<char>
    decreases text.len(),
{
    if text.len() == 0 {
        Seq::empty()
    } else if text.len() >= 2 && text[0] == '\\' && text[1] == '/' {
        seq!['/'] + slashes_decoded(text.skip(2))
    } else {
        seq![text[0]] + slashes_decoded(text.skip(1))
    }
}

/// `text` with the backslash escapes of a script string decoded: slashes
/// first, then four-digit escapes, then two-digit ones.
pub open spec fn backslashes_decoded(text: Seq<char>) -> Seq<char> {
    escapes_decoded(escapes_decoded(slashes_decoded(text), 'u', 4), 'x', 2)
}

fn character_text(code: Option<u64>, otherwise: &str) -> (text: String)
    requires
        code matches Some(value) ==> value <= u32::MAX,
    ensures
        text@ == character_or(
            match code {
                Some(value) => Some(value as nat),
                None => None,
            },
            otherwise@,
        ),
{
    match code {
        Some(value) => match char::from_u32(value as u32) {
            Some(character) => {
                let mut text = String::new();
                text.push(character);
                proof {
                    vstd::utf8::char_u32_cast(character, value as u32);
                }
                assert(text@ =~= seq![character]);
                text
            },
            None => otherwise.to_owned(),
        },
        None => otherwise.to_owned(),
    }
}

/// What an entity stands for, given its text and the name between `&` and `;`.
pub fn decode_entity(entity: &str, name: &str) -> (text: String)
    ensures
        text@ == entity_value(entity@, name@),
{
    let key = to_lower(name);
    let key = key.as_str();
    if same(key, "amp") {
        return "&".to_owned();
    }
    if same(key, "quot") {
        return "\"".to_owned();
    }
    if same(key, "apos") {
        return "'".to_owned();
    }
    if same(key, "lt") {
        return "<".to_owned();
    }
    if same(key, "gt") {
        return ">".to_owned();
    }
    let chars = chars_of(key);
    proof {
        reveal_strlit("#x");
        reveal_strlit("#");
    }
    if starts_with(key, "#x") {
        let digits = string_of(&chars, 2, chars.len());
        assert(digits@ =~= key@.skip(2));
        return character_text(parse_unsigned(digits.as_str(), 16, u32::MAX as u64), entity);
    }
    if starts_with(key, "#") {
        let digits = string_of(&chars, 1, chars.len());
        assert(digits@ =~= key@.skip(1));
        return character_text(parse_unsigned(digits.as_str(), 10, u32::MAX as u64), entity);
    }
    entity.to_owned()
}

/// What an escape stands for, given its text and its hexadecimal digits.
pub fn decode_escape(escape: &str, digits: &str) -> (text: String)
    ensures
        text@ == escape_value(escape@, digits@),
{
    character_text(parse_unsigned(digits, 16, u32::MAX as u64), escape)
}

fn digits_in(digits: &str, base: u64) -> (only: bool)
    requires
        base <= 16,
    ensures
        only == all_digits_in(digits@, base as nat),
{
    let chars = chars_of(digits);
    let mut at: usize = 0;
    while at < chars.len()
        invariant
            at <= chars@.len(),
            chars@ == digits@,
            forall|i: int| 0 <= i < at ==> digit_value(#[trigger] digits@[i]) < base,
        decreases chars@.len() - at,
    {
        if digit_of(chars[at]) >= base {
            assert(digit_value(digits@[at as int]) >= base);
            return false;
        }
        at = at + 1;
    }
    true
}

fn entity_name(name: &str) -> (found: bool)
    ensures
        found == is_entity_name(name@),
{
    let small = to_lower(name);
    let key = small.as_str();
    if same(key, "amp") || same(key, "quot") || same(key, "apos") || same(key, "lt") || same(
        key,
        "gt",
    ) {
        return true;
    }
    let chars = chars_of(key);
    proof {
        reveal_strlit("#x");
        reveal_strlit("#");
    }
    if starts_with(key, "#x") && chars.len() > 2 {
        let digits = string_of(&chars, 2, chars.len());
        assert(digits@ =~= key@.skip(2));
        if digits_in(digits.as_str(), 16) {
            return true;
        }
    }
    if starts_with(key, "#") && chars.len() > 1 {
        let digits = string_of(&chars, 1, chars.len());
        assert(digits@ =~= key@.skip(1));
        return digits_in(digits.as_str(), 10);
    }
    false
}

/// The name of an entity ends within the text that it stands in.
proof fn lemma_name_end(text: Seq<char>, from: int)
    requires
        0 <= from <= text.len(),
    ensures
        from <= name_end(text, from) <= text.len(),
    decreases text.len() - from,
{
    if from < text.len() && is_entity_char(text[from]) {
        lemma_name_end(text, from + 1);
    }
}

/// The end of a name does not depend on what stands before it.
proof fn lemma_name_end_skip(text: Seq<char>, at: int, from: int)
    requires
        0 <= at,
        0 <= from,
        at + from <= text.len(),
    ensures
        name_end(text, at + from) == at + name_end(text.skip(at), from),
    decreases text.len() - at - from,
{
    if at + from < text.len() {
        assert(text.skip(at)[from] == text[at + from]);
        if is_entity_char(text[at + from]) {
            lemma_name_end_skip(text, at, from + 1);
        }
    }
}

fn find_name_end(chars: &Vec<char>, from: usize) -> (end: usize)
    requires
        from <= chars@.len(),
    ensures
        end == name_end(chars@, from as int),
        from <= end <= chars@.len(),
{
    let mut end: usize = from;
    while end < chars.len() && (is_ascii_alphanumeric(chars[end]) || chars[end] == '#')
        invariant
            from <= end <= chars@.len(),
            name_end(chars@, from as int) == name_end(chars@, end as int),
        decreases chars@.len() - end,
    {
        end = end + 1;
    }
    end
}

/// `text` with the HTML entities decoded.
pub fn decode_html_entities(text: &str) -> (decoded: String)
    ensures
        decoded@ == entities_decoded(text@),
{
    let chars = chars_of(text);
    let mut decoded = String::new();
    let mut at: usize = 0;
    assert(chars@.skip(0) =~= chars@);
    assert(entities_decoded(chars@) =~= decoded@ + entities_decoded(chars@.skip(0)));
    while at < chars.len()
        invariant
            at <= chars@.len(),
            chars@ == text@,
            entities_decoded(chars@) == decoded@ + entities_decoded(chars@.skip(at as int)),
        decreases chars@.len() - at,
    {
        let ghost before = decoded@;
        let ghost rest = chars@.skip(at as int);
        if chars[at] == '&' {
            let end: usize = find_name_end(&chars, at + 1);
            proof {
                lemma_name_end_skip(chars@, at as int, 1);
            }
            if end < chars.len() && chars[end] == ';' {
                let name = string_of(&chars, at + 1, end);
                assert(rest.subrange(1, end - at) =~= name@);
                assert(rest[end - at] == ';');
                if entity_name(name.as_str()) {
                    let entity = string_of(&chars, at, end + 1);
                    assert(rest.take(end - at + 1) =~= entity@);
                    assert(is_entity(rest, name_end(rest, 1)));
                    let piece = decode_entity(entity.as_str(), name.as_str());
                    decoded.append(piece.as_str());
                    assert(rest.skip(end - at + 1) =~= chars@.skip(end + 1));
                    assert(before + (piece@ + entities_decoded(chars@.skip(end + 1)))
                        =~= decoded@ + entities_decoded(chars@.skip(end + 1)));
                    at = end + 1;
                    continue;
                }
            }
        }
        assert(!is_entity(rest, name_end(rest, 1)));
        decoded.push(chars[at]);
        assert(rest.skip(1) =~= chars@.skip(at + 1));
        assert(before + (seq![rest[0]] + entities_decoded(rest.skip(1))) =~= decoded@
            + entities_decoded(chars@.skip(at + 1)));
        at = at + 1;
    }
    assert(decoded@ + entities_decoded(chars@.skip(at as int)) =~= decoded@);
    decoded
}

fn decode_slashes(text: &str) -> (decoded: String)
    ensures
        decoded@ == slashes_decoded(text@),
{
    let chars = chars_of(text);
    let mut decoded = String::new();
    let mut at: usize = 0;
    assert(chars@.skip(0) =~= chars@);
    assert(slashes_decoded(chars@) =~= decoded@ + slashes_decoded(chars@.skip(0)));
    while at < chars.len()
        invariant
            at <= chars@.len(),
            chars@ == text@,
            slashes_decoded(chars@) == decoded@ + slashes_decoded(chars@.skip(at as int)),
        decreases chars@.len() - at,
    {
        let ghost before = decoded@;
        let ghost rest = chars@.skip(at as int);
        if chars.len() - at >= 2 && chars[at] == '\\' && chars[at + 1] == '/' {
            decoded.push('/');
            assert(rest.skip(2) =~= chars@.skip(at + 2));
            assert(before + (seq!['/'] + slashes_decoded(rest.skip(2))) =~= decoded@
                + slashes_decoded(chars@.skip(at + 2)));
            at = at + 2;
        } else {
            decoded.push(chars[at]);
            assert(rest.skip(1) =~= chars@.skip(at + 1));
            assert(before + (seq![rest[0]] + slashes_decoded(rest.skip(1))) =~= decoded@
                + slashes_decoded(chars@.skip(at + 1)));
            at = at + 1;
        }
    }
    assert(decoded@ + slashes_decoded(chars@.skip(at as int)) =~= decoded@);
    decoded
}

fn decode_escapes(text: &str, letter: char, digits: usize) -> (decoded: String)
    requires
        1 <= digits <= 8,
    ensures
        decoded@ == escapes_decoded(text@, letter, digits as nat),
{
    let chars = chars_of(text);
    let mut decoded = String::new();
    let mut at: usize = 0;
    assert(chars@.skip(0) =~= chars@);
    assert(escapes_decoded(chars@, letter, digits as nat) =~= decoded@ + escapes_decoded(
        chars@.skip(0),
        letter,
        digits as nat,
    ));
    while at < chars.len()
        invariant
            at <= chars@.len(),
            chars@ == text@,
            1 <= digits <= 8,
            escapes_decoded(chars@, letter, digits as nat) == decoded@ + escapes_decoded(
                chars@.skip(at as int),
                letter,
                digits as nat,
            ),
        decreases chars@.len() - at,
    {
        let ghost before = decoded@;
        let ghost rest = chars@.skip(at as int);
        if chars.len() - at >= 2 + digits && chars[at] == '\\' && chars[at + 1] == letter {
            let end: usize = at + 2 + digits;
            let code = string_of(&chars, at + 2, end);
            assert(rest.subrange(2, 2 + digits) =~= code@);
            if digits_in(code.as_str(), 16) {
                let escape = string_of(&chars, at, end);
                assert(rest.take(2 + digits) =~= escape@);
                assert(is_escape(rest, letter, digits as int));
                let piece = decode_escape(escape.as_str(), code.as_str());
                decoded.append(piece.as_str());
                assert(rest.skip(2 + digits) =~= chars@.skip(end as int));
                assert(before + (piece@ + escapes_decoded(
                    chars@.skip(end as int),
                    letter,
                    digits as nat,
                )) =~= decoded@ + escapes_decoded(chars@.skip(end as int), letter, digits as nat));
                at = end;
                continue;
            }
        }
        assert(!is_escape(rest, letter, digits as int));
        decoded.push(chars[at]);
        assert(rest.skip(1) =~= chars@.skip(at + 1));
        assert(before + (seq![rest[0]] + escapes_decoded(rest.skip(1), letter, digits as nat))
            =~= decoded@ + escapes_decoded(chars@.skip(at + 1), letter, digits as nat));
        at = at + 1;
    }
    assert(decoded@ + escapes_decoded(chars@.skip(at as int), letter, digits as nat) =~= decoded@);
    decoded
}

/// `text` with the backslash escapes of a script string decoded.
pub fn decode_backslash_escapes(text: &str) -> (decoded: String)
    ensures
        decoded@ == backslashes_decoded(text@),
{
    let slashes = decode_slashes(text);
    let unicode = decode_escapes(slashes.as_str(), 'u', 4);
    decode_escapes(unicode.as_str(), 'x', 2)
}

/// A text without an ampersand has no entities, and is left as it is.
pub proof fn texts_without_entities_stay(text: Seq<char>)
    requires
        !text.contains('&'),
    ensures
        entities_decoded(text) == text,
    decreases text.len(),
{
    if text.len() > 0 {
        assert(text[0] != '&');
        assert(!text.skip(1).contains('&')) by {
            assert forall|i: int| 0 <= i < text.skip(1).len() implies text.skip(1)[i] != '&' by {
                assert(text[i + 1] != '&');
            }
        }
        texts_without_entities_stay(text.skip(1));
        assert(seq![text[0]] + text.skip(1) =~= text);
    } else {
        assert(entities_decoded(text) =~= text);
    }
}

/// A text without a backslash has no escapes, and is left as it is.
pub proof fn texts_without_escapes_stay(text: Seq<char>)
    requires
        !text.contains('\\'),
    ensures
        backslashes_decoded(text) == text,
{
    lemma_slashes_stay(text);
    lemma_escapes_stay(text, 'u', 4);
    lemma_escapes_stay(text, 'x', 2);
}

proof fn lemma_slashes_stay(text: Seq<char>)
    requires
        !text.contains('\\'),
    ensures
        slashes_decoded(text) == text,
    decreases text.len(),
{
    if text.len() > 0 {
        assert(text[0] != '\\');
        assert(!text.skip(1).contains('\\')) by {
            assert forall|i: int| 0 <= i < text.skip(1).len() implies text.skip(1)[i] != '\\' by {
                assert(text[i + 1] != '\\');
            }
        }
        lemma_slashes_stay(text.skip(1));
        assert(seq![text[0]] + text.skip(1) =~= text);
    } else {
        assert(slashes_decoded(text) =~= text);
    }
}

proof fn lemma_escapes_stay(text: Seq<char>, letter: char, digits: nat)
    requires
        !text.contains('\\'),
    ensures
        escapes_decoded(text, letter, digits) == text,
    decreases text.len(),
{
    if text.len() > 0 {
        assert(text[0] != '\\');
        assert(!text.skip(1).contains('\\')) by {
            assert forall|i: int| 0 <= i < text.skip(1).len() implies text.skip(1)[i] != '\\' by {
                assert(text[i + 1] != '\\');
            }
        }
        lemma_escapes_stay(text.skip(1), letter, digits);
        assert(seq![text[0]] + text.skip(1) =~= text);
    } else {
        assert(escapes_decoded(text, letter, digits) =~= text);
    }
}

pub open spec fn is_hex_byte(byte: u8) -> bool {
    ||| 0x30 <= byte <= 0x39
    ||| 0x41 <= byte <= 0x46
    ||| 0x61 <= byte <= 0x66
}

pub open spec fn hex_byte_value(byte: u8) -> u8 {
    if byte <= 0x39 {
        (byte - 0x30) as u8
    } else if byte <= 0x46 {
        (byte - 0x37) as u8
    } else {
        (byte - 0x57) as u8
    }
}

/// The bytes with each `%` and the two hexadecimal digits after it made the
/// byte that they write.
pub open spec fn percent_bytes(bytes: Seq<u8>) -> Seq<u8>
    decreases bytes.len(),
{
    if bytes.len() == 0 {
        Seq::empty()
    } else if bytes.len() >= 3 && bytes[0] == 0x25 && is_hex_byte(bytes[1]) && is_hex_byte(
        bytes[2],
    ) {
        seq![(hex_byte_value(bytes[1]) * 16 + hex_byte_value(bytes[2])) as u8] + percent_bytes(
            bytes.skip(3),
        )
    } else {
        seq![bytes[0]] + percent_bytes(bytes.skip(1))
    }
}

/// `text` percent-decoded, unless the bytes are then no UTF-8.
pub open spec fn percent_decoded(text: Seq<char>) -> Option<Seq<char>> {
    let bytes = percent_bytes(vstd::utf8::encode_utf8(text));
    if vstd::utf8::valid_utf8(bytes) {
        Some(vstd::utf8::decode_utf8(bytes))
    } else {
        None
    }
}

/// `percent_encoding::percent_decode_str` and `decode_utf8`: each percent
/// escape of the text's UTF-8 bytes becomes its byte, and the outcome is a text
/// where those bytes are UTF-8.
#[verifier::external_body]
pub(crate) fn percent_decode(text: &str) -> (decoded: Option<String>)
    ensures
        crate::weburl::optional_text(decoded) == percent_decoded(text@),
{
    percent_encoding::percent_decode_str(text).decode_utf8().ok().map(|text| text.into_owned())
}

} // verus!
