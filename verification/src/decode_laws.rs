//! What decoding makes of entities and escapes, stated by how they are written.
use crate::decode::{
    all_digits_in, backslashes_decoded, character_or, digit_value, entities_decoded, entity_value,
    escapes_decoded, is_entity_name, name_end, number_value, slashes_decoded, unsigned_value,
};
use crate::text::{lower, lower_char};
use vstd::prelude::*;

verus! {

/// The code is that of a character: not of a surrogate, and not too great.
pub open spec fn is_character(code: nat) -> bool {
    code < 0xd800 || 0xdfff < code <= 0x10ffff
}

/// The name is of letters, digits and number signs.
pub open spec fn is_name(name: Seq<char>) -> bool {
    forall|i: int|
        0 <= i < name.len() ==> ('a' <= #[trigger] name[i] <= 'z' || 'A' <= name[i] <= 'Z' || '0'
            <= name[i] <= '9' || name[i] == '#')
}

/// The five named entities stand for their characters, in small or capital
/// letters; an entity of any other name stands as it is. The text behind an
/// entity is decoded in turn.
pub proof fn named_entities_are_decoded(name: Seq<char>, rest: Seq<char>)
    requires
        is_name(name),
        name.len() > 0,
        name[0] != '#',
    ensures
        ({
            let text = seq!['&'] + name + seq![';'] + rest;
            let key = lower(name);
            &&& key == "amp"@ ==> entities_decoded(text) == seq!['&'] + entities_decoded(rest)
            &&& key == "quot"@ ==> entities_decoded(text) == seq!['"'] + entities_decoded(rest)
            &&& key == "apos"@ ==> entities_decoded(text) == seq!['\''] + entities_decoded(rest)
            &&& key == "lt"@ ==> entities_decoded(text) == seq!['<'] + entities_decoded(rest)
            &&& key == "gt"@ ==> entities_decoded(text) == seq!['>'] + entities_decoded(rest)
            &&& !(key == "amp"@ || key == "quot"@ || key == "apos"@ || key == "lt"@ || key
                == "gt"@) ==> entities_decoded(text) == seq!['&'] + entities_decoded(
                name + seq![';'] + rest,
            )
        }),
{
    let text = seq!['&'] + name + seq![';'] + rest;
    lemma_name_end(name, ';', rest);
    assert(text.subrange(1, 1 + name.len() as int) =~= name);
    assert(text.skip(2 + name.len() as int) =~= rest);
    assert(text.skip(1) =~= name + seq![';'] + rest);
    reveal_strlit("amp");
    reveal_strlit("quot");
    reveal_strlit("apos");
    reveal_strlit("lt");
    reveal_strlit("gt");
    reveal_strlit("&");
    reveal_strlit("\"");
    reveal_strlit("'");
    reveal_strlit("<");
    reveal_strlit(">");
    reveal_strlit("#");
    reveal_strlit("#x");
    assert("amp"@.len() == 3 && "quot"@.len() == 4 && "apos"@.len() == 4);
    assert("lt"@.len() == 2 && "gt"@.len() == 2);
    assert("amp"@[0] == 'a' && "quot"@[0] == 'q' && "apos"@[0] == 'a');
    assert("lt"@[0] == 'l' && "gt"@[0] == 'g');
    assert("&"@ =~= seq!['&']);
    assert("\""@ =~= seq!['"']);
    assert("'"@ =~= seq!['\'']);
    assert("<"@ =~= seq!['<']);
    assert(">"@ =~= seq!['>']);
    assert("#"@[0] == '#' && "#x"@[0] == '#');
    assert(lower(name)[0] == lower_char(name[0]));
    assert(!"#"@.is_prefix_of(lower(name)));
    assert(!"#x"@.is_prefix_of(lower(name)));
}

/// A numbered entity, in decimal or in hexadecimal digits, stands for the
/// character of that code, and stands as it is where there is none.
pub proof fn numbered_entities_are_decoded(digits: Seq<char>, sign: char, rest: Seq<char>)
    requires
        digits.len() > 0,
        sign == 'x' || sign == 'X',
    ensures
        all_digits_in(digits, 10) ==> {
            let code = number_value(digits, 10);
            let entity = seq!['&', '#'] + digits + seq![';'];
            &&& is_character(code) ==> entities_decoded(entity + rest) == seq![
                (code as u32) as char,
            ] + entities_decoded(rest)
            &&& !is_character(code) ==> entities_decoded(entity + rest) == entity
                + entities_decoded(rest)
        },
        all_digits_in(digits, 16) ==> {
            let code = number_value(digits, 16);
            let entity = seq!['&', '#', sign] + digits + seq![';'];
            &&& is_character(code) ==> entities_decoded(entity + rest) == seq![
                (code as u32) as char,
            ] + entities_decoded(rest)
            &&& !is_character(code) ==> entities_decoded(entity + rest) == entity
                + entities_decoded(rest)
        },
{
    if all_digits_in(digits, 10) {
        let name = seq!['#'] + digits;
        assert(is_name(name)) by {
            assert forall|i: int| 0 <= i < name.len() implies ('a' <= #[trigger] name[i] <= 'z'
                || 'A' <= name[i] <= 'Z' || '0' <= name[i] <= '9' || name[i] == '#') by {
                if i > 0 {
                    assert(digit_value(digits[i - 1]) < 10);
                }
            }
        }
        lemma_decimal_name(digits, seq!['&'] + name + seq![';']);
        lemma_entity(name, rest);
        assert(seq!['&'] + name + seq![';'] =~= seq!['&', '#'] + digits + seq![';']);
    }
    if all_digits_in(digits, 16) {
        let name = seq!['#', sign] + digits;
        assert(is_name(name)) by {
            assert forall|i: int| 0 <= i < name.len() implies ('a' <= #[trigger] name[i] <= 'z'
                || 'A' <= name[i] <= 'Z' || '0' <= name[i] <= '9' || name[i] == '#') by {
                if i > 1 {
                    assert(digit_value(digits[i - 2]) < 16);
                }
            }
        }
        lemma_hexadecimal_name(digits, sign, seq!['&'] + name + seq![';']);
        lemma_entity(name, rest);
        assert(seq!['&'] + name + seq![';'] =~= seq!['&', '#', sign] + digits + seq![';']);
    }
}

proof fn lemma_entity(name: Seq<char>, rest: Seq<char>)
    requires
        is_name(name),
        is_entity_name(name),
    ensures
        entities_decoded(seq!['&'] + name + seq![';'] + rest) == entity_value(
            seq!['&'] + name + seq![';'],
            name,
        ) + entities_decoded(rest),
{
    let entity = seq!['&'] + name + seq![';'];
    let text = entity + rest;
    lemma_name_end(name, ';', rest);
    assert(text.subrange(1, 1 + name.len() as int) =~= name);
    assert(text.take(2 + name.len() as int) =~= entity);
    assert(text.skip(2 + name.len() as int) =~= rest);
}

proof fn lemma_number_sign(key: Seq<char>)
    requires
        key.len() > 1,
        key[0] == '#',
    ensures
        key != "amp"@ && key != "quot"@ && key != "apos"@ && key != "lt"@ && key != "gt"@,
        "#"@.is_prefix_of(key),
        "#x"@.is_prefix_of(key) <==> key[1] == 'x',
{
    reveal_strlit("amp");
    reveal_strlit("quot");
    reveal_strlit("apos");
    reveal_strlit("lt");
    reveal_strlit("gt");
    reveal_strlit("#");
    reveal_strlit("#x");
    assert("amp"@[0] == 'a' && "quot"@[0] == 'q' && "apos"@[0] == 'a');
    assert("lt"@[0] == 'l' && "gt"@[0] == 'g');
    assert("#"@ =~= seq!['#']);
    assert("#x"@ =~= seq!['#', 'x']);
    assert(key.subrange(0, 1) =~= seq!['#']);
    if key[1] == 'x' {
        assert(key.subrange(0, 2) =~= seq!['#', 'x']);
    }
}

proof fn lemma_decimal_name(digits: Seq<char>, entity: Seq<char>)
    requires
        digits.len() > 0,
        all_digits_in(digits, 10),
    ensures
        is_entity_name(seq!['#'] + digits),
        entity_value(entity, seq!['#'] + digits) == character_or(
            unsigned_value(lower(digits), 10, 0xffff_ffff),
            entity,
        ),
        unsigned_value(lower(digits), 10, 0xffff_ffff) == (if number_value(digits, 10)
            <= 0xffff_ffff {
            Some(number_value(digits, 10))
        } else {
            None
        }),
{
    lemma_lower_digits(digits, 10);
    let key = lower(seq!['#'] + digits);
    assert(key.skip(1) =~= lower(digits));
    assert(key[0] == '#');
    assert(key[1] == lower(digits)[0]);
    assert(digit_value(lower(digits)[0]) < 10);
    lemma_number_sign(key);
}

proof fn lemma_hexadecimal_name(digits: Seq<char>, sign: char, entity: Seq<char>)
    requires
        digits.len() > 0,
        all_digits_in(digits, 16),
        sign == 'x' || sign == 'X',
    ensures
        is_entity_name(seq!['#', sign] + digits),
        entity_value(entity, seq!['#', sign] + digits) == character_or(
            unsigned_value(lower(digits), 16, 0xffff_ffff),
            entity,
        ),
        unsigned_value(lower(digits), 16, 0xffff_ffff) == (if number_value(digits, 16)
            <= 0xffff_ffff {
            Some(number_value(digits, 16))
        } else {
            None
        }),
{
    lemma_lower_digits(digits, 16);
    let key = lower(seq!['#', sign] + digits);
    assert(key.skip(2) =~= lower(digits));
    assert(key[0] == '#');
    assert(key[1] == 'x');
    assert(digit_value(lower(digits)[0]) < 16);
    lemma_number_sign(key);
}

/// A character that is no ampersand stands for itself, and so does an ampersand
/// that begins no entity, because no semicolon ends its name.
pub proof fn other_characters_stand_for_themselves(
    plain: char,
    name: Seq<char>,
    stop: char,
    rest: Seq<char>,
)
    requires
        plain != '&',
        is_name(name),
        stop != ';',
        stop != '#',
        !('a' <= stop <= 'z' || 'A' <= stop <= 'Z' || '0' <= stop <= '9'),
    ensures
        entities_decoded(Seq::empty()).len() == 0,
        entities_decoded(seq![plain] + rest) == seq![plain] + entities_decoded(rest),
        entities_decoded(seq!['&'] + name + seq![stop] + rest) == seq!['&'] + entities_decoded(
            name + seq![stop] + rest,
        ),
        entities_decoded(seq!['&'] + name) == seq!['&'] + entities_decoded(name),
{
    assert((seq![plain] + rest).skip(1) =~= rest);
    assert((seq![plain] + rest)[0] == plain);
    let text = seq!['&'] + name + seq![stop] + rest;
    lemma_name_end(name, stop, rest);
    assert(text.skip(1) =~= name + seq![stop] + rest);
    assert(text[1 + name.len() as int] == stop);
    let short = seq!['&'] + name;
    lemma_name_end_last(name);
    assert(short.skip(1) =~= name);
}

proof fn lemma_name_end(name: Seq<char>, stop: char, rest: Seq<char>)
    requires
        is_name(name),
        stop != '#',
        !('a' <= stop <= 'z' || 'A' <= stop <= 'Z' || '0' <= stop <= '9'),
    ensures
        name_end(seq!['&'] + name + seq![stop] + rest, 1) == 1 + name.len(),
{
    lemma_name_end_from(seq!['&'] + name + seq![stop] + rest, 1, 1 + name.len() as int);
}

proof fn lemma_name_end_last(name: Seq<char>)
    requires
        is_name(name),
    ensures
        name_end(seq!['&'] + name, 1) == 1 + name.len(),
{
    lemma_name_end_from(seq!['&'] + name, 1, 1 + name.len() as int);
}

proof fn lemma_name_end_from(text: Seq<char>, from: int, end: int)
    requires
        0 <= from <= end <= text.len(),
        forall|i: int|
            from <= i < end ==> crate::decode::is_entity_char(#[trigger] text[i]),
        end < text.len() ==> !crate::decode::is_entity_char(text[end]),
    ensures
        name_end(text, from) == end,
    decreases end - from,
{
    if from < end {
        assert(crate::decode::is_entity_char(text[from]));
        lemma_name_end_from(text, from + 1, end);
    }
}

proof fn lemma_lower_digits(digits: Seq<char>, base: nat)
    requires
        base <= 16,
        all_digits_in(digits, base),
    ensures
        all_digits_in(lower(digits), base),
        number_value(lower(digits), base) == number_value(digits, base),
    decreases digits.len(),
{
    assert forall|i: int| 0 <= i < lower(digits).len() implies digit_value(
        #[trigger] lower(digits)[i],
    ) < base by {
        assert(digit_value(digits[i]) < base);
    }
    if digits.len() > 0 {
        let fewer = digits.drop_last();
        assert forall|i: int| 0 <= i < fewer.len() implies digit_value(#[trigger] fewer[i])
            < base by {
            assert(digit_value(digits[i]) < base);
        }
        lemma_lower_digits(fewer, base);
        assert(lower(digits).drop_last() =~= lower(fewer));
        assert(digit_value(digits[digits.len() - 1]) < base);
    }
}

/// The text holds no backslash.
pub open spec fn is_without_backslashes(text: Seq<char>) -> bool {
    forall|i: int| 0 <= i < text.len() ==> #[trigger] text[i] != '\\'
}

proof fn lemma_slashes_kept(plain: Seq<char>, rest: Seq<char>)
    requires
        is_without_backslashes(plain),
    ensures
        slashes_decoded(plain + rest) == plain + slashes_decoded(rest),
    decreases plain.len(),
{
    if plain.len() > 0 {
        let fewer = plain.skip(1);
        assert forall|i: int| 0 <= i < fewer.len() implies #[trigger] fewer[i] != '\\' by {
            assert(plain[i + 1] != '\\');
        }
        lemma_slashes_kept(fewer, rest);
        assert(plain[0] != '\\');
        assert((plain + rest)[0] == plain[0]);
        assert((plain + rest).skip(1) =~= fewer + rest);
        assert(seq![plain[0]] + (fewer + slashes_decoded(rest)) =~= plain + slashes_decoded(rest));
    } else {
        assert(plain + rest =~= rest);
        assert(plain + slashes_decoded(rest) =~= slashes_decoded(rest));
    }
}

proof fn lemma_escapes_kept(plain: Seq<char>, rest: Seq<char>, letter: char, digits: nat)
    requires
        is_without_backslashes(plain),
    ensures
        escapes_decoded(plain + rest, letter, digits) == plain + escapes_decoded(
            rest,
            letter,
            digits,
        ),
    decreases plain.len(),
{
    if plain.len() > 0 {
        let fewer = plain.skip(1);
        assert forall|i: int| 0 <= i < fewer.len() implies #[trigger] fewer[i] != '\\' by {
            assert(plain[i + 1] != '\\');
        }
        lemma_escapes_kept(fewer, rest, letter, digits);
        assert(plain[0] != '\\');
        assert((plain + rest)[0] == plain[0]);
        assert((plain + rest).skip(1) =~= fewer + rest);
        assert(seq![plain[0]] + (fewer + escapes_decoded(rest, letter, digits)) =~= plain
            + escapes_decoded(rest, letter, digits));
    } else {
        assert(plain + rest =~= rest);
        assert(plain + escapes_decoded(rest, letter, digits) =~= escapes_decoded(
            rest,
            letter,
            digits,
        ));
    }
}

proof fn lemma_plain(text: Seq<char>)
    requires
        is_without_backslashes(text),
    ensures
        slashes_decoded(text) == text,
        escapes_decoded(text, 'u', 4) == text,
        escapes_decoded(text, 'x', 2) == text,
{
    let none = Seq::<char>::empty();
    lemma_slashes_kept(text, none);
    lemma_escapes_kept(text, none, 'u', 4);
    lemma_escapes_kept(text, none, 'x', 2);
    assert(text + none =~= text);
    assert(slashes_decoded(none) =~= none);
    assert(escapes_decoded(none, 'u', 4) =~= none);
    assert(escapes_decoded(none, 'x', 2) =~= none);
}

proof fn lemma_escape(
    before: Seq<char>,
    letter: char,
    digits: Seq<char>,
    count: nat,
    after: Seq<char>,
)
    requires
        is_without_backslashes(before),
        digits.len() == count,
        count > 0,
        all_digits_in(digits, 16),
        is_character(number_value(digits, 16)),
        number_value(digits, 16) <= 0xffff_ffff,
    ensures
        escapes_decoded(before + (seq!['\\', letter] + digits + after), letter, count) == before + (
        seq![(number_value(digits, 16) as u32) as char] + escapes_decoded(after, letter, count)),
{
    let text = seq!['\\', letter] + digits + after;
    lemma_escapes_kept(before, text, letter, count);
    let end = 2 + count as int;
    assert(text.subrange(2, end) =~= digits);
    assert(text.skip(end) =~= after);
    assert(digit_value(digits[0]) < 16);
    assert(digits[0] != '+');
}

proof fn lemma_other_escape(
    before: Seq<char>,
    other: char,
    inner: Seq<char>,
    after: Seq<char>,
    letter: char,
    count: nat,
)
    requires
        is_without_backslashes(before),
        is_without_backslashes(inner),
        is_without_backslashes(after),
        other != letter,
        other != '\\',
    ensures
        escapes_decoded(before + (seq!['\\', other] + inner + after), letter, count) == before + (
        seq!['\\', other] + inner + after),
{
    let text = seq!['\\', other] + inner + after;
    let rest = seq![other] + inner + after;
    lemma_escapes_kept(before, text, letter, count);
    assert(text[1] == other);
    assert(text.skip(1) =~= rest);
    assert(is_without_backslashes(rest)) by {
        assert forall|i: int| 0 <= i < rest.len() implies #[trigger] rest[i] != '\\' by {
            if 1 <= i < 1 + inner.len() {
                assert(inner[i - 1] != '\\');
            } else if i >= 1 + inner.len() {
                assert(after[i - 1 - inner.len()] != '\\');
            }
        }
    }
    let none = Seq::<char>::empty();
    lemma_escapes_kept(rest, none, letter, count);
    assert(rest + none =~= rest);
    assert(escapes_decoded(none, letter, count) =~= none);
    assert(seq!['\\'] + rest =~= text);
}

proof fn lemma_no_slash(before: Seq<char>, other: char, inner: Seq<char>, after: Seq<char>)
    requires
        is_without_backslashes(before),
        is_without_backslashes(inner),
        is_without_backslashes(after),
        other != '/',
        other != '\\',
    ensures
        slashes_decoded(before + (seq!['\\', other] + inner + after)) == before + (seq!['\\', other]
            + inner + after),
{
    let text = seq!['\\', other] + inner + after;
    let rest = seq![other] + inner + after;
    lemma_slashes_kept(before, text);
    assert(text[1] == other);
    assert(text.skip(1) =~= rest);
    assert(is_without_backslashes(rest)) by {
        assert forall|i: int| 0 <= i < rest.len() implies #[trigger] rest[i] != '\\' by {
            if 1 <= i < 1 + inner.len() {
                assert(inner[i - 1] != '\\');
            } else if i >= 1 + inner.len() {
                assert(after[i - 1 - inner.len()] != '\\');
            }
        }
    }
    lemma_plain(rest);
    assert(seq!['\\'] + rest =~= text);
}

/// A text without backslashes stays as it is. A backslash before a slash is left
/// out; `u` and four hexadecimal digits behind a backslash stand for a
/// character, and so do `x` and two.
pub proof fn escapes_stand_for_characters(
    before: Seq<char>,
    four: Seq<char>,
    two: Seq<char>,
    after: Seq<char>,
)
    requires
        is_without_backslashes(before),
        is_without_backslashes(after),
        four.len() == 4,
        all_digits_in(four, 16),
        is_character(number_value(four, 16)),
        number_value(four, 16) != 0x5c,
        two.len() == 2,
        all_digits_in(two, 16),
        number_value(two, 16) != 0x5c,
    ensures
        backslashes_decoded(before) == before,
        backslashes_decoded(before + seq!['\\', '/'] + after) == before + seq!['/'] + after,
        backslashes_decoded(before + (seq!['\\', 'u'] + four + after)) == before + seq![
            (number_value(four, 16) as u32) as char,
        ] + after,
        backslashes_decoded(before + (seq!['\\', 'x'] + two + after)) == before + seq![
            (number_value(two, 16) as u32) as char,
        ] + after,
{
    lemma_plain(before);
    lemma_plain(after);
    let sliced = before + seq!['\\', '/'] + after;
    assert(sliced =~= before + (seq!['\\', '/'] + after));
    lemma_slashes_kept(before, seq!['\\', '/'] + after);
    assert((seq!['\\', '/'] + after).skip(2) =~= after);
    let whole = before + seq!['/'] + after;
    assert(before + (seq!['/'] + after) =~= whole);
    lemma_joined(before, '/', after);
    lemma_plain(whole);
    lemma_digits_are_plain(four);
    lemma_digits_are_plain(two);
    lemma_number(four);
    lemma_number(two);
    lemma_no_slash(before, 'u', four, after);
    lemma_escape(before, 'u', four, 4, after);
    let first = (number_value(four, 16) as u32) as char;
    assert(before + (seq![first] + after) =~= before + seq![first] + after);
    lemma_joined(before, first, after);
    lemma_plain(before + seq![first] + after);
    lemma_no_slash(before, 'x', two, after);
    lemma_other_escape(before, 'x', two, after, 'u', 4);
    lemma_escape(before, 'x', two, 2, after);
    let second = (number_value(two, 16) as u32) as char;
    assert(before + (seq![second] + after) =~= before + seq![second] + after);
}

proof fn lemma_joined(before: Seq<char>, middle: char, after: Seq<char>)
    requires
        is_without_backslashes(before),
        is_without_backslashes(after),
        middle != '\\',
    ensures
        is_without_backslashes(before + seq![middle] + after),
{
    let whole = before + seq![middle] + after;
    assert forall|i: int| 0 <= i < whole.len() implies #[trigger] whole[i] != '\\' by {
        if i < before.len() {
            assert(before[i] != '\\');
        } else if i > before.len() {
            assert(after[i - before.len() - 1] != '\\');
        }
    }
}

proof fn lemma_digits_are_plain(digits: Seq<char>)
    requires
        all_digits_in(digits, 16),
    ensures
        is_without_backslashes(digits),
{
    assert forall|i: int| 0 <= i < digits.len() implies #[trigger] digits[i] != '\\' by {
        assert(digit_value(digits[i]) < 16);
    }
}

proof fn lemma_number(digits: Seq<char>)
    requires
        all_digits_in(digits, 16),
        digits.len() <= 4,
    ensures
        number_value(digits, 16) <= 0xffff,
        digits.len() == 2 ==> number_value(digits, 16) <= 0xff,
{
    reveal_with_fuel(number_value, 5);
    if digits.len() > 0 {
        assert(digit_value(digits[digits.len() - 1]) < 16);
    }
    if digits.len() > 1 {
        assert(digit_value(digits[digits.len() - 2]) < 16);
    }
    if digits.len() > 2 {
        assert(digit_value(digits[digits.len() - 3]) < 16);
    }
    if digits.len() > 3 {
        assert(digit_value(digits[digits.len() - 4]) < 16);
    }
}

} // verus!
