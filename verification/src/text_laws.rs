//! What the operations on texts and numbers do, stated by how texts are put
//! together and taken apart.
use crate::decode::{digit_value, number_value, signed_value, unsigned_value};
use crate::naming::{hyphenated_id, short_id, simple_id};
use crate::text::{
    after_last, decimal, holds_text, is_space, lower, occurs_at, signed_decimal, split_at_mark,
    trim_end_by, trim_start_by, trimmed,
};
use vstd::prelude::*;

verus! {

/// The text is something, the part, and something more.
pub open spec fn is_around(text: Seq<char>, part: Seq<char>) -> bool {
    exists|before: Seq<char>, after: Seq<char>| text == #[trigger] (before + part + after)
}

/// A part stands in a text exactly where the text is something, the part, and
/// something more.
pub proof fn parts_stand_between_others(text: Seq<char>, part: Seq<char>)
    ensures
        holds_text(text, part) <==> is_around(text, part),
{
    if holds_text(text, part) {
        let at = choose|at: int| occurs_at(text, part, at);
        let before = text.take(at);
        let after = text.skip(at + part.len());
        assert(text.subrange(at, at + part.len()) == part);
        assert(text =~= before + part + after) by {
            assert forall|i: int| 0 <= i < text.len() implies text[i] == (before + part + after)[i] by {
                if at <= i < at + part.len() {
                    assert(text.subrange(at, at + part.len())[i - at] == text[i]);
                }
            }
        }
    }
    if is_around(text, part) {
        let (before, after) = choose|before: Seq<char>, after: Seq<char>|
            text == #[trigger] (before + part + after);
        let at = before.len() as int;
        assert(text.subrange(at, at + part.len()) =~= part);
        assert(occurs_at(text, part, at));
    }
}

/// Capital letters of ASCII become small, and all else stays, place by place.
pub proof fn small_letters_replace_capitals(text: Seq<char>)
    ensures
        lower(text).len() == text.len(),
        forall|i: int|
            0 <= i < text.len() ==> if 'A' <= text[i] <= 'Z' {
                #[trigger] lower(text)[i] as u32 == text[i] as u32 + 32
            } else {
                lower(text)[i] == text[i]
            },
        lower(lower(text)) == lower(text),
{
    assert(lower(lower(text)) =~= lower(text));
}

/// The character is one that Unicode counts as white space.
pub open spec fn is_blank(character: char) -> bool {
    ||| character == ' '
    ||| character == '\t'
    ||| character == '\n'
    ||| character == '\r'
    ||| character == '\u{b}'
    ||| character == '\u{c}'
    ||| character == '\u{85}'
    ||| character == '\u{a0}'
    ||| character == '\u{1680}'
    ||| '\u{2000}' <= character <= '\u{200a}'
    ||| character == '\u{2028}'
    ||| character == '\u{2029}'
    ||| character == '\u{202f}'
    ||| character == '\u{205f}'
    ||| character == '\u{3000}'
}

pub proof fn lemma_blank(character: char)
    ensures
        is_space(character) ==> is_blank(character),
{
}

/// White space around a text is left out, and the text itself is not touched.
pub proof fn white_space_around_is_left_out(
    before: Seq<char>,
    inner: Seq<char>,
    after: Seq<char>,
)
    requires
        forall|i: int| 0 <= i < before.len() ==> is_blank(#[trigger] before[i]),
        forall|i: int| 0 <= i < after.len() ==> is_blank(#[trigger] after[i]),
        inner.len() > 0 ==> !is_blank(inner[0]) && !is_blank(inner.last()),
    ensures
        trimmed(before + inner + after) == inner,
{
    lemma_trim_start(before, inner + after);
    assert(before + inner + after =~= before + (inner + after));
    if inner.len() > 0 {
        assert((inner + after)[0] == inner[0]);
        lemma_blank(inner[0]);
        lemma_blank(inner.last());
        lemma_trim_end(inner, after);
    } else {
        assert(inner + after =~= after);
        lemma_trim_start(after, Seq::empty());
        assert(after + Seq::empty() =~= after);
        assert(inner =~= Seq::empty());
    }
}

pub proof fn lemma_trim_start(before: Seq<char>, rest: Seq<char>)
    requires
        forall|i: int| 0 <= i < before.len() ==> is_blank(#[trigger] before[i]),
    ensures
        trim_start_by(before + rest, |character: char| is_space(character)) == trim_start_by(
            rest,
            |character: char| is_space(character),
        ),
    decreases before.len(),
{
    if before.len() > 0 {
        assert((before + rest)[0] == before[0]);
        assert(is_blank(before[0]));
        assert((before + rest).skip(1) =~= before.skip(1) + rest);
        assert forall|i: int| 0 <= i < before.skip(1).len() implies is_blank(
            #[trigger] before.skip(1)[i],
        ) by {
            assert(is_blank(before[i + 1]));
        }
        lemma_trim_start(before.skip(1), rest);
    } else {
        assert(before + rest =~= rest);
    }
}

proof fn lemma_trim_end(rest: Seq<char>, after: Seq<char>)
    requires
        forall|i: int| 0 <= i < after.len() ==> is_blank(#[trigger] after[i]),
    ensures
        trim_end_by(rest + after, |character: char| is_space(character)) == trim_end_by(
            rest,
            |character: char| is_space(character),
        ),
    decreases after.len(),
{
    if after.len() > 0 {
        assert((rest + after).last() == after.last());
        assert(is_blank(after[after.len() - 1]));
        assert((rest + after).drop_last() =~= rest + after.drop_last());
        assert forall|i: int| 0 <= i < after.drop_last().len() implies is_blank(
            #[trigger] after.drop_last()[i],
        ) by {
            assert(is_blank(after[i]));
        }
        lemma_trim_end(rest, after.drop_last());
    } else {
        assert(rest + after =~= rest);
    }
}

/// Of a text with a mark in it, what follows the last mark is kept; a text
/// without the mark is kept whole.
pub proof fn what_follows_the_last_mark_is_kept(head: Seq<char>, tail: Seq<char>, mark: char)
    requires
        !tail.contains(mark),
    ensures
        after_last(head + seq![mark] + tail, mark) == tail,
        after_last(tail, mark) == tail,
    decreases tail.len(),
{
    let whole = head + seq![mark] + tail;
    if tail.len() > 0 {
        let fewer = tail.drop_last();
        assert(!fewer.contains(mark)) by {
            assert forall|i: int| 0 <= i < fewer.len() implies fewer[i] != mark by {
                assert(tail[i] != mark);
            }
        }
        what_follows_the_last_mark_is_kept(head, fewer, mark);
        assert(whole.drop_last() =~= head + seq![mark] + fewer);
        assert(whole.last() == tail.last());
        assert(tail[tail.len() - 1] != mark);
        assert(fewer.push(tail.last()) =~= tail);
    } else {
        assert(whole.last() == mark);
        assert(tail =~= Seq::empty());
    }
}

/// A text is split at its marks: one without marks is one piece, and each mark
/// begins a new one.
pub proof fn texts_are_split_at_marks(head: Seq<char>, tail: Seq<char>, mark: char)
    requires
        !tail.contains(mark),
    ensures
        split_at_mark(tail, mark) == seq![tail],
        split_at_mark(head + seq![mark] + tail, mark) == split_at_mark(head, mark).push(tail),
    decreases tail.len(),
{
    let whole = head + seq![mark] + tail;
    if tail.len() > 0 {
        let fewer = tail.drop_last();
        assert(!fewer.contains(mark)) by {
            assert forall|i: int| 0 <= i < fewer.len() implies fewer[i] != mark by {
                assert(tail[i] != mark);
            }
        }
        texts_are_split_at_marks(head, fewer, mark);
        assert(tail[tail.len() - 1] != mark);
        assert(whole.drop_last() =~= head + seq![mark] + fewer);
        assert(whole.last() == tail.last());
        assert(fewer.push(tail.last()) =~= tail);
        assert(seq![fewer].drop_last().push(tail) =~= seq![tail]);
        assert(split_at_mark(head, mark).push(fewer).drop_last().push(tail) =~= split_at_mark(
            head,
            mark,
        ).push(tail));
    } else {
        assert(tail =~= Seq::empty());
        assert(whole.drop_last() =~= head);
        assert(whole.last() == mark);
    }
}

/// A number is written in decimal digits, without zeros before it, and the
/// digits read as the number again.
pub proof fn numbers_are_written_in_decimal(number: nat)
    ensures
        decimal(number).len() > 0,
        forall|i: int| 0 <= i < decimal(number).len() ==> '0' <= #[trigger] decimal(number)[i] <= '9',
        decimal(number).len() > 1 ==> decimal(number)[0] != '0',
        number_value(decimal(number), 10) == number,
        forall|max: nat| number <= max ==> #[trigger] unsigned_value(decimal(number), 10, max) == Some(
            number,
        ),
        forall|max: nat| max < number ==> #[trigger] unsigned_value(decimal(number), 10, max) is None,
    decreases number,
{
    let text = decimal(number);
    if number >= 10 {
        numbers_are_written_in_decimal(number / 10);
        let fewer = decimal(number / 10);
        assert(text.drop_last() =~= fewer);
        assert(text[0] == fewer[0]);
        if fewer.len() == 1 {
            reveal_with_fuel(number_value, 2);
            assert(number_value(fewer.drop_last(), 10) == 0);
            assert(digit_value(fewer[0]) == number / 10);
        }
    } else {
        reveal_with_fuel(number_value, 2);
        assert(text.drop_last() =~= Seq::empty());
    }
    assert(text[0] != '+');
    assert(crate::decode::all_digits_in(text, 10));
}

/// A 64-bit integer is written with a minus where it is negative, and reads as
/// the same integer again.
pub proof fn integers_are_written_in_decimal(number: i64)
    ensures
        signed_value(signed_decimal(number as int)) == Some(number as int),
        number < 0 ==> signed_decimal(number as int)[0] == '-',
        number >= 0 ==> signed_decimal(number as int) == decimal(number as nat),
{
    reveal_strlit("-");
    if number < 0 {
        numbers_are_written_in_decimal((-(number as int)) as nat);
        assert(signed_decimal(number as int).skip(1) =~= decimal((-(number as int)) as nat));
    } else {
        numbers_are_written_in_decimal(number as nat);
    }
}

/// An integer is read where it fits 64 bits, with a minus before it or a plus or
/// nothing; nothing else is one.
pub proof fn integers_are_read_within_bounds(text: Seq<char>, digits: Seq<char>)
    ensures
        signed_value(text) matches Some(value) ==> i64::MIN <= value <= i64::MAX,
        text == seq!['-'] + digits && digits.len() > 0 ==> match signed_value(text) {
            Some(value) => crate::decode::all_digits_in(digits, 10) && value == -(number_value(
                digits,
                10,
            ) as int),
            None => !crate::decode::all_digits_in(digits, 10) || number_value(digits, 10)
                > 0x8000_0000_0000_0000,
        },
        text.len() > 0 && text[0] != '-' ==> match signed_value(text) {
            Some(value) => value >= 0 && unsigned_value(text, 10, 0x7fff_ffff_ffff_ffff) == Some(
                value as nat,
            ),
            None => unsigned_value(text, 10, 0x7fff_ffff_ffff_ffff) is None,
        },
        text.len() == 0 || text == seq!['-'] || text == seq!['+'] ==> signed_value(text) is None,
{
    if text == seq!['-'] + digits {
        assert(text.skip(1) =~= digits);
    }
    if text == seq!['-'] || text == seq!['+'] {
        assert(digit_value(text[0]) == 16);
    }
}

/// A number is read digit by digit: one more digit makes it so many times the
/// base, and the digit more. A plus sign before it makes no difference.
pub proof fn numbers_are_read_digit_by_digit(
    digits: Seq<char>,
    digit: char,
    base: nat,
    max: nat,
)
    requires
        2 <= base <= 16,
        digits.len() > 0,
        digits[0] != '+',
    ensures
        unsigned_value(digits.push(digit), base, max) == (match unsigned_value(digits, base, max) {
            Some(value) => if digit_value(digit) < base && value * base + digit_value(digit) <= max {
                Some(value * base + digit_value(digit))
            } else {
                None
            },
            None => None,
        }),
        unsigned_value(seq!['+'] + digits, base, max) == unsigned_value(digits, base, max),
        unsigned_value(Seq::empty(), base, max) is None,
        unsigned_value(seq!['+'], base, max) is None,
{
    let more = digits.push(digit);
    assert(more.drop_last() =~= digits);
    assert((seq!['+'] + digits).skip(1) =~= digits);
    assert(digit_value(seq!['+'][0]) == 16);
    if crate::decode::all_digits_in(more, base) {
        assert(crate::decode::all_digits_in(digits, base)) by {
            assert forall|i: int| 0 <= i < digits.len() implies digit_value(#[trigger] digits[i])
                < base by {
                assert(more[i] == digits[i]);
            }
        }
        assert(more[digits.len() as int] == digit);
        let value = number_value(digits, base);
        assert(value <= value * base) by (nonlinear_arith)
            requires
                base >= 2,
        ;
    } else if crate::decode::all_digits_in(digits, base) && digit_value(digit) < base {
        assert forall|i: int| 0 <= i < more.len() implies digit_value(#[trigger] more[i]) < base by {
            if i < digits.len() {
                assert(more[i] == digits[i]);
            }
        }
    }
}

/// The digits of a base of at most sixteen, in small or capital letters, and
/// what they count.
pub proof fn digits_count_up_to_fifteen(character: char)
    ensures
        '0' <= character <= '9' ==> digit_value(character) == character as u32 - 48,
        'a' <= character <= 'f' ==> digit_value(character) == character as u32 - 87,
        'A' <= character <= 'F' ==> digit_value(character) == character as u32 - 55,
        !('0' <= character <= '9') && !('a' <= character <= 'f') && !('A' <= character <= 'F')
            ==> digit_value(character) >= 16,
{
}

proof fn lemma_hex(number: nat, digits: nat, room: nat)
    requires
        number < room,
        room == vstd::arithmetic::power::pow(16, digits) as nat,
    ensures
        crate::naming::hex_text(number, digits).len() == digits,
        number_value(crate::naming::hex_text(number, digits), 16) == number,
        forall|i: int|
            0 <= i < digits ==> ('0' <= #[trigger] crate::naming::hex_text(number, digits)[i] <= '9'
                || 'a' <= crate::naming::hex_text(number, digits)[i] <= 'f'),
    decreases digits,
{
    vstd::arithmetic::power::lemma_pow0(16);
    if digits > 0 {
        let less = vstd::arithmetic::power::pow(16, (digits - 1) as nat) as nat;
        vstd::arithmetic::power::lemma_pow_positive(16, (digits - 1) as nat);
        vstd::arithmetic::power::lemma_pow_adds(16, 1, (digits - 1) as nat);
        vstd::arithmetic::power::lemma_pow1(16);
        assert(room == 16 * less);
        lemma_hex(number / 16, (digits - 1) as nat, less);
        let text = crate::naming::hex_text(number, digits);
        assert(text.drop_last() =~= crate::naming::hex_text(number / 16, (digits - 1) as nat));
        assert(digit_value(text.last()) == number % 16);
    }
}

/// A task is known by its number in 32 hexadecimal digits with small letters;
/// with hyphens they stand in groups of eight, four, four, four and twelve, and
/// the first eight make the short form.
pub proof fn tasks_are_known_by_their_digits(id: u128)
    ensures
        simple_id(id).len() == 32,
        number_value(simple_id(id), 16) == id,
        forall|i: int|
            0 <= i < 32 ==> ('0' <= #[trigger] simple_id(id)[i] <= '9' || 'a' <= simple_id(id)[i]
                <= 'f'),
        hyphenated_id(id).len() == 36,
        hyphenated_id(id)[8] == '-' && hyphenated_id(id)[13] == '-' && hyphenated_id(id)[18] == '-'
            && hyphenated_id(id)[23] == '-',
        hyphenated_id(id).filter(|character: char| character != '-') == simple_id(id),
        short_id(id) == simple_id(id).subrange(0, 8),
{
    let room = vstd::arithmetic::power::pow(16, 32) as nat;
    assert(vstd::arithmetic::power::pow(16, 32) == 0x1_0000_0000_0000_0000_0000_0000_0000_0000int)
        by {
        reveal_with_fuel(vstd::arithmetic::power::pow, 33);
    }
    lemma_hex(id as nat, 32, room);
    reveal_strlit("-");
    let digits = simple_id(id);
    let keep = |character: char| character != '-';
    let parts = seq![
        digits.subrange(0, 8),
        digits.subrange(8, 12),
        digits.subrange(12, 16),
        digits.subrange(16, 20),
        digits.subrange(20, 32),
    ];
    lemma_kept(digits.subrange(0, 8), keep);
    lemma_kept(digits.subrange(8, 12), keep);
    lemma_kept(digits.subrange(12, 16), keep);
    lemma_kept(digits.subrange(16, 20), keep);
    lemma_kept(digits.subrange(20, 32), keep);
    let first = parts[0] + "-"@;
    let second = first + parts[1];
    let third = second + "-"@;
    let fourth = third + parts[2];
    let fifth = fourth + "-"@;
    let sixth = fifth + parts[3];
    let seventh = sixth + "-"@;
    assert("-"@.filter(keep) =~= Seq::empty()) by {
        reveal(Seq::filter);
        assert("-"@.drop_last() =~= Seq::empty());
        assert("-"@.drop_last().filter(keep) =~= Seq::empty());
    }
    Seq::filter_distributes_over_add(parts[0], "-"@, keep);
    Seq::filter_distributes_over_add(first, parts[1], keep);
    Seq::filter_distributes_over_add(second, "-"@, keep);
    Seq::filter_distributes_over_add(third, parts[2], keep);
    Seq::filter_distributes_over_add(fourth, "-"@, keep);
    Seq::filter_distributes_over_add(fifth, parts[3], keep);
    Seq::filter_distributes_over_add(sixth, "-"@, keep);
    Seq::filter_distributes_over_add(seventh, parts[4], keep);
    assert(hyphenated_id(id).filter(keep) =~= digits);
    assert(short_id(id) =~= digits.subrange(0, 8));
}

proof fn lemma_kept(text: Seq<char>, keep: spec_fn(char) -> bool)
    requires
        forall|i: int| 0 <= i < text.len() ==> keep(#[trigger] text[i]),
    ensures
        text.filter(keep) == text,
    decreases text.len(),
{
    reveal(Seq::filter);
    if text.len() > 0 {
        let fewer = text.drop_last();
        assert forall|i: int| 0 <= i < fewer.len() implies keep(#[trigger] fewer[i]) by {
            assert(text[i] == fewer[i]);
        }
        lemma_kept(fewer, keep);
        assert(keep(text[text.len() - 1]));
        assert(fewer.push(text.last()) =~= text);
    } else {
        assert(text.filter(keep) =~= text);
    }
}

} // verus!
