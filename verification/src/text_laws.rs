//! What the helpers on texts and numerals give, character by character.
use vstd::prelude::*;

#[allow(unused_imports)]
use crate::decimal::{
    all_digits, decimal, digit_value, digits_value, is_digit, lemma_decimal, numeral_digits,
    parse_unsigned,
};
#[allow(unused_imports)]
use crate::text::{
    after_prefix, first_index, first_match, join, lemma_first_index, lemma_join_push, split,
    trim_start,
};

verus! {

/// Whether `rest` is what is left of `s` behind the `c`s that it starts with.
pub open spec fn left_behind(s: Seq<char>, rest: Seq<char>, c: char) -> bool {
    &&& rest.len() <= s.len()
    &&& forall|i: int| 0 <= i < s.len() - rest.len() ==> #[trigger] s[i] == c
    &&& forall|i: int|
        0 <= i < rest.len() ==> #[trigger] rest[i] == s[s.len() - rest.len() + i]
    &&& rest.len() > 0 ==> rest[0] != c
}

/// Whether `pattern` lies in `s` at `i`.
pub open spec fn lies_at(s: Seq<char>, pattern: Seq<char>, i: int) -> bool {
    &&& 0 <= i
    &&& i + pattern.len() <= s.len()
    &&& forall|j: int| 0 <= j < pattern.len() ==> #[trigger] pattern[j] == s[i + j]
}

/// Trimming takes away every `c` in front and nothing else.
pub proof fn law_trimming(s: Seq<char>, c: char)
    ensures
        left_behind(s, trim_start(s, c), c),
    decreases s.len(),
{
    if s.len() > 0 && s[0] == c {
        let tail = s.drop_first();
        law_trimming(tail, c);
        let rest = trim_start(s, c);
        assert forall|i: int| 0 <= i < s.len() - rest.len() implies #[trigger] s[i] == c by {
            if i > 0 {
                assert(tail[i - 1] == s[i]);
            }
        }
        assert forall|i: int| 0 <= i < rest.len() implies #[trigger] rest[i] == s[s.len()
            - rest.len() + i] by {
            assert(rest[i] == tail[tail.len() - rest.len() + i]);
        }
    }
}

/// There is only one such rest.
pub proof fn lemma_left_behind_once(s: Seq<char>, a: Seq<char>, b: Seq<char>, c: char)
    requires
        left_behind(s, a, c),
        left_behind(s, b, c),
    ensures
        a == b,
{
    if a.len() < b.len() {
        assert(b[0] == s[s.len() - b.len()]);
        assert(s[s.len() - b.len()] == c);
    } else if b.len() < a.len() {
        assert(a[0] == s[s.len() - a.len()]);
        assert(s[s.len() - a.len()] == c);
    }
    assert(a =~= b);
}

/// A prefix is taken off if and only if the text starts with it, and the text
/// is then the prefix followed by the rest.
pub proof fn law_prefixes(s: Seq<char>, prefix: Seq<char>)
    ensures
        after_prefix(s, prefix) is Some <==> lies_at(s, prefix, 0),
        after_prefix(s, prefix) matches Some(rest) ==> s == prefix + rest,
{
    if lies_at(s, prefix, 0) {
        assert(prefix =~= s.subrange(0, prefix.len() as int));
        assert(prefix.is_prefix_of(s));
    }
    if prefix.is_prefix_of(s) {
        assert(s =~= prefix + s.skip(prefix.len() as int));
    }
}

/// A pattern is found where it first lies, and it is not found only if it
/// lies nowhere.
pub proof fn law_first_match(s: Seq<char>, pattern: Seq<char>)
    ensures
        match first_match(s, pattern) {
            Some(i) => lies_at(s, pattern, i) && forall|j: int|
                0 <= j < i ==> !#[trigger] lies_at(s, pattern, j),
            None => forall|j: int| !#[trigger] lies_at(s, pattern, j),
        },
    decreases s.len(),
{
    law_prefixes(s, pattern);
    if !pattern.is_prefix_of(s) && s.len() > 0 {
        let tail = s.drop_first();
        law_first_match(tail, pattern);
        assert forall|j: int| 0 < j && #[trigger] lies_at(s, pattern, j) implies lies_at(
            tail,
            pattern,
            j - 1,
        ) by {}
        if let Some(i) = first_match(tail, pattern) {
            assert(lies_at(s, pattern, i + 1)) by {
                assert forall|j: int| 0 <= j < pattern.len() implies #[trigger] pattern[j] == s[i
                    + 1 + j] by {
                    assert(pattern[j] == tail[i + j]);
                }
            }
        }
    }
    if s.len() == 0 && !pattern.is_prefix_of(s) {
        assert(pattern.len() > 0);
    }
}

/// The parts between the occurrences of a character, put together with that
/// character between them, are the text; and no part holds the character.
pub proof fn law_split_and_join(s: Seq<char>, c: char)
    ensures
        join(split(s, c), seq![c]) == s,
        split(s, c).len() > 0,
        forall|i: int, k: int|
            0 <= i < split(s, c).len() && 0 <= k < split(s, c)[i].len() ==> #[trigger] split(
                s,
                c,
            )[i][k] != c,
    decreases s.len(),
{
    lemma_first_index(s, c);
    let i = first_index(s, c);
    if i < s.len() {
        let tail = s.skip(i + 1);
        law_split_and_join(tail, c);
        assert(split(s, c).drop_first() =~= split(tail, c));
        assert(s =~= s.take(i) + seq![c] + tail);
        assert forall|j: int, k: int|
            0 <= j < split(s, c).len() && 0 <= k < split(s, c)[j].len() implies #[trigger] split(
            s,
            c,
        )[j][k] != c by {
            if j > 0 {
                assert(split(s, c)[j] == split(tail, c)[j - 1]);
            }
        }
    }
}

/// Nothing put together is the empty text, one part is itself, and each
/// further part comes behind a separator.
pub proof fn law_joining(parts: Seq<Seq<char>>, part: Seq<char>, sep: Seq<char>)
    ensures
        join(Seq::empty(), sep).len() == 0,
        join(seq![part], sep) == part,
        parts.len() > 0 ==> join(parts.push(part), sep) == join(parts, sep) + sep + part,
{
    lemma_join_push(parts, part, sep);
}

/// A digit is one of `0` to `9` and stands for the number that it shows.
pub proof fn law_digits(c: char)
    ensures
        is_digit(c) <==> "0123456789"@.contains(c),
        forall|i: int| 0 <= i < 10 ==> digit_value(#[trigger] "0123456789"@[i]) == i,
{
    reveal_strlit("0123456789");
    let s = "0123456789"@;
    assert forall|i: int| 0 <= i < 10 implies digit_value(#[trigger] s[i]) == i by {
        assert(s[0] == '0' && s[1] == '1' && s[2] == '2' && s[3] == '3' && s[4] == '4' && s[5]
            == '5' && s[6] == '6' && s[7] == '7' && s[8] == '8' && s[9] == '9');
    }
    if is_digit(c) {
        assert(s[c as int - 48] == c);
    }
    if s.contains(c) {
        let i = choose|i: int| 0 <= i < s.len() && s[i] == c;
        assert(is_digit(s[i]));
    }
}

/// Digits are read from left to right, each ten times as much as the next.
pub proof fn law_places(s: Seq<char>, c: char)
    ensures
        digits_value(Seq::empty()) == 0,
        digits_value(s.push(c)) == 10 * digits_value(s) + digit_value(c),
{
    assert(s.push(c).drop_last() =~= s);
}

/// A number is written in digits that stand for it, without a 0 in front.
pub proof fn law_numerals(n: nat)
    ensures
        decimal(n).len() > 0,
        forall|i: int| 0 <= i < decimal(n).len() ==> '0' <= #[trigger] decimal(n)[i] <= '9',
        decimal(n).len() > 1 ==> decimal(n)[0] != '0',
        digits_value(decimal(n)) == n,
    decreases n,
{
    lemma_decimal(n);
    assert forall|i: int| 0 <= i < decimal(n).len() implies '0' <= #[trigger] decimal(n)[i]
        <= '9' by {
        assert(is_digit(decimal(n)[i]));
    }
    if n >= 10 {
        let m = n / 10;
        law_numerals(m);
        assert(decimal(n)[0] == decimal(m)[0]);
        if decimal(m).len() == 1 && decimal(m)[0] == '0' {
            assert(decimal(m).drop_last() =~= Seq::<char>::empty());
            assert(digits_value(decimal(m).drop_last()) == 0);
            assert(digits_value(decimal(m)) == 0);
        }
    }
}

/// Digits, with or without a `+` in front, are read as the number that they
/// stand for if that is at most `max`; any other text is read as no number.
pub proof fn law_reading_numerals(digits: Seq<char>, other: Seq<char>, max: nat)
    requires
        digits.len() > 0,
        forall|i: int| 0 <= i < digits.len() ==> '0' <= #[trigger] digits[i] <= '9',
        other.len() == 0 || !('0' <= other[0] <= '9') && (other[0] != '+' || other.len() == 1) || (
        exists|i: int| 0 < i < other.len() && !('0' <= #[trigger] other[i] <= '9')),
    ensures
        digits_value(digits) <= max ==> parse_unsigned(digits, max) == Some(digits_value(digits)),
        digits_value(digits) <= max ==> parse_unsigned(seq!['+'] + digits, max) == Some(
            digits_value(digits),
        ),
        digits_value(digits) > max ==> parse_unsigned(digits, max) is None,
        digits_value(digits) > max ==> parse_unsigned(seq!['+'] + digits, max) is None,
        parse_unsigned(other, max) is None,
{
    assert((seq!['+'] + digits).drop_first() =~= digits);
    assert(digits[0] != '+');
    let d = numeral_digits(other);
    if d.len() > 0 && all_digits(d) {
        if exists|i: int| 0 < i < other.len() && !('0' <= #[trigger] other[i] <= '9') {
            let i = choose|i: int| 0 < i < other.len() && !('0' <= #[trigger] other[i] <= '9');
            if other[0] == '+' {
                assert(d[i - 1] == other[i]);
            } else {
                assert(d[i] == other[i]);
            }
        } else if other[0] == '+' {
            assert(other.len() == 1);
        } else {
            assert(is_digit(d[0]));
        }
    }
}

} // verus!
