//! What the operations on text come to, said of their results.
use crate::text;
use vstd::prelude::*;

verus! {

/// Trimming cuts off white space at both ends and nothing else: what it cuts off is white space,
/// and what it leaves neither starts nor ends with any.
pub proof fn law_trimming_cuts_off_white_space_alone(s: Seq<char>) -> (ends: (int, int))
    ensures
        0 <= ends.0 <= ends.1 <= s.len(),
        text::trimmed(s) == s.subrange(ends.0, ends.1),
        forall|i: int| 0 <= i < ends.0 ==> text::is_white_space(#[trigger] s[i]),
        forall|i: int| ends.1 <= i < s.len() ==> text::is_white_space(#[trigger] s[i]),
        ends.0 < ends.1 ==> !text::is_white_space(s[ends.0]) && !text::is_white_space(s[ends.1 - 1]),
{
    let from = lemma_trim_start(s);
    let rest = s.skip(from);
    let to = lemma_trim_end(rest);
    assert(rest.take(to) =~= s.subrange(from, from + to));
    assert forall|i: int| from + to <= i < s.len() implies text::is_white_space(#[trigger] s[i]) by {
        assert(s[i] == rest[i - from]);
    }
    if to > 0 {
        assert(rest.take(to).first() == s[from]);
        assert(rest.take(to).last() == s[from + to - 1]);
    }
    (from, from + to)
}

proof fn lemma_trim_start(s: Seq<char>) -> (k: int)
    ensures
        0 <= k <= s.len(),
        text::trim_start(s) == s.skip(k),
        forall|i: int| 0 <= i < k ==> text::is_white_space(#[trigger] s[i]),
        k < s.len() ==> !text::is_white_space(s[k]),
    decreases s.len(),
{
    if s.len() > 0 && text::is_white_space(s.first()) {
        let k = lemma_trim_start(s.drop_first());
        assert(s.drop_first().skip(k) =~= s.skip(k + 1));
        assert forall|i: int| 0 <= i < k + 1 implies text::is_white_space(#[trigger] s[i]) by {
            if i > 0 {
                assert(s[i] == s.drop_first()[i - 1]);
            }
        }
        k + 1
    } else {
        assert(s.skip(0) =~= s);
        0
    }
}

proof fn lemma_trim_end(s: Seq<char>) -> (k: int)
    ensures
        0 <= k <= s.len(),
        text::trim_end(s) == s.take(k),
        forall|i: int| k <= i < s.len() ==> text::is_white_space(#[trigger] s[i]),
        k > 0 ==> !text::is_white_space(s[k - 1]),
    decreases s.len(),
{
    if s.len() > 0 && text::is_white_space(s.last()) {
        let k = lemma_trim_end(s.drop_last());
        assert(s.drop_last().take(k) =~= s.take(k));
        assert forall|i: int| k <= i < s.len() implies text::is_white_space(#[trigger] s[i]) by {
            if i < s.len() - 1 {
                assert(s[i] == s.drop_last()[i]);
            }
        }
        k
    } else {
        assert(s.take(s.len() as int) =~= s);
        s.len() as int
    }
}

/// The parts of a split text hold no separator, and joined by it they are the text again.
pub proof fn law_joining_undoes_splitting(s: Seq<char>, sep: char)
    ensures
        text::joined(text::split_on(s, sep), sep) == s,
        forall|i: int|
            0 <= i < text::split_on(s, sep).len() ==> !(#[trigger] text::split_on(s, sep)[i]).contains(sep),
    decreases s.len(),
{
    text::lemma_split_parts(s, sep);
    text::lemma_find_first(s, sep);
    let k = text::find(s, sep) as int;
    let parts = text::split_on(s, sep);
    if k < s.len() {
        let rest = s.skip(k + 1);
        law_joining_undoes_splitting(rest, sep);
        text::lemma_split_parts(rest, sep);
        law_joining_two_lists(seq![s.take(k)], text::split_on(rest, sep), sep);
        assert(parts == seq![s.take(k)] + text::split_on(rest, sep));
        assert(text::joined(seq![s.take(k)], sep) == s.take(k));
        assert(text::joined(parts, sep) =~= s);
    } else {
        assert(text::joined(parts, sep) == parts[0]);
    }
}

/// Joining two lists is joining the one, then the separator, then the other; one part alone is
/// itself, and no parts are nothing.
pub proof fn law_joining_two_lists(x: Seq<Seq<char>>, y: Seq<Seq<char>>, sep: char)
    requires
        x.len() > 0,
        y.len() > 0,
    ensures
        text::joined(x + y, sep) == text::joined(x, sep) + seq![sep] + text::joined(y, sep),
        x.len() == 1 ==> text::joined(x, sep) == x[0],
        text::joined(Seq::empty(), sep) == Seq::<char>::empty(),
    decreases y.len(),
{
    let all = x + y;
    if y.len() == 1 {
        assert(all.drop_last() =~= x);
    } else {
        law_joining_two_lists(x, y.drop_last(), sep);
        assert(all.drop_last() =~= x + y.drop_last());
        assert(text::joined(y, sep) == text::joined(y.drop_last(), sep).push(sep) + y.last());
    }
    assert(text::joined(all, sep) =~= text::joined(x, sep) + seq![sep] + text::joined(y, sep));
}

/// A text that is split once is the one part, the separator, and the other part, and the first
/// part holds no separator; a text is not split exactly where it holds none.
pub proof fn law_splitting_once(s: Seq<char>, sep: char)
    ensures
        text::split_first(s, sep) matches Some(parts) ==> s == parts.0 + seq![sep] + parts.1
            && !parts.0.contains(sep),
        text::split_first(s, sep) is None <==> !s.contains(sep),
{
    text::lemma_find_first(s, sep);
    let k = text::find(s, sep) as int;
    if k < s.len() {
        assert(s =~= s.take(k) + seq![sep] + s.skip(k + 1));
        assert(!s.take(k).contains(sep)) by {
            if s.take(k).contains(sep) {
                let i = choose|i: int| 0 <= i < k && s.take(k)[i] == sep;
                assert(s[i] == sep);
            }
        }
    }
}

/// Taking a prefix off gives what was behind it, and only a text that starts with it has one to
/// take off.
pub proof fn law_stripping_a_prefix(prefix: Seq<char>, rest: Seq<char>, s: Seq<char>)
    ensures
        text::stripped(prefix + rest, prefix) == Some(rest),
        text::stripped(s, prefix) matches Some(r) ==> s == prefix + r,
{
    assert(prefix =~= (prefix + rest).subrange(0, prefix.len() as int));
    assert((prefix + rest).skip(prefix.len() as int) =~= rest);
    if prefix.is_prefix_of(s) {
        assert(s =~= prefix + s.skip(prefix.len() as int));
    }
}

/// A text that is put between two others is found there, whatever they are.
pub proof fn law_parts_are_found(before: Seq<char>, part: Seq<char>, after: Seq<char>)
    ensures
        text::has_part(before + part + after, part),
        text::around(before, part, after) == before + (part + after),
{
    let s = before + part + after;
    let n = before.len() as int;
    assert(s.subrange(n, n + part.len()) =~= part);
    assert(s =~= before + (part + after));
}

/// A text in which a part is found is that part with something before and after it.
pub proof fn law_found_parts_are_there(s: Seq<char>, part: Seq<char>) -> (sides: (Seq<char>, Seq<char>))
    requires
        text::has_part(s, part),
    ensures
        s == sides.0 + part + sides.1,
{
    let i = choose|i: int| 0 <= i <= s.len() - part.len() && #[trigger] s.subrange(i, i + part.len()) == part;
    let sides = (s.take(i), s.skip(i + part.len()));
    assert(s =~= sides.0 + s.subrange(i, i + part.len()) + sides.1);
    sides
}

/// Texts are ordered by the first character in which they differ, and a text comes before those
/// that extend it.
pub proof fn law_order_of_texts(start: Seq<char>, a: char, b: char, x: Seq<char>, y: Seq<char>)
    requires
        a < b,
    ensures
        text::no_later(start.push(a) + x, start.push(b) + y),
        !text::no_later(start.push(b) + y, start.push(a) + x),
        text::no_later(start, start + x),
        x.len() > 0 ==> !text::no_later(start + x, start),
    decreases start.len(),
{
    let p = start.push(a) + x;
    let q = start.push(b) + y;
    if start.len() == 0 {
        assert(p.first() == a && q.first() == b);
    } else {
        let rest = start.drop_first();
        law_order_of_texts(rest, a, b, x, y);
        assert(p.drop_first() =~= rest.push(a) + x);
        assert(q.drop_first() =~= rest.push(b) + y);
        assert(p.first() == start.first() && q.first() == start.first());
        assert((start + x).drop_first() =~= rest + x);
        assert((start + x).first() == start.first());
    }
}

/// Decimal numbers are read by place: what stands before counts ten times as much for each digit
/// behind it. A single digit counts what it shows.
pub proof fn law_decimal_places(a: Seq<char>, b: Seq<char>, c: char)
    requires
        text::decimal_value(a) is Some,
        text::decimal_value(b) is Some,
    ensures
        text::decimal_value(a + b) == Some(
            (text::decimal_value(a)->0 * vstd::arithmetic::power::pow(10, b.len()) + text::decimal_value(b)->0) as nat,
        ),
        text::decimal_value(seq![c]) == if '0' <= c <= '9' { Some((c as int - '0' as int) as nat) } else { None },
        text::decimal_value(Seq::empty()) is None,
    decreases b.len(),
{
    let all = a + b;
    let high = text::decimal_value(a)->0;
    vstd::arithmetic::power::lemma_pow_positive(10, b.len());
    if b.len() == 1 {
        assert(all.drop_last() =~= a);
        vstd::arithmetic::power::lemma_pow1(10);
    } else {
        let front = b.drop_last();
        assert(text::decimal_value(front) is Some);
        law_decimal_places(a, front, c);
        assert(all.drop_last() =~= a + front);
        reveal(vstd::arithmetic::power::pow);
        let p = vstd::arithmetic::power::pow(10, front.len());
        vstd::arithmetic::power::lemma_pow_positive(10, front.len());
        assert(vstd::arithmetic::power::pow(10, b.len()) == 10 * p);
        assert(high * (10 * p) == (high * p) * 10) by (nonlinear_arith);
        assert(high * p >= 0) by (nonlinear_arith)
            requires
                high >= 0,
                p > 0,
        ;
    }
    assert(high * vstd::arithmetic::power::pow(10, b.len()) >= 0) by (nonlinear_arith)
        requires
            high >= 0,
            vstd::arithmetic::power::pow(10, b.len()) > 0,
    ;
}

/// A text writes a small number exactly where it writes a decimal number of at most 255, with or
/// without a plus sign before it.
pub proof fn law_small_numbers(digits: Seq<char>)
    ensures
        text::decimal_value(digits) matches Some(n) ==> {
            &&& text::small_number(digits) == if n <= 255 { Some(n) } else { None }
            &&& text::small_number("+"@ + digits) == text::small_number(digits)
        },
        text::decimal_value(digits) is None && !digits.contains('+') ==> text::small_number(digits) is None
            && text::small_number("+"@ + digits) is None,
{
    reveal_strlit("+");
    assert(("+"@ + digits).drop_first() =~= digits);
    assert(("+"@ + digits).first() == '+');
    if digits.len() > 0 && digits.first() == '+' {
        assert(digits.contains('+'));
        lemma_decimal_starts_with_a_digit(digits);
    }
}

proof fn lemma_decimal_starts_with_a_digit(s: Seq<char>)
    requires
        s.len() > 0,
        !('0' <= s.first() <= '9'),
    ensures
        text::decimal_value(s) is None,
    decreases s.len(),
{
    if s.len() > 1 {
        lemma_decimal_starts_with_a_digit(s.drop_last());
    }
}

/// The number that a lower-case hexadecimal digit shows.
pub open spec fn hex_value(c: char) -> int {
    if '0' <= c <= '9' {
        c as int - '0' as int
    } else {
        c as int - 'a' as int + 10
    }
}

/// Hexadecimal text has two digits for each byte, from which the byte is read back.
pub proof fn law_hexadecimal_text_reads_back(bytes: Seq<u8>, i: int)
    requires
        0 <= i < bytes.len(),
    ensures
        text::hex_text(bytes).len() == 2 * bytes.len(),
        bytes[i] as int == 16 * hex_value(text::hex_text(bytes)[2 * i]) + hex_value(
            text::hex_text(bytes)[2 * i + 1],
        ),
        text::is_hex(text::hex_text(bytes)),
{
    text::lemma_hex_text(bytes);
    let high = bytes[i] as int / 16;
    let low = bytes[i] as int % 16;
    assert((2 * i) / 2 == i && (2 * i + 1) / 2 == i);
    assert(text::hex_text(bytes)[2 * i] == text::hex_digit(high));
    assert(text::hex_text(bytes)[2 * i + 1] == text::hex_digit(low));
    assert(0 <= high < 16 && 0 <= low < 16);
}

/// The contents of a list of strings are those of each string, in order.
pub proof fn law_contents_of_lists(list: Seq<String>, i: int)
    requires
        0 <= i < list.len(),
    ensures
        text::texts(list).len() == list.len(),
        text::texts(list)[i] == list[i]@,
{
}

/// A text writes a decimal number exactly where it is not empty and holds digits alone.
pub proof fn law_decimal_digits(s: Seq<char>)
    ensures
        text::decimal_value(s) is Some <==> s.len() > 0 && forall|i: int|
            0 <= i < s.len() ==> '0' <= #[trigger] s[i] <= '9',
    decreases s.len(),
{
    if s.len() > 1 {
        let front = s.drop_last();
        law_decimal_digits(front);
        assert(forall|i: int| 0 <= i < front.len() ==> #[trigger] front[i] == s[i]);
        assert(s.last() == s[s.len() - 1]);
        if forall|i: int| 0 <= i < front.len() ==> '0' <= #[trigger] front[i] <= '9' {
            if '0' <= s.last() <= '9' {
                assert forall|i: int| 0 <= i < s.len() implies '0' <= #[trigger] s[i] <= '9' by {
                    if i < front.len() {
                        assert(front[i] == s[i]);
                    }
                }
            }
        } else {
            let i = choose|i: int| 0 <= i < front.len() && !('0' <= #[trigger] front[i] <= '9');
            assert(!('0' <= s[i] <= '9'));
        }
    }
}

/// A small number is at most 255 and is what the text writes in digits, behind a plus sign where
/// there is one; there is no other way to write one.
pub proof fn law_how_small_numbers_are_written(s: Seq<char>)
    ensures
        text::small_number(s) matches Some(n) ==> n <= 255 && (text::decimal_value(s) == Some(n) || (s.len() > 0
            && s[0] == '+' && text::decimal_value(s.skip(1)) == Some(n))),
{
    if s.len() > 0 {
        assert(s.skip(1) =~= s.drop_first());
    }
}

}
