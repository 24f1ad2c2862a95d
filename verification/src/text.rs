//! Text as sequences of characters: the operations on keys, lists and symbols that the services
//! share, each with what it computes stated over `Seq<char>`.
use vstd::prelude::*;
use vstd::string::*;

verus! {

/// Whether `c` has the Unicode property `White_Space`: the tab and what follows it up to the
/// carriage return, the space, the next line, and the spaces and separators beyond Latin-1.
pub open spec fn is_white_space(c: char) -> bool {
    ||| '\u{9}' <= c <= '\u{d}'
    ||| c == ' '
    ||| c == '\u{85}'
    ||| c == '\u{a0}'
    ||| c == '\u{1680}'
    ||| '\u{2000}' <= c <= '\u{200a}'
    ||| c == '\u{2028}'
    ||| c == '\u{2029}'
    ||| c == '\u{202f}'
    ||| c == '\u{205f}'
    ||| c == '\u{3000}'
}

/// Whether `c` is white space.
pub fn is_space(c: char) -> (r: bool)
    ensures
        r == is_white_space(c),
{
    ('\u{9}' <= c && c <= '\u{d}') || c == ' ' || c == '\u{85}' || c == '\u{a0}' || c == '\u{1680}'
        || ('\u{2000}' <= c && c <= '\u{200a}') || c == '\u{2028}' || c == '\u{2029}' || c == '\u{202f}'
        || c == '\u{205f}' || c == '\u{3000}'
}

/// The lower-case form of a text, as `str::to_lowercase` gives it.
pub uninterp spec fn lower_case(s: Seq<char>) -> Seq<char>;

/// `str::to_lowercase` of the standard library maps a text to its lower-case equivalent by the
/// text alone. The Unicode mapping itself is not written out here.
pub assume_specification[ str::to_lowercase ](s: &str) -> (r: String)
    ensures
        r@ == lower_case(s@),
;

/// The contents of a list of strings.
pub open spec fn texts(list: Seq<String>) -> Seq<Seq<char>> {
    list.map_values(|s: String| s@)
}

/// `s` without its leading white space.
pub open spec fn trim_start(s: Seq<char>) -> Seq<char>
    decreases s.len(),
{
    if s.len() > 0 && is_white_space(s.first()) {
        trim_start(s.drop_first())
    } else {
        s
    }
}

/// `s` without its trailing white space.
pub open spec fn trim_end(s: Seq<char>) -> Seq<char>
    decreases s.len(),
{
    if s.len() > 0 && is_white_space(s.last()) {
        trim_end(s.drop_last())
    } else {
        s
    }
}

/// `s` without its leading and trailing white space.
pub open spec fn trimmed(s: Seq<char>) -> Seq<char> {
    trim_end(trim_start(s))
}

/// The index of the first `c` in `s`, or the length of `s` where there is none.
pub open spec fn find(s: Seq<char>, c: char) -> nat
    decreases s.len(),
{
    if s.len() == 0 || s.first() == c {
        0
    } else {
        1 + find(s.drop_first(), c)
    }
}

/// The parts of `s` between the occurrences of `sep`: one part more than there are occurrences.
pub open spec fn split_on(s: Seq<char>, sep: char) -> Seq<Seq<char>>
    decreases s.len(),
{
    let i = find(s, sep) as int;
    if i < s.len() {
        seq![s.take(i)] + split_on(s.skip(i + 1), sep)
    } else {
        seq![s]
    }
}

/// The parts of `s` before and after the first `sep`, where there is one.
pub open spec fn split_first(s: Seq<char>, sep: char) -> Option<(Seq<char>, Seq<char>)> {
    let i = find(s, sep) as int;
    if i < s.len() {
        Some((s.take(i), s.skip(i + 1)))
    } else {
        None
    }
}

/// The parts, in order, with `sep` between each two.
pub open spec fn joined(parts: Seq<Seq<char>>, sep: char) -> Seq<char>
    decreases parts.len(),
{
    if parts.len() == 0 {
        Seq::empty()
    } else if parts.len() == 1 {
        parts[0]
    } else {
        joined(parts.drop_last(), sep).push(sep) + parts.last()
    }
}

/// `middle` between `before` and `after`.
pub open spec fn around(before: Seq<char>, middle: Seq<char>, after: Seq<char>) -> Seq<char> {
    before + middle + after
}

/// What follows `prefix` in `s`, where `s` starts with it.
pub open spec fn stripped(s: Seq<char>, prefix: Seq<char>) -> Option<Seq<char>> {
    if prefix.is_prefix_of(s) {
        Some(s.skip(prefix.len() as int))
    } else {
        None
    }
}

/// Whether `part` occurs in `s`.
pub open spec fn has_part(s: Seq<char>, part: Seq<char>) -> bool {
    exists|i: int| 0 <= i <= s.len() - part.len() && #[trigger] s.subrange(i, i + part.len()) == part
}

/// Whether `a` comes no later than `b` in the order of strings: by the first character in which
/// they differ, a prefix before what extends it.
pub open spec fn no_later(a: Seq<char>, b: Seq<char>) -> bool
    decreases a.len(),
{
    if a.len() == 0 {
        true
    } else if b.len() == 0 {
        false
    } else if a.first() == b.first() {
        no_later(a.drop_first(), b.drop_first())
    } else {
        a.first() < b.first()
    }
}

/// The value of a digit `0` to `9`.
pub open spec fn digit_value(c: char) -> Option<nat> {
    if '0' <= c <= '9' {
        Some((c as u32 - '0' as u32) as nat)
    } else {
        None
    }
}

/// The number that a non-empty sequence of decimal digits writes.
pub open spec fn decimal_value(s: Seq<char>) -> Option<nat>
    decreases s.len(),
{
    if s.len() == 0 {
        None
    } else if s.len() == 1 {
        digit_value(s[0])
    } else {
        match (decimal_value(s.drop_last()), digit_value(s.last())) {
            (Some(high), Some(low)) => Some(high * 10 + low),
            _ => None,
        }
    }
}

/// The number below 256 that a text writes in decimal digits, after an optional plus sign.
pub open spec fn small_number(s: Seq<char>) -> Option<nat> {
    let digits = if s.len() > 0 && s.first() == '+' { s.drop_first() } else { s };
    match decimal_value(digits) {
        Some(n) => if n <= 255 { Some(n) } else { None },
        None => None,
    }
}

/// The lower-case hexadecimal digit of a number below 16.
pub open spec fn hex_digit(n: int) -> char {
    if n < 10 {
        (('0' as u32) + n) as char
    } else {
        (('a' as u32) + n - 10) as char
    }
}

/// Two lower-case hexadecimal digits for each byte, the high four bits first.
pub open spec fn hex_text(bytes: Seq<u8>) -> Seq<char> {
    Seq::new(
        2 * bytes.len(),
        |i: int| hex_digit(if i % 2 == 0 { bytes[i / 2] as int / 16 } else { bytes[i / 2] as int % 16 }),
    )
}

/// Whether `s` consists of lower-case hexadecimal digits alone.
pub open spec fn is_hex(s: Seq<char>) -> bool {
    forall|i: int| 0 <= i < s.len() ==> '0' <= #[trigger] s[i] <= '9' || 'a' <= s[i] <= 'f'
}

/// The characters of a text, in order.
pub fn chars_of(s: &str) -> (chars: Vec<char>)
    ensures
        chars@ == s@,
{
    let mut chars: Vec<char> = Vec::new();
    for c in it: s.chars()
        invariant
            chars@ == s@.take(it.index() as int),
            it.seq() == s@,
    {
        chars.push(c);
    }
    chars
}

/// Whether two texts hold the same characters.
pub fn same_text(a: &str, b: &str) -> (same: bool)
    ensures
        same == (a@ == b@),
{
    a.to_owned() == b.to_owned()
}

/// Whether `c` occurs in `s`.
pub fn has_char(s: &str, c: char) -> (found: bool)
    ensures
        found == s@.contains(c),
{
    let chars = chars_of(s);
    let mut i: usize = 0;
    while i < chars.len()
        invariant
            i <= chars.len(),
            chars@ == s@,
            forall|j: int| 0 <= j < i ==> chars@[j] != c,
        decreases chars.len() - i,
    {
        if chars[i] == c {
            return true;
        }
        i += 1;
    }
    false
}

/// `s` without its leading and trailing white space.
pub fn trim(s: &str) -> (r: &str)
    ensures
        r@ == trimmed(s@),
{
    let chars = chars_of(s);
    let mut from: usize = 0;
    assert(s@.skip(0) =~= s@);
    while from < chars.len() && is_space(chars[from])
        invariant
            from <= chars.len(),
            chars@ == s@,
            trim_start(s@) == trim_start(s@.skip(from as int)),
        decreases chars.len() - from,
    {
        proof {
            assert(s@.skip(from as int).drop_first() =~= s@.skip(from + 1));
        }
        from += 1;
    }
    assert(trim_start(s@) == s@.skip(from as int));
    let mut to: usize = chars.len();
    assert(s@.skip(from as int) =~= s@.subrange(from as int, to as int));
    while from < to && is_space(chars[to - 1])
        invariant
            from <= to <= chars.len(),
            chars@ == s@,
            trim_end(s@.skip(from as int)) == trim_end(s@.subrange(from as int, to as int)),
        decreases to,
    {
        proof {
            assert(s@.subrange(from as int, to as int).drop_last() =~= s@.subrange(from as int, to - 1));
        }
        to -= 1;
    }
    s.substring_char(from, to)
}

/// `i` is the first index of `c` where nothing before it is `c` and it is `c` or the end.
pub proof fn lemma_find(s: Seq<char>, c: char, i: int)
    requires
        0 <= i <= s.len(),
        forall|j: int| 0 <= j < i ==> s[j] != c,
        i < s.len() ==> s[i] == c,
    ensures
        find(s, c) == i,
    decreases s.len(),
{
    if s.len() > 0 && s.first() != c {
        assert forall|j: int| 0 <= j < i - 1 implies s.drop_first()[j] != c by {
            assert(s.drop_first()[j] == s[j + 1]);
        }
        lemma_find(s.drop_first(), c, i - 1);
    }
}

/// What `find` gives: the first occurrence, or the length where there is none.
pub proof fn lemma_find_first(s: Seq<char>, c: char)
    ensures
        find(s, c) <= s.len(),
        forall|j: int| 0 <= j < find(s, c) ==> s[j] != c,
        find(s, c) < s.len() ==> s[find(s, c) as int] == c,
        find(s, c) < s.len() <==> s.contains(c),
    decreases s.len(),
{
    if s.len() > 0 && s.first() != c {
        lemma_find_first(s.drop_first(), c);
        assert forall|j: int| 0 <= j < find(s, c) implies s[j] != c by {
            if j > 0 {
                assert(s[j] == s.drop_first()[j - 1]);
            }
        }
    }
}

/// The parts of `s` between the occurrences of `sep`.
pub fn split<'a>(s: &'a str, sep: char) -> (parts: Vec<&'a str>)
    ensures
        parts@.map_values(|p: &str| p@) == split_on(s@, sep),
{
    let chars = chars_of(s);
    let mut parts: Vec<&'a str> = Vec::new();
    let mut start: usize = 0;
    let mut i: usize = 0;
    assert(s@.skip(0) =~= s@);
    assert(parts@.map_values(|p: &str| p@) + split_on(s@.skip(0), sep) =~= split_on(s@, sep));
    while i < chars.len()
        invariant
            start <= i <= chars.len(),
            chars@ == s@,
            forall|j: int| start <= j < i ==> chars@[j] != sep,
            parts@.map_values(|p: &str| p@) + split_on(s@.skip(start as int), sep) == split_on(s@, sep),
        decreases chars.len() - i,
    {
        if chars[i] == sep {
            let part = s.substring_char(start, i);
            let ghost rest = s@.skip(start as int);
            let ghost before = parts@;
            parts.push(part);
            proof {
                lemma_find(rest, sep, i - start);
                assert(rest.take(i - start) =~= part@);
                assert(rest.skip(i - start + 1) =~= s@.skip(i + 1));
                assert(parts@.map_values(|p: &str| p@) =~= before.map_values(|p: &str| p@).push(part@));
                assert(split_on(rest, sep) == seq![part@] + split_on(s@.skip(i + 1), sep));
                assert(parts@.map_values(|p: &str| p@) + split_on(s@.skip(i + 1), sep)
                    =~= before.map_values(|p: &str| p@) + split_on(rest, sep));
            }
            start = i + 1;
        }
        i += 1;
    }
    let part = s.substring_char(start, chars.len());
    let ghost rest = s@.skip(start as int);
    let ghost before = parts@;
    parts.push(part);
    proof {
        lemma_find(rest, sep, rest.len() as int);
        assert(rest =~= part@);
        assert(parts@.map_values(|p: &str| p@) =~= before.map_values(|p: &str| p@) + seq![part@]);
    }
    parts
}

/// The parts of `s` before and after the first `sep`, where there is one.
pub fn split_once<'a>(s: &'a str, sep: char) -> (r: Option<(&'a str, &'a str)>)
    ensures
        match r {
            Some(parts) => split_first(s@, sep) == Some((parts.0@, parts.1@)),
            None => split_first(s@, sep) is None,
        },
{
    let chars = chars_of(s);
    let mut i: usize = 0;
    while i < chars.len()
        invariant
            i <= chars.len(),
            chars@ == s@,
            forall|j: int| 0 <= j < i ==> chars@[j] != sep,
        decreases chars.len() - i,
    {
        if chars[i] == sep {
            proof {
                lemma_find(s@, sep, i as int);
                assert(s@.take(i as int) =~= s@.subrange(0, i as int));
                assert(s@.skip(i + 1) =~= s@.subrange(i + 1, s@.len() as int));
            }
            return Some((s.substring_char(0, i), s.substring_char(i + 1, chars.len())));
        }
        i += 1;
    }
    proof {
        lemma_find(s@, sep, s@.len() as int);
    }
    None
}

/// What follows `prefix` in `s`, where `s` starts with it.
pub fn strip_prefix<'a>(s: &'a str, prefix: &str) -> (r: Option<&'a str>)
    ensures
        match r {
            Some(rest) => stripped(s@, prefix@) == Some(rest@),
            None => stripped(s@, prefix@) is None,
        },
{
    let chars = chars_of(s);
    let start = chars_of(prefix);
    if start.len() > chars.len() {
        return None;
    }
    let mut i: usize = 0;
    while i < start.len()
        invariant
            i <= start.len() <= chars.len(),
            chars@ == s@,
            start@ == prefix@,
            forall|j: int| 0 <= j < i ==> chars@[j] == start@[j],
        decreases start.len() - i,
    {
        if chars[i] != start[i] {
            return None;
        }
        i += 1;
    }
    proof {
        assert(prefix@ =~= s@.subrange(0, prefix@.len() as int));
        assert(s@.skip(prefix@.len() as int) =~= s@.subrange(prefix@.len() as int, s@.len() as int));
    }
    Some(s.substring_char(start.len(), chars.len()))
}

/// Whether `part` occurs in `s`.
pub fn has_text(s: &str, part: &str) -> (found: bool)
    ensures
        found == has_part(s@, part@),
{
    let n = s.unicode_len();
    let m = part.unicode_len();
    if m > n {
        return false;
    }
    let last = n - m;
    let mut i: usize = 0;
    while !same_text(s.substring_char(i, i + m), part)
        invariant
            i <= last,
            n == s@.len(),
            m == part@.len(),
            last + m == n,
            forall|j: int| 0 <= j < i ==> #[trigger] s@.subrange(j, j + m) != part@,
        decreases last - i,
    {
        if i == last {
            return false;
        }
        i += 1;
    }
    true
}

/// The entries, in order, with a comma between each two.
pub fn join_commas(entries: &Vec<String>) -> (r: String)
    ensures
        r@ == joined(texts(entries@), ','),
{
    let mut r = String::new();
    let mut i: usize = 0;
    proof {
        reveal_strlit(",");
        assert(texts(entries@).take(0) =~= Seq::empty());
    }
    while i < entries.len()
        invariant
            i <= entries.len(),
            ","@ == seq![','],
            r@ == joined(texts(entries@).take(i as int), ','),
        decreases entries.len() - i,
    {
        let ghost parts = texts(entries@).take(i + 1);
        assert(parts.drop_last() =~= texts(entries@).take(i as int));
        if i > 0 {
            r.append(",");
        }
        r.append(entries[i].as_str());
        assert(r@ =~= joined(parts, ','));
        i += 1;
    }
    assert(texts(entries@).take(i as int) =~= texts(entries@));
    r
}

/// `middle` between `before` and `after`.
pub fn enclose(before: &str, middle: &str, after: &str) -> (r: String)
    ensures
        r@ == around(before@, middle@, after@),
{
    before.to_owned().concat(middle).concat(after)
}

/// Whether `a` comes no later than `b` in the order of strings.
pub fn text_no_later(a: &str, b: &str) -> (r: bool)
    ensures
        r == no_later(a@, b@),
{
    let x = chars_of(a);
    let y = chars_of(b);
    let mut i: usize = 0;
    assert(a@.skip(0) =~= a@);
    assert(b@.skip(0) =~= b@);
    while i < x.len() && i < y.len() && x[i] == y[i]
        invariant
            i <= x.len(),
            i <= y.len(),
            x@ == a@,
            y@ == b@,
            no_later(a@, b@) == no_later(a@.skip(i as int), b@.skip(i as int)),
        decreases x.len() - i,
    {
        assert(a@.skip(i as int).drop_first() =~= a@.skip(i + 1));
        assert(b@.skip(i as int).drop_first() =~= b@.skip(i + 1));
        i += 1;
    }
    if i == x.len() {
        true
    } else if i == y.len() {
        false
    } else {
        x[i] < y[i]
    }
}

/// More digits never write a smaller number.
proof fn lemma_decimal_grows(s: Seq<char>, n: int)
    requires
        0 < n <= s.len(),
        decimal_value(s) is Some,
    ensures
        decimal_value(s.take(n)) is Some,
        decimal_value(s.take(n))->0 <= decimal_value(s)->0,
    decreases s.len(),
{
    if n < s.len() {
        lemma_decimal_grows(s.drop_last(), n);
        assert(s.drop_last().take(n) =~= s.take(n));
    } else {
        assert(s.take(n) =~= s);
    }
}

/// The number below 256 that a text writes in decimal digits, after an optional plus sign.
pub fn parse_small_number(s: &str) -> (r: Option<u8>)
    ensures
        match r {
            Some(n) => small_number(s@) == Some(n as nat),
            None => small_number(s@) is None,
        },
{
    let chars = chars_of(s);
    let skip: usize = if chars.len() > 0 && chars[0] == '+' { 1 } else { 0 };
    let ghost digits = s@.skip(skip as int);
    proof {
        assert(digits =~= (if s@.len() > 0 && s@.first() == '+' { s@.drop_first() } else { s@ }));
    }
    if skip == chars.len() {
        return None;
    }
    let mut value: u32 = 0;
    let mut i: usize = skip;
    while i < chars.len()
        invariant
            skip <= i <= chars.len(),
            chars@ == s@,
            digits == s@.skip(skip as int),
            digits.len() > 0,
            value <= 255,
            i == skip ==> value == 0,
            i > skip ==> decimal_value(digits.take(i - skip)) == Some(value as nat),
            small_number(s@) == match decimal_value(digits) {
                Some(n) => if n <= 255 { Some(n) } else { None },
                None => None,
            },
        decreases chars.len() - i,
    {
        let c = chars[i];
        let ghost head = digits.take(i + 1 - skip);
        proof {
            assert(head.last() == c);
            assert(head.drop_last() =~= digits.take(i - skip));
            if decimal_value(digits) is Some {
                lemma_decimal_grows(digits, i + 1 - skip);
            }
        }
        if c < '0' || c > '9' {
            return None;
        }
        value = value * 10 + (c as u32 - '0' as u32);
        assert(decimal_value(head) == Some(value as nat));
        if value > 255 {
            return None;
        }
        i += 1;
    }
    assert(digits.take(i - skip) =~= digits);
    Some(value as u8)
}

/// Two lower-case hexadecimal digits for each byte, the high four bits first.
pub fn to_hex(bytes: &[u8]) -> (r: String)
    ensures
        r@ == hex_text(bytes@),
{
    let digits = "0123456789abcdef";
    proof {
        reveal_strlit("0123456789abcdef");
        assert forall|n: int| 0 <= n < 16 implies digits@[n] == #[trigger] hex_digit(n) by {}
    }
    let mut r = String::new();
    let mut i: usize = 0;
    while i < bytes.len()
        invariant
            i <= bytes.len(),
            digits@.len() == 16,
            forall|n: int| 0 <= n < 16 ==> digits@[n] == #[trigger] hex_digit(n),
            r@ == hex_text(bytes@.take(i as int)),
        decreases bytes.len() - i,
    {
        let high: usize = (bytes[i] / 16) as usize;
        let low: usize = (bytes[i] % 16) as usize;
        let first = digits.substring_char(high, high + 1);
        let second = digits.substring_char(low, low + 1);
        let ghost before = r@;
        r.append(first);
        r.append(second);
        proof {
            let after = hex_text(bytes@.take(i + 1));
            assert(first@ =~= seq![hex_digit(high as int)]);
            assert(second@ =~= seq![hex_digit(low as int)]);
            assert forall|k: int| 0 <= k < r@.len() implies r@[k] == after[k] by {
                if k < before.len() {
                    assert(before[k] == hex_text(bytes@.take(i as int))[k]);
                    assert(bytes@.take(i as int)[k / 2] == bytes@.take(i + 1)[k / 2]);
                }
            }
            assert(r@ =~= after);
        }
        i += 1;
    }
    assert(bytes@.take(i as int) =~= bytes@);
    r
}

/// Whether `list` holds `entry`.
pub fn holds(list: &Vec<String>, entry: &str) -> (r: bool)
    ensures
        r == texts(list@).contains(entry@),
{
    let mut i: usize = 0;
    while i < list.len()
        invariant
            i <= list.len(),
            forall|j: int| 0 <= j < i ==> texts(list@)[j] != entry@,
        decreases list.len() - i,
    {
        if same_text(list[i].as_str(), entry) {
            assert(texts(list@)[i as int] == entry@);
            return true;
        }
        i += 1;
    }
    false
}

/// Trimming the start leaves a final stretch of the text that does not start with white space.
proof fn lemma_trim_start(s: Seq<char>) -> (k: int)
    ensures
        0 <= k <= s.len(),
        trim_start(s) == s.skip(k),
        trim_start(s).len() > 0 ==> !is_white_space(trim_start(s).first()),
    decreases s.len(),
{
    if s.len() > 0 && is_white_space(s.first()) {
        let k = lemma_trim_start(s.drop_first());
        assert(s.drop_first().skip(k) =~= s.skip(k + 1));
        k + 1
    } else {
        assert(s.skip(0) =~= s);
        0
    }
}

/// Trimming the end leaves an initial stretch of the text that does not end with white space.
proof fn lemma_trim_end(s: Seq<char>) -> (k: int)
    ensures
        0 <= k <= s.len(),
        trim_end(s) == s.take(k),
        trim_end(s).len() > 0 ==> !is_white_space(trim_end(s).last()),
    decreases s.len(),
{
    if s.len() > 0 && is_white_space(s.last()) {
        let k = lemma_trim_end(s.drop_last());
        assert(s.drop_last().take(k) =~= s.take(k));
        k
    } else {
        assert(s.take(s.len() as int) =~= s);
        s.len() as int
    }
}

/// Trimming adds no character, and trimming again changes nothing.
pub proof fn lemma_trimmed(s: Seq<char>)
    ensures
        trimmed(trimmed(s)) == trimmed(s),
        forall|c: char| trimmed(s).contains(c) ==> s.contains(c),
{
    let a = lemma_trim_start(s);
    let b = lemma_trim_end(trim_start(s));
    let t = trimmed(s);
    assert(forall|i: int| 0 <= i < t.len() ==> t[i] == s[a + i]);
    assert forall|c: char| t.contains(c) implies s.contains(c) by {
        let i = choose|i: int| 0 <= i < t.len() && t[i] == c;
        assert(s[a + i] == c);
    }
    if t.len() > 0 {
        assert(t.first() == trim_start(s).first());
    }
}

/// No part of a split text holds the separator, and there is at least one part.
pub proof fn lemma_split_parts(s: Seq<char>, sep: char)
    ensures
        split_on(s, sep).len() > 0,
        forall|i: int| 0 <= i < split_on(s, sep).len() ==> !(#[trigger] split_on(s, sep)[i]).contains(sep),
    decreases s.len(),
{
    lemma_find_first(s, sep);
    let k = find(s, sep) as int;
    if k < s.len() {
        let rest = s.skip(k + 1);
        lemma_split_parts(rest, sep);
        assert forall|i: int| 0 <= i < split_on(s, sep).len() implies !(#[trigger] split_on(
            s,
            sep,
        )[i]).contains(sep) by {
            if i > 0 {
                assert(split_on(s, sep)[i] == split_on(rest, sep)[i - 1]);
            }
        }
    }
}

/// A joined list, read from its front.
proof fn lemma_joined_front(parts: Seq<Seq<char>>, sep: char)
    requires
        parts.len() >= 2,
    ensures
        joined(parts, sep) == parts[0].push(sep) + joined(parts.drop_first(), sep),
    decreases parts.len(),
{
    let front = parts.drop_last();
    let back = parts.drop_first();
    if parts.len() == 2 {
        assert(joined(front, sep) == parts[0]);
        assert(joined(back, sep) == parts[1]);
    } else {
        lemma_joined_front(front, sep);
        assert(front.drop_first() =~= back.drop_last());
        assert(joined(back, sep) == joined(back.drop_last(), sep).push(sep) + parts.last());
    }
    assert(joined(parts, sep) =~= parts[0].push(sep) + joined(back, sep));
}

/// Splitting undoes joining, where no part holds the separator.
pub proof fn lemma_split_joined(parts: Seq<Seq<char>>, sep: char)
    requires
        parts.len() > 0,
        forall|i: int| 0 <= i < parts.len() ==> !(#[trigger] parts[i]).contains(sep),
    ensures
        split_on(joined(parts, sep), sep) == parts,
    decreases parts.len(),
{
    let s = joined(parts, sep);
    let n = parts[0].len() as int;
    if parts.len() == 1 {
        lemma_find(s, sep, n);
        assert(split_on(s, sep) =~= parts);
    } else {
        lemma_joined_front(parts, sep);
        let back = parts.drop_first();
        assert forall|i: int| 0 <= i < back.len() implies !(#[trigger] back[i]).contains(sep) by {
            assert(back[i] == parts[i + 1]);
        }
        lemma_split_joined(back, sep);
        assert forall|j: int| 0 <= j < n implies s[j] != sep by {
            assert(s[j] == parts[0][j]);
        }
        lemma_find(s, sep, n);
        assert(s.take(n) =~= parts[0]);
        assert(s.skip(n + 1) =~= joined(back, sep));
        assert(split_on(s, sep) =~= parts);
    }
}

/// Splitting two texts with the separator between them is splitting the one and then the other.
pub proof fn lemma_split_concat(a: Seq<char>, b: Seq<char>, sep: char)
    ensures
        split_on(a.push(sep) + b, sep) == split_on(a, sep) + split_on(b, sep),
    decreases a.len(),
{
    let s = a.push(sep) + b;
    lemma_find_first(a, sep);
    let i = find(a, sep) as int;
    assert forall|j: int| 0 <= j < i implies s[j] != sep by {
        assert(s[j] == a[j]);
    }
    assert(s[i] == sep);
    lemma_find(s, sep, i);
    if i < a.len() {
        let rest = a.skip(i + 1);
        lemma_split_concat(rest, b, sep);
        assert(s.take(i) =~= a.take(i));
        assert(s.skip(i + 1) =~= rest.push(sep) + b);
    } else {
        assert(s.take(i) =~= a);
        assert(s.skip(i + 1) =~= b);
    }
    assert(split_on(s, sep) =~= split_on(a, sep) + split_on(b, sep));
}

/// Hexadecimal text consists of hexadecimal digits.
pub proof fn lemma_hex_text(bytes: Seq<u8>)
    ensures
        is_hex(hex_text(bytes)),
{
    assert forall|i: int| 0 <= i < hex_text(bytes).len() implies '0' <= #[trigger] hex_text(bytes)[i] <= '9' || 'a' <= hex_text(bytes)[i] <= 'f' by {
        let n = if i % 2 == 0 { bytes[i / 2] as int / 16 } else { bytes[i / 2] as int % 16 };
        assert(0 <= n < 16);
    }
}

/// Of two texts one comes no later than the other, and both ways only where they are the same.
pub proof fn lemma_order_total(a: Seq<char>, b: Seq<char>)
    ensures
        no_later(a, b) || no_later(b, a),
        no_later(a, b) && no_later(b, a) ==> a == b,
    decreases a.len(),
{
    if a.len() > 0 && b.len() > 0 && a.first() == b.first() {
        lemma_order_total(a.drop_first(), b.drop_first());
        if no_later(a, b) && no_later(b, a) {
            assert(a =~= seq![a.first()] + a.drop_first());
            assert(b =~= seq![b.first()] + b.drop_first());
        }
    } else if a.len() == 0 && b.len() == 0 {
        assert(a =~= b);
    }
}

/// The order of texts is transitive.
pub proof fn lemma_order_transitive(a: Seq<char>, b: Seq<char>, c: Seq<char>)
    requires
        no_later(a, b),
        no_later(b, c),
    ensures
        no_later(a, c),
    decreases a.len(),
{
    if a.len() > 0 && b.len() > 0 && c.len() > 0 && a.first() == b.first() && b.first() == c.first() {
        lemma_order_transitive(a.drop_first(), b.drop_first(), c.drop_first());
    }
}

}
