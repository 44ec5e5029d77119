//! Text as sequences of characters: the string operations the rest of the
//! library is built on, each with its meaning as a function on `Seq<char>`.

use vstd::prelude::*;

verus! {

/// Whether a character has the Unicode `White_Space` property.
pub open spec fn is_white_space(c: char) -> bool {
    ||| '\u{9}' <= c && c <= '\u{d}'
    ||| c == ' '
    ||| c == '\u{85}'
    ||| c == '\u{a0}'
    ||| c == '\u{1680}'
    ||| '\u{2000}' <= c && c <= '\u{200a}'
    ||| c == '\u{2028}'
    ||| c == '\u{2029}'
    ||| c == '\u{202f}'
    ||| c == '\u{205f}'
    ||| c == '\u{3000}'
}

/// Whether a character has the Unicode `White_Space` property.
fn char_is_white_space(c: char) -> (r: bool)
    ensures
        r == is_white_space(c),
{
    ('\u{9}' <= c && c <= '\u{d}') || c == ' ' || c == '\u{85}' || c == '\u{a0}' || c == '\u{1680}'
        || ('\u{2000}' <= c && c <= '\u{200a}') || c == '\u{2028}' || c == '\u{2029}' || c
        == '\u{202f}' || c == '\u{205f}' || c == '\u{3000}'
}

/// `String::push` appends one character to the end of the string.
pub assume_specification[ String::push ](s: &mut String, c: char)
    ensures
        final(s)@ == old(s)@.push(c),
;

/// The characters that the bytes of `bytes` stand for, with every malformed
/// UTF-8 sequence replaced by U+FFFD.
pub uninterp spec fn lossy_text(bytes: Seq<u8>) -> Seq<char>;

/// `String::from_utf8_lossy`: decoding depends on the bytes alone.
#[verifier::external_body]
pub(crate) fn decode_lossy(bytes: &[u8]) -> (r: String)
    ensures
        r@ == lossy_text(bytes@),
{
    String::from_utf8_lossy(bytes).into_owned()
}

/// The characters of a text, in order.
pub fn characters(text: &str) -> (r: Vec<char>)
    ensures
        r@ == text@,
{
    let mut out: Vec<char> = Vec::new();
    for c in it: text.chars()
        invariant
            it.seq() == text@,
            out@ == text@.take(it.index() as int),
    {
        assert(text@.take(it.index() + 1) =~= text@.take(it.index() as int).push(c));
        out.push(c);
    }
    assert(text@.take(text@.len() as int) =~= text@);
    out
}

/// The text made of the given characters.
pub fn text_of(chars: &[char]) -> (r: String)
    ensures
        r@ == chars@,
{
    let mut out = String::new();
    let mut i: usize = 0;
    while i < chars.len()
        invariant
            i <= chars.len(),
            out@ == chars@.take(i as int),
        decreases chars.len() - i,
    {
        assert(chars@.take(i + 1) =~= chars@.take(i as int).push(chars@[i as int]));
        out.push(chars[i]);
        i += 1;
    }
    assert(chars@.take(chars@.len() as int) =~= chars@);
    out
}

/// The text without its leading white space.
pub open spec fn trim_start(s: Seq<char>) -> Seq<char>
    decreases s.len(),
{
    if s.len() > 0 && is_white_space(s[0]) {
        trim_start(s.skip(1))
    } else {
        s
    }
}

/// The text without its trailing white space.
pub open spec fn trim_end(s: Seq<char>) -> Seq<char>
    decreases s.len(),
{
    if s.len() > 0 && is_white_space(s.last()) {
        trim_end(s.drop_last())
    } else {
        s
    }
}

/// The text without white space at either end.
pub open spec fn trimmed(s: Seq<char>) -> Seq<char> {
    trim_end(trim_start(s))
}

/// The characters of `chars` between the white space at both ends.
pub fn trim(chars: &[char]) -> (r: Vec<char>)
    ensures
        r@ == trimmed(chars@),
{
    let mut start: usize = 0;
    assert(chars@.skip(0) =~= chars@);
    while start < chars.len() && char_is_white_space(chars[start])
        invariant
            start <= chars.len(),
            trim_start(chars@) == trim_start(chars@.skip(start as int)),
        decreases chars.len() - start,
    {
        assert(chars@.skip(start as int).skip(1) =~= chars@.skip(start + 1));
        start += 1;
    }
    let mut end: usize = chars.len();
    let ghost body = chars@.skip(start as int);
    assert(trim_start(chars@) == body);
    assert(body =~= chars@.subrange(start as int, end as int));
    while end > start && char_is_white_space(chars[end - 1])
        invariant
            start <= end <= chars.len(),
            trim_end(body) == trim_end(chars@.subrange(start as int, end as int)),
        decreases end,
    {
        assert(chars@.subrange(start as int, end as int).drop_last() =~= chars@.subrange(
            start as int,
            end - 1,
        ));
        end -= 1;
    }
    let out = range_of(chars, start, end);
    out
}

/// A text without white space at its ends is not changed by taking white space
/// off.
pub proof fn lemma_trimmed_is_same(s: Seq<char>)
    requires
        s.len() > 0 ==> !is_white_space(s[0]) && !is_white_space(s.last()),
    ensures
        trimmed(s) == s,
{
}

/// The characters from `start` up to, not including, `end`.
pub fn range_of(chars: &[char], start: usize, end: usize) -> (r: Vec<char>)
    requires
        start <= end <= chars.len(),
    ensures
        r@ == chars@.subrange(start as int, end as int),
{
    let mut out: Vec<char> = Vec::new();
    let mut i: usize = start;
    while i < end
        invariant
            start <= i <= end <= chars.len(),
            out@ == chars@.subrange(start as int, i as int),
        decreases end - i,
    {
        assert(chars@.subrange(start as int, i + 1) =~= chars@.subrange(
            start as int,
            i as int,
        ).push(chars@[i as int]));
        out.push(chars[i]);
        i += 1;
    }
    out
}

/// How many characters stand before the first `c`; all of them if there is none.
pub open spec fn position_of(s: Seq<char>, c: char) -> nat
    decreases s.len(),
{
    if s.len() == 0 || s[0] == c {
        0
    } else {
        1 + position_of(s.skip(1), c)
    }
}

pub proof fn lemma_position_bound(s: Seq<char>, c: char)
    ensures
        position_of(s, c) <= s.len(),
        position_of(s, c) < s.len() ==> s[position_of(s, c) as int] == c,
        forall|i: int| 0 <= i < position_of(s, c) ==> s[i] != c,
    decreases s.len(),
{
    if s.len() > 0 && s[0] != c {
        lemma_position_bound(s.skip(1), c);
        assert forall|i: int| 0 <= i < position_of(s, c) implies s[i] != c by {
            if i > 0 {
                assert(s.skip(1)[i - 1] == s[i]);
            }
        }
    }
}

pub proof fn lemma_position_unique(s: Seq<char>, c: char, p: nat)
    requires
        p <= s.len(),
        p < s.len() ==> s[p as int] == c,
        forall|i: int| 0 <= i < p ==> s[i] != c,
    ensures
        position_of(s, c) == p,
{
    lemma_position_bound(s, c);
}

/// The position of the first `c` at or after `from`, counted from `from`.
pub fn find_from(chars: &[char], from: usize, c: char) -> (r: usize)
    requires
        from <= chars.len(),
    ensures
        r == position_of(chars@.skip(from as int), c),
        from + r <= chars.len(),
{
    let mut i: usize = from;
    while i < chars.len() && chars[i] != c
        invariant
            from <= i <= chars.len(),
            forall|j: int| from <= j < i ==> chars@[j] != c,
        decreases chars.len() - i,
    {
        i += 1;
    }
    proof {
        let rest = chars@.skip(from as int);
        assert forall|j: int| 0 <= j < i - from implies rest[j] != c by {
            assert(rest[j] == chars@[from + j]);
        }
        lemma_position_unique(rest, c, (i - from) as nat);
    }
    i - from
}

/// The parts of a text between the occurrences of a separator.
pub open spec fn split_at_each(s: Seq<char>, separator: char) -> Seq<Seq<char>>
    decreases s.len(),
    via split_decreases
{
    let p = position_of(s, separator) as int;
    if p >= s.len() {
        seq![s]
    } else {
        seq![s.take(p)] + split_at_each(s.skip(p + 1), separator)
    }
}

#[via_fn]
proof fn split_decreases(s: Seq<char>, separator: char) {
    lemma_position_bound(s, separator);
}

/// The views of a list of texts.
pub open spec fn views(list: Seq<Vec<char>>) -> Seq<Seq<char>> {
    list.map_values(|v: Vec<char>| v@)
}

/// Splits the characters at every `separator`.
pub fn split(chars: &[char], separator: char) -> (r: Vec<Vec<char>>)
    ensures
        views(r@) == split_at_each(chars@, separator),
        r.len() >= 1,
{
    let mut out: Vec<Vec<char>> = Vec::new();
    let mut from: usize = 0;
    assert(chars@.skip(0) =~= chars@);
    assert(views(out@) =~= Seq::<Seq<char>>::empty());
    loop
        invariant
            from <= chars.len(),
            split_at_each(chars@, separator) == views(out@) + split_at_each(
                chars@.skip(from as int),
                separator,
            ),
        decreases chars.len() - from,
    {
        let length: usize = find_from(chars, from, separator);
        let ghost rest = chars@.skip(from as int);
        let ghost before = views(out@);
        let part = range_of(chars, from, from + length);
        assert(part@ =~= rest.take(length as int));
        out.push(part);
        assert(views(out@) =~= before.push(part@));
        if from + length >= chars.len() {
            assert(rest.take(length as int) =~= rest);
            assert(before + seq![rest] =~= views(out@));
            return out;
        }
        assert(chars@.skip(from + length + 1) =~= rest.skip(length + 1));
        assert(before + (seq![part@] + split_at_each(rest.skip(length + 1), separator))
            =~= views(out@) + split_at_each(rest.skip(length + 1), separator));
        from = from + length + 1;
    }
}

/// A line without the carriage return that may end it.
pub open spec fn without_carriage_return(s: Seq<char>) -> Seq<char> {
    if s.len() > 0 && s.last() == '\r' {
        s.drop_last()
    } else {
        s
    }
}

/// The lines of a text: each ends at a line feed, or at a carriage return and
/// a line feed; the last one needs no ending, and an empty rest is no line.
pub open spec fn lines_of(s: Seq<char>) -> Seq<Seq<char>>
    decreases s.len(),
    via lines_decreases
{
    let p = position_of(s, '\n') as int;
    if s.len() == 0 {
        Seq::empty()
    } else if p >= s.len() {
        seq![s]
    } else {
        seq![without_carriage_return(s.take(p))] + lines_of(s.skip(p + 1))
    }
}

#[via_fn]
proof fn lines_decreases(s: Seq<char>) {
    lemma_position_bound(s, '\n');
}

/// The lines of the characters.
pub fn lines(chars: &[char]) -> (r: Vec<Vec<char>>)
    ensures
        views(r@) == lines_of(chars@),
{
    let mut out: Vec<Vec<char>> = Vec::new();
    let mut from: usize = 0;
    assert(chars@.skip(0) =~= chars@);
    assert(views(out@) =~= Seq::<Seq<char>>::empty());
    assert(lines_of(chars@) =~= views(out@) + lines_of(chars@.skip(0)));
    while from < chars.len()
        invariant
            from <= chars.len(),
            lines_of(chars@) == views(out@) + lines_of(chars@.skip(from as int)),
        decreases chars.len() - from,
    {
        let length: usize = find_from(chars, from, '\n');
        let ghost rest = chars@.skip(from as int);
        let ghost before = views(out@);
        let end: usize = from + length;
        if end >= chars.len() {
            let part = range_of(chars, from, end);
            assert(part@ =~= rest);
            out.push(part);
            assert(views(out@) =~= before.push(part@));
            assert(before + seq![rest] =~= views(out@));
            return out;
        }
        let stop: usize = if length > 0 && chars[end - 1] == '\r' {
            end - 1
        } else {
            end
        };
        let part = range_of(chars, from, stop);
        assert(part@ =~= without_carriage_return(rest.take(length as int)));
        out.push(part);
        assert(views(out@) =~= before.push(part@));
        assert(chars@.skip(end + 1) =~= rest.skip(length + 1));
        assert(before + (seq![part@] + lines_of(rest.skip(length + 1))) =~= views(out@)
            + lines_of(rest.skip(length + 1)));
        from = end + 1;
    }
    assert(lines_of(chars@.skip(from as int)) =~= Seq::<Seq<char>>::empty());
    assert(views(out@) + Seq::<Seq<char>>::empty() =~= views(out@));
    out
}

/// The first line of a text, empty where the text is.
pub open spec fn first_line(s: Seq<char>) -> Seq<char> {
    if lines_of(s).len() > 0 {
        lines_of(s)[0]
    } else {
        Seq::empty()
    }
}

/// Whether the text has `prefix` at position `at`.
pub open spec fn has_at(s: Seq<char>, at: int, prefix: Seq<char>) -> bool {
    at + prefix.len() <= s.len() && s.subrange(at, at + prefix.len()) == prefix
}

/// Whether the characters of `prefix` stand at position `at` of `chars`.
pub fn found_at(chars: &[char], at: usize, prefix: &[char]) -> (r: bool)
    requires
        at <= chars.len(),
    ensures
        r == has_at(chars@, at as int, prefix@),
{
    if prefix.len() > chars.len() - at {
        return false;
    }
    let mut i: usize = 0;
    while i < prefix.len()
        invariant
            at <= chars.len(),
            prefix.len() <= chars.len() - at,
            i <= prefix.len(),
            forall|j: int| 0 <= j < i ==> chars@[at + j] == prefix@[j],
        decreases prefix.len() - i,
    {
        if chars[at + i] != prefix[i] {
            assert(chars@.subrange(at as int, at + prefix@.len())[i as int] != prefix@[i as int]);
            return false;
        }
        i += 1;
    }
    assert(chars@.subrange(at as int, at + prefix@.len()) =~= prefix@);
    true
}

/// Whether two runs of characters are the same.
pub fn same(left: &[char], right: &[char]) -> (r: bool)
    ensures
        r == (left@ == right@),
{
    if left.len() != right.len() {
        return false;
    }
    let r = found_at(left, 0, right);
    assert(left@.subrange(0, left@.len() as int) =~= left@);
    r
}

/// Whether the characters start with the given text.
pub fn starts_with(chars: &[char], prefix: &str) -> (r: bool)
    ensures
        r == prefix@.is_prefix_of(chars@),
{
    let wanted = characters(prefix);
    let r = found_at(chars, 0, &wanted);
    r
}

/// Whether the characters are those of the given text.
pub fn equals(chars: &[char], text: &str) -> (r: bool)
    ensures
        r == (chars@ == text@),
{
    let wanted = characters(text);
    same(chars, &wanted)
}

/// An ASCII capital letter as a small one; any other character as it is.
pub open spec fn lower(c: char) -> char {
    if 'A' <= c && c <= 'Z' {
        (c as u8 + 32) as u8 as char
    } else {
        c
    }
}

/// The text with its ASCII capital letters made small.
pub open spec fn lowercase(s: Seq<char>) -> Seq<char> {
    s.map_values(|c: char| lower(c))
}

/// The characters with the ASCII capital letters made small.
pub fn to_lowercase(chars: &[char]) -> (r: Vec<char>)
    ensures
        r@ == lowercase(chars@),
{
    let mut out: Vec<char> = Vec::new();
    let mut i: usize = 0;
    while i < chars.len()
        invariant
            i <= chars.len(),
            out@ == lowercase(chars@.take(i as int)),
        decreases chars.len() - i,
    {
        let c = chars[i];
        let small: char = if 'A' <= c && c <= 'Z' {
            (c as u8 + 32) as char
        } else {
            c
        };
        assert(chars@.take(i + 1) =~= chars@.take(i as int).push(c));
        assert(lowercase(chars@.take(i + 1)) =~= lowercase(chars@.take(i as int)).push(lower(c)));
        out.push(small);
        i += 1;
    }
    assert(chars@.take(chars@.len() as int) =~= chars@);
    out
}

/// The text with every occurrence of `from`, found from left to right, replaced
/// by `to`. What was put in is not searched again.
pub open spec fn replaced(s: Seq<char>, from: Seq<char>, to: Seq<char>) -> Seq<char>
    decreases s.len(),
{
    if s.len() == 0 || from.len() == 0 {
        s
    } else if has_at(s, 0, from) {
        to + replaced(s.skip(from.len() as int), from, to)
    } else {
        seq![s[0]] + replaced(s.skip(1), from, to)
    }
}

/// Replaces every occurrence of `from` by `to`.
pub fn replace(chars: &[char], from: &[char], to: &[char]) -> (r: Vec<char>)
    requires
        from.len() > 0,
    ensures
        r@ == replaced(chars@, from@, to@),
{
    let mut out: Vec<char> = Vec::new();
    let mut i: usize = 0;
    assert(chars@.skip(0) =~= chars@);
    assert(out@ + replaced(chars@, from@, to@) =~= replaced(chars@, from@, to@));
    while i < chars.len()
        invariant
            from.len() > 0,
            i <= chars.len(),
            replaced(chars@, from@, to@) == out@ + replaced(chars@.skip(i as int), from@, to@),
        decreases chars.len() - i,
    {
        let ghost rest = chars@.skip(i as int);
        let ghost before = out@;
        let hit = found_at(chars, i, from);
        assert(hit ==> rest.subrange(0, from@.len() as int) =~= chars@.subrange(
            i as int,
            i + from@.len(),
        ));
        assert(!hit && i + from@.len() <= chars@.len() ==> rest.subrange(0, from@.len() as int)
            =~= chars@.subrange(i as int, i + from@.len()));
        if hit {
            push_all(&mut out, to);
            assert(rest.skip(from@.len() as int) =~= chars@.skip(i + from@.len()));
            assert(before + (to@ + replaced(rest.skip(from@.len() as int), from@, to@)) =~= out@
                + replaced(rest.skip(from@.len() as int), from@, to@));
            i += from.len();
        } else {
            out.push(chars[i]);
            assert(rest.skip(1) =~= chars@.skip(i + 1));
            assert(before + (seq![rest[0]] + replaced(rest.skip(1), from@, to@)) =~= out@
                + replaced(rest.skip(1), from@, to@));
            i += 1;
        }
    }
    assert(replaced(chars@.skip(i as int), from@, to@) =~= Seq::<char>::empty());
    assert(out@ + Seq::<char>::empty() =~= out@);
    out
}

/// Appends all of `more`.
pub fn push_all(out: &mut Vec<char>, more: &[char])
    ensures
        final(out)@ == old(out)@ + more@,
{
    let ghost start = out@;
    let mut i: usize = 0;
    assert(start + more@.take(0) =~= start);
    while i < more.len()
        invariant
            i <= more.len(),
            out@ == start + more@.take(i as int),
        decreases more.len() - i,
    {
        assert(start + more@.take(i + 1) =~= (start + more@.take(i as int)).push(more@[i as int]));
        out.push(more[i]);
        i += 1;
    }
    assert(more@.take(more@.len() as int) =~= more@);
}

/// The views of a list of strings.
pub open spec fn string_views(list: Seq<String>) -> Seq<Seq<char>> {
    list.map_values(|s: String| s@)
}

/// The view of an optional text.
pub open spec fn optional_view(value: Option<String>) -> Option<Seq<char>> {
    match value {
        Some(text) => Some(text@),
        None => None,
    }
}

/// The view of an optional borrowed text.
pub open spec fn borrowed_view(value: Option<&str>) -> Option<Seq<char>> {
    match value {
        Some(text) => Some(text@),
        None => None,
    }
}

/// One text after another.
pub fn concat(left: &str, right: &str) -> (r: String)
    ensures
        r@ == left@ + right@,
{
    let mut out = left.to_string();
    out.append(right);
    out
}

/// The decimal digit for a number below ten.
pub open spec fn digit(d: nat) -> char {
    (48 + d) as u8 as char
}

/// A number in decimal digits, without leading zeros.
pub open spec fn decimal(n: nat) -> Seq<char>
    decreases n,
{
    if n < 10 {
        seq![digit(n)]
    } else {
        decimal(n / 10).push(digit(n % 10))
    }
}

/// The number in decimal digits.
pub fn to_decimal(n: u64) -> (r: Vec<char>)
    ensures
        r@ == decimal(n as nat),
    decreases n,
{
    if n < 10 {
        let mut out: Vec<char> = Vec::new();
        out.push((48 + n as u8) as char);
        assert(out@ =~= decimal(n as nat));
        out
    } else {
        let mut out = to_decimal(n / 10);
        out.push((48 + (n % 10) as u8) as char);
        out
    }
}

/// A number in decimal digits, with zeros in front where it has fewer than
/// `width`.
pub open spec fn padded(n: nat, width: nat) -> Seq<char> {
    let digits = decimal(n);
    if digits.len() < width {
        Seq::new((width - digits.len()) as nat, |i: int| '0') + digits
    } else {
        digits
    }
}

/// The number in decimal digits, with zeros in front up to `width`.
pub fn to_padded(n: u64, width: usize) -> (r: Vec<char>)
    ensures
        r@ == padded(n as nat, width as nat),
{
    let digits = to_decimal(n);
    if digits.len() >= width {
        return digits;
    }
    let mut out: Vec<char> = Vec::new();
    let zeros: usize = width - digits.len();
    while out.len() < zeros
        invariant
            out.len() <= zeros,
            out@ == Seq::new(out@.len(), |i: int| '0'),
        decreases zeros - out.len(),
    {
        let ghost before = out@;
        out.push('0');
        assert(out@ =~= Seq::new((before.len() + 1) as nat, |i: int| '0'));
    }
    push_all(&mut out, &digits);
    out
}

/// Whether a character is a decimal digit.
pub open spec fn is_digit(c: char) -> bool {
    '0' <= c && c <= '9'
}

/// What a decimal digit stands for.
pub open spec fn digit_value(c: char) -> nat {
    (c as u8 - 48) as nat
}

/// Whether a text is made of decimal digits alone.
pub open spec fn all_digits(s: Seq<char>) -> bool {
    forall|i: int| 0 <= i < s.len() ==> is_digit(#[trigger] s[i])
}

/// The number that a run of decimal digits stands for.
pub open spec fn number(s: Seq<char>) -> nat
    decreases s.len(),
{
    if s.len() == 0 {
        0
    } else {
        number(s.drop_last()) * 10 + digit_value(s.last())
    }
}

pub proof fn lemma_number_grows(s: Seq<char>, i: int)
    requires
        0 <= i <= s.len(),
    ensures
        number(s.take(i)) <= number(s),
    decreases s.len() - i,
{
    if i < s.len() {
        assert(s.take(i + 1).drop_last() =~= s.take(i));
        lemma_number_grows(s, i + 1);
    } else {
        assert(s.take(i) =~= s);
    }
}

/// The unsigned number a text stands for, where it is at most `limit`: one or
/// more digits, after a plus sign or none.
pub open spec fn unsigned(s: Seq<char>, limit: nat) -> Option<nat> {
    let digits = if s.len() > 0 && s[0] == '+' {
        s.skip(1)
    } else {
        s
    };
    if digits.len() > 0 && all_digits(digits) && number(digits) <= limit {
        Some(number(digits))
    } else {
        None
    }
}

/// Reads an unsigned number of at most `limit`.
pub fn parse_unsigned(chars: &[char], limit: u32) -> (r: Option<u32>)
    ensures
        match r {
            Some(n) => unsigned(chars@, limit as nat) == Some(n as nat),
            None => unsigned(chars@, limit as nat) is None,
        },
{
    let start: usize = if chars.len() > 0 && chars[0] == '+' {
        1
    } else {
        0
    };
    let ghost digits = chars@.skip(start as int);
    assert(start == 0 ==> digits =~= chars@);
    if start >= chars.len() {
        return None;
    }
    let mut value: u64 = 0;
    let mut i: usize = start;
    while i < chars.len()
        invariant
            start <= i <= chars.len(),
            start == (if chars@.len() > 0 && chars@[0] == '+' {
                1int
            } else {
                0
            }),
            start < chars.len(),
            digits == chars@.skip(start as int),
            start == 0 ==> digits == chars@,
            value == number(digits.take(i - start)),
            value <= limit,
            forall|j: int| 0 <= j < i - start ==> is_digit(#[trigger] digits[j]),
        decreases chars.len() - i,
    {
        let c = chars[i];
        assert(digits[i - start] == c);
        if !('0' <= c && c <= '9') {
            assert(!all_digits(digits));
            return None;
        }
        assert(digits.take(i - start + 1).drop_last() =~= digits.take(i - start));
        value = value * 10 + (c as u8 - 48) as u64;
        if value > limit as u64 {
            proof {
                lemma_number_grows(digits, i - start + 1);
            }
            return None;
        }
        i += 1;
    }
    assert(digits.take(i - start) =~= digits);
    Some(value as u32)
}

/// Decimal digits are read back as the number they were written for.
pub proof fn lemma_decimal_read_back(n: nat)
    ensures
        decimal(n).len() >= 1,
        all_digits(decimal(n)),
        number(decimal(n)) == n,
    decreases n,
{
    if n >= 10 {
        lemma_decimal_read_back(n / 10);
        assert(decimal(n).drop_last() =~= decimal(n / 10));
        assert(decimal(n).last() == digit(n % 10));
        assert forall|i: int| 0 <= i < decimal(n).len() implies is_digit(
            #[trigger] decimal(n)[i],
        ) by {
            if i < decimal(n / 10).len() {
                assert(decimal(n)[i] == decimal(n / 10)[i]);
            }
        }
    } else {
        assert(decimal(n).drop_last() =~= Seq::<char>::empty());
        assert(number(decimal(n).drop_last()) == 0);
    }
}

/// Two numbers written in decimal digits differ where the numbers do.
pub proof fn lemma_decimal_injective(m: nat, n: nat)
    requires
        decimal(m) == decimal(n),
    ensures
        m == n,
{
    lemma_decimal_read_back(m);
    lemma_decimal_read_back(n);
}

/// White space is the tab, the line ends, the blank and the other blanks of
/// Unicode, and nothing else: no letter, digit or punctuation mark is.
pub proof fn lemma_white_space(c: char)
    ensures
        is_white_space(c) <==> seq![
            9u32, 10, 11, 12, 13, 32, 0x85, 0xa0, 0x1680, 0x2000, 0x2001, 0x2002, 0x2003, 0x2004,
            0x2005, 0x2006, 0x2007, 0x2008, 0x2009, 0x200a, 0x2028, 0x2029, 0x202f, 0x205f, 0x3000,
        ].contains(c as u32),
{
    let list = seq![
        9u32, 10, 11, 12, 13, 32, 0x85, 0xa0, 0x1680, 0x2000, 0x2001, 0x2002, 0x2003, 0x2004,
        0x2005, 0x2006, 0x2007, 0x2008, 0x2009, 0x200a, 0x2028, 0x2029, 0x202f, 0x205f, 0x3000,
    ];
    let n = c as u32;
    assert(list[0] == 9 && list[1] == 10 && list[2] == 11 && list[3] == 12 && list[4] == 13
        && list[5] == 32 && list[6] == 0x85 && list[7] == 0xa0 && list[8] == 0x1680 && list[9]
        == 0x2000 && list[10] == 0x2001 && list[11] == 0x2002 && list[12] == 0x2003 && list[13]
        == 0x2004 && list[14] == 0x2005 && list[15] == 0x2006 && list[16] == 0x2007 && list[17]
        == 0x2008 && list[18] == 0x2009 && list[19] == 0x200a && list[20] == 0x2028 && list[21]
        == 0x2029 && list[22] == 0x202f && list[23] == 0x205f && list[24] == 0x3000);
    if list.contains(n) {
        let i = choose|i: int| 0 <= i < list.len() && list[i] == n;
        assert(is_white_space(c));
    }
}

proof fn lemma_trim_start_skips(s: Seq<char>, n: int)
    requires
        0 <= n <= s.len(),
        forall|i: int| 0 <= i < n ==> is_white_space(#[trigger] s[i]),
        n < s.len() ==> !is_white_space(s[n]),
    ensures
        trim_start(s) == s.skip(n),
    decreases n,
{
    if n > 0 {
        let rest = s.skip(1);
        assert forall|i: int| 0 <= i < n - 1 implies is_white_space(#[trigger] rest[i]) by {
            assert(rest[i] == s[i + 1]);
        }
        lemma_trim_start_skips(rest, n - 1);
        assert(rest.skip(n - 1) =~= s.skip(n));
    } else {
        assert(s.skip(0) =~= s);
    }
}

proof fn lemma_trim_end_drops(s: Seq<char>, n: int)
    requires
        0 <= n <= s.len(),
        forall|i: int| n <= i < s.len() ==> is_white_space(#[trigger] s[i]),
        n > 0 ==> !is_white_space(s[n - 1]),
    ensures
        trim_end(s) == s.take(n),
    decreases s.len() - n,
{
    if n < s.len() {
        lemma_trim_end_drops(s.drop_last(), n);
        assert(s.drop_last().take(n) =~= s.take(n));
    } else {
        assert(s.take(n) =~= s);
    }
}

/// Trimming takes the white space off both ends and nothing else: white space
/// around a text goes, and the text stays, with the white space inside it.
pub proof fn lemma_trimming(before: Seq<char>, inner: Seq<char>, after: Seq<char>)
    requires
        forall|i: int| 0 <= i < before.len() ==> is_white_space(#[trigger] before[i]),
        forall|i: int| 0 <= i < after.len() ==> is_white_space(#[trigger] after[i]),
        inner.len() > 0 ==> !is_white_space(inner[0]) && !is_white_space(inner.last()),
    ensures
        trimmed(before + inner + after) == inner,
{
    let s = before + inner + after;
    if inner.len() == 0 {
        assert forall|i: int| 0 <= i < s.len() implies is_white_space(#[trigger] s[i]) by {
            if i < before.len() {
                assert(s[i] == before[i]);
            } else {
                assert(s[i] == after[i - before.len()]);
            }
        }
        lemma_trim_start_skips(s, s.len() as int);
        assert(s.skip(s.len() as int) =~= inner);
        assert(trim_end(inner) == inner);
    } else {
        assert forall|i: int| 0 <= i < before.len() implies is_white_space(#[trigger] s[i]) by {
            assert(s[i] == before[i]);
        }
        assert(s[before.len() as int] == inner[0]);
        lemma_trim_start_skips(s, before.len() as int);
        let t = s.skip(before.len() as int);
        assert(t =~= inner + after);
        assert forall|i: int| inner.len() <= i < t.len() implies is_white_space(#[trigger] t[i]) by {
            assert(t[i] == after[i - inner.len()]);
        }
        assert(t[inner.len() - 1] == inner.last());
        lemma_trim_end_drops(t, inner.len() as int);
        assert(t.take(inner.len() as int) =~= inner);
    }
}

/// Splitting a text at a separator gives the part before the first separator and
/// then the parts of what follows; a text without the separator is one part.
pub proof fn lemma_splitting(part: Seq<char>, rest: Seq<char>, separator: char)
    requires
        forall|i: int| 0 <= i < part.len() ==> #[trigger] part[i] != separator,
    ensures
        split_at_each(part, separator) == seq![part],
        split_at_each(part + seq![separator] + rest, separator) == seq![part] + split_at_each(
            rest,
            separator,
        ),
{
    lemma_position_unique(part, separator, part.len());
    let s = part + seq![separator] + rest;
    assert forall|i: int| 0 <= i < part.len() implies s[i] != separator by {
        assert(s[i] == part[i]);
    }
    assert(s[part.len() as int] == separator);
    lemma_position_unique(s, separator, part.len());
    assert(s.take(part.len() as int) =~= part);
    assert(s.skip(part.len() as int + 1) =~= rest);
}

/// The lines of a text end at line feeds, with or without a carriage return
/// before them; a last line needs none, and an empty text has no line.
pub proof fn lemma_lines(line: Seq<char>, rest: Seq<char>)
    requires
        forall|i: int| 0 <= i < line.len() ==> #[trigger] line[i] != '\n',
        line.len() > 0 ==> line.last() != '\r',
    ensures
        lines_of(Seq::<char>::empty()) == Seq::<Seq<char>>::empty(),
        line.len() > 0 ==> lines_of(line) == seq![line],
        lines_of(line + seq!['\n'] + rest) == seq![line] + lines_of(rest),
        lines_of(line + seq!['\r', '\n'] + rest) == seq![line] + lines_of(rest),
{
    lemma_position_unique(line, '\n', line.len());
    let plain = line + seq!['\n'] + rest;
    assert forall|i: int| 0 <= i < line.len() implies plain[i] != '\n' by {
        assert(plain[i] == line[i]);
    }
    assert(plain[line.len() as int] == '\n');
    lemma_position_unique(plain, '\n', line.len());
    assert(plain.take(line.len() as int) =~= line);
    assert(plain.skip(line.len() as int + 1) =~= rest);
    let long = line + seq!['\r', '\n'] + rest;
    let end = line.len() as int + 1;
    assert forall|i: int| 0 <= i < end implies long[i] != '\n' by {
        if i < line.len() {
            assert(long[i] == line[i]);
        } else {
            assert(long[i] == '\r');
        }
    }
    assert(long[end] == '\n');
    lemma_position_unique(long, '\n', end as nat);
    assert(long.take(end) =~= line.push('\r'));
    assert(line.push('\r').drop_last() =~= line);
    assert(long.skip(end + 1) =~= rest);
}

/// A number is written with the decimal digits of its value: the last digit is
/// its remainder by ten, the digits before are those of the rest, and no digit
/// but a lone zero leads.
pub proof fn lemma_decimal_digits(n: nat)
    ensures
        decimal(n).last() as u32 == 48 + n % 10,
        n < 10 ==> decimal(n).len() == 1,
        n >= 10 ==> decimal(n).drop_last() == decimal(n / 10),
        n > 0 ==> decimal(n)[0] != '0',
    decreases n,
{
    if n >= 10 {
        lemma_decimal_digits(n / 10);
        assert(decimal(n).drop_last() =~= decimal(n / 10));
        lemma_decimal_read_back(n / 10);
        assert(decimal(n)[0] == decimal(n / 10)[0]);
    }
}

/// A digit more makes a number ten times as large and adds the digit.
pub proof fn lemma_number_of_digits(s: Seq<char>, c: char)
    requires
        '0' <= c <= '9',
    ensures
        number(Seq::<char>::empty()) == 0,
        number(s.push(c)) == 10 * number(s) + (c as u32 - 48),
{
    assert(s.push(c).drop_last() =~= s);
}

/// A number padded to a width has at least that many digits, zeros in front of
/// its own, and keeps its value.
pub proof fn lemma_padding(n: nat, width: nat)
    ensures
        padded(n, width).len() >= width,
        padded(n, width).len() == width || padded(n, width) == decimal(n),
        decimal(n).is_suffix_of(padded(n, width)),
        forall|i: int|
            0 <= i < padded(n, width).len() - decimal(n).len() ==> padded(n, width)[i] == '0',
{
    let digits = decimal(n);
    let p = padded(n, width);
    assert(p.subrange(p.len() - digits.len(), p.len() as int) =~= digits);
}

/// Making letters small changes the capital letters of ASCII to the small ones
/// and nothing else.
pub proof fn lemma_small_letters(s: Seq<char>, i: int)
    requires
        0 <= i < s.len(),
    ensures
        lowercase(s).len() == s.len(),
        65 <= s[i] as u32 <= 90 ==> lowercase(s)[i] as u32 == s[i] as u32 + 32,
        !(65 <= s[i] as u32 <= 90) ==> lowercase(s)[i] == s[i],
{
}

/// A whole number is read from its digits, with or without a plus sign, if it is
/// within the limit; a text with anything but digits is no number.
pub proof fn lemma_unsigned_numbers(n: nat, limit: nat, other: Seq<char>, i: int)
    requires
        0 <= i < other.len(),
        !('0' <= other[i] <= '9'),
        i > 0 || other[i] != '+',
    ensures
        unsigned(decimal(n), limit) == if n <= limit { Some(n) } else { None },
        unsigned(seq!['+'] + decimal(n), limit) == if n <= limit { Some(n) } else { None },
        unsigned(other, limit) is None,
        unsigned(Seq::<char>::empty(), limit) is None,
{
    lemma_decimal_read_back(n);
    assert(is_digit(decimal(n)[0]));
    assert((seq!['+'] + decimal(n)).skip(1) =~= decimal(n));
    if other[0] == '+' {
        assert(other.skip(1)[i - 1] == other[i]);
        assert(!is_digit(other.skip(1)[i - 1]));
    } else {
        assert(!is_digit(other[i]));
    }
}

/// Replacing passes over text that the searched one does not start in, puts the
/// new text in place of what is found, and goes on behind it.
pub proof fn lemma_replacing(before: Seq<char>, from: Seq<char>, to: Seq<char>, rest: Seq<char>)
    requires
        from.len() > 0,
        forall|i: int|
            0 <= i < before.len() ==> !#[trigger] has_at(before + from + rest, i, from),
    ensures
        replaced(before + from + rest, from, to) == before + to + replaced(rest, from, to),
    decreases before.len(),
{
    let s = before + from + rest;
    if before.len() == 0 {
        assert(s.subrange(0, from.len() as int) =~= from);
        assert(s.skip(from.len() as int) =~= rest);
        assert(before + to + replaced(rest, from, to) =~= to + replaced(rest, from, to));
    } else {
        assert(!has_at(s, 0, from));
        let shorter = before.skip(1);
        let t = shorter + from + rest;
        assert(s.skip(1) =~= t);
        assert forall|i: int| 0 <= i < shorter.len() implies !#[trigger] has_at(t, i, from) by {
            assert(!has_at(s, i + 1, from));
            if has_at(t, i, from) {
                assert(s.subrange(i + 1, i + 1 + from.len()) =~= t.subrange(i, i + from.len()));
            }
        }
        lemma_replacing(shorter, from, to, rest);
        assert(seq![s[0]] + (shorter + to + replaced(rest, from, to)) =~= before + to + replaced(
            rest,
            from,
            to,
        ));
    }
}

/// A text is found at a place exactly where all its characters stand there.
pub proof fn lemma_found_text(s: Seq<char>, at: int, part: Seq<char>)
    requires
        0 <= at,
    ensures
        has_at(s, at, part) <==> at + part.len() <= s.len() && forall|i: int|
            0 <= i < part.len() ==> #[trigger] part[i] == s[at + i],
{
    if at + part.len() <= s.len() {
        let found = s.subrange(at, at + part.len());
        if forall|i: int| 0 <= i < part.len() ==> #[trigger] part[i] == s[at + i] {
            assert(found =~= part);
        }
        if found == part {
            assert forall|i: int| 0 <= i < part.len() implies #[trigger] part[i] == s[at + i] by {
                assert(found[i] == s[at + i]);
            }
        }
    }
}

proof fn lemma_leading_zeros(zeros: nat, digits: Seq<char>)
    requires
        all_digits(digits),
    ensures
        number(Seq::new(zeros, |i: int| '0') + digits) == number(digits),
        all_digits(Seq::new(zeros, |i: int| '0') + digits),
    decreases digits.len(), zeros,
{
    let lead = Seq::new(zeros, |i: int| '0');
    let s = lead + digits;
    assert forall|i: int| 0 <= i < s.len() implies is_digit(#[trigger] s[i]) by {
        if i >= zeros {
            assert(s[i] == digits[i - zeros]);
        }
    }
    if digits.len() > 0 {
        assert forall|i: int| 0 <= i < digits.drop_last().len() implies is_digit(
            #[trigger] digits.drop_last()[i],
        ) by {
            assert(digits.drop_last()[i] == digits[i]);
        }
        lemma_leading_zeros(zeros, digits.drop_last());
        assert(s.drop_last() =~= lead + digits.drop_last());
        assert(s.last() == digits.last());
    } else if zeros > 0 {
        lemma_leading_zeros((zeros - 1) as nat, digits);
        assert(s.drop_last() =~= Seq::new((zeros - 1) as nat, |i: int| '0') + digits);
        assert(s.last() == '0');
    } else {
        assert(s =~= digits);
    }
}

/// A number padded to two or four digits has exactly that many if it fits, and
/// is read back as that number.
pub proof fn lemma_padded_number(n: nat)
    ensures
        n < 100 ==> padded(n, 2).len() == 2,
        n < 10000 ==> padded(n, 4).len() == 4,
        all_digits(padded(n, 2)),
        all_digits(padded(n, 4)),
        number(padded(n, 2)) == n,
        number(padded(n, 4)) == n,
{
    let digits = decimal(n);
    lemma_decimal_read_back(n);
    if digits.len() < 2 {
        lemma_leading_zeros((2 - digits.len()) as nat, digits);
    }
    if digits.len() < 4 {
        lemma_leading_zeros((4 - digits.len()) as nat, digits);
    }
    if n < 10000 {
        reveal_with_fuel(decimal, 5);
    }
}

} // verus!
