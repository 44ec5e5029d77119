//! The error output of a scan: progress is told apart from what is to be kept.

use crate::binary64;
use crate::binary64::Binary64;
use crate::decimals;
use crate::gui_settings;
use crate::scanner;
use crate::splitter;
use crate::text;
use vstd::arithmetic::power2::{lemma2_to64, lemma_pow2_pos, pow2};
use vstd::prelude::*;

verus! {

/// Bytes as the characters with the same numbers.
pub open spec fn byte_chars(bytes: Seq<u8>) -> Seq<char> {
    bytes.map_values(|b: u8| b as char)
}

/// The percentage that a line of the error output tells, from 0 to 100, where
/// it tells one: the word, a number, and a percent sign.
pub open spec fn progress_of(line: Seq<u8>) -> Option<Binary64> {
    let chars = byte_chars(line);
    let word = "Progress: "@;
    if word.is_prefix_of(chars) && chars.len() > word.len() && chars.last() == '%' {
        match decimals::float_of(
            text::trimmed(chars.subrange(word.len() as int, chars.len() - 1)),
        ) {
            Some(percent) => Some(
                percent.clamped(
                    Binary64 { bits: splitter::ZERO },
                    Binary64 { bits: gui_settings::HUNDRED },
                ),
            ),
            None => None,
        }
    } else {
        None
    }
}

/// The percentage that a line of the error output tells.
pub fn parse_progress(line: &Vec<u8>) -> (r: Option<Binary64>)
    ensures
        r == progress_of(line@),
{
    let mut chars: Vec<char> = Vec::new();
    let mut i: usize = 0;
    while i < line.len()
        invariant
            i <= line.len(),
            chars.len() == i,
            forall|j: int| 0 <= j < i ==> chars@[j] == line@[j] as char,
        decreases line.len() - i,
    {
        chars.push(line[i] as char);
        i += 1;
    }
    assert(chars@ =~= byte_chars(line@));
    let word = text::characters("Progress: ");
    if !text::starts_with(&chars, "Progress: ") || chars.len() <= word.len() || chars[chars.len()
        - 1] != '%' {
        return None;
    }
    let number = text::range_of(&chars, word.len(), chars.len() - 1);
    match decimals::parse_decimal(&text::trim(&number)) {
        Some(percent) => Some(
            percent.clamp(
                Binary64 { bits: splitter::ZERO },
                Binary64 { bits: gui_settings::HUNDRED },
            ),
        ),
        None => None,
    }
}

/// A percentage is always from 0 to 100.
pub proof fn lemma_progress_is_limited(line: Seq<u8>)
    ensures
        progress_of(line) matches Some(percent) ==> splitter::between(
            splitter::ZERO,
            percent,
            gui_settings::HUNDRED,
        ),
{
    let chars = byte_chars(line);
    let number = text::trimmed(chars.subrange("Progress: "@.len() as int, chars.len() - 1));
    if progress_of(line) is Some {
        let decimal = decimals::decimal_of(number)->0;
        decimals::lemma_rounded_decimal_bound(decimal.digits, decimal.exponent);
        crate::binary64::lemma_units_increase(
            splitter::ZERO as nat,
            gui_settings::HUNDRED as nat,
        );
    }
}

/// What has been read of the error output.
pub struct Reading {
    /// The line that has begun.
    pub pending: Seq<u8>,
    /// What is kept.
    pub captured: Seq<u8>,
    /// The percentages that were told.
    pub percentages: Seq<Binary64>,
}

/// A line has ended: it tells a percentage, or it is kept, as far as there is
/// room. Empty lines are neither.
pub open spec fn after_line(reading: Reading, limit: nat) -> Reading {
    if reading.pending.len() == 0 {
        reading
    } else {
        match progress_of(reading.pending) {
            Some(percent) => Reading {
                pending: Seq::empty(),
                captured: reading.captured,
                percentages: reading.percentages.push(percent),
            },
            None => Reading {
                pending: Seq::empty(),
                captured: scanner::capped(reading.captured, reading.pending.push(10), limit),
                percentages: reading.percentages,
            },
        }
    }
}

/// One more byte was read. Lines end with a carriage return or a line feed; of a
/// line that is longer than can be kept, the rest is dropped.
pub open spec fn after_byte(reading: Reading, byte: u8, limit: nat) -> Reading {
    if byte == 10 || byte == 13 {
        after_line(reading, limit)
    } else if reading.pending.len() < limit {
        Reading { pending: reading.pending.push(byte), ..reading }
    } else {
        reading
    }
}

/// Several more bytes were read.
pub open spec fn after_bytes(reading: Reading, bytes: Seq<u8>, limit: nat) -> Reading
    decreases bytes.len(),
{
    if bytes.len() == 0 {
        reading
    } else {
        after_byte(after_bytes(reading, bytes.drop_last(), limit), bytes.last(), limit)
    }
}

/// A reader of the error output of a scan.
#[derive(Debug)]
pub struct ProgressReader {
    /// The line that has begun.
    pub pending: Vec<u8>,
    /// What is kept.
    pub captured: Vec<u8>,
    /// How many bytes are kept at most.
    pub limit: usize,
}

impl ProgressReader {
    /// Whether no more is held than is allowed.
    pub open spec fn well_formed(self) -> bool {
        self.pending@.len() <= self.limit && self.captured@.len() <= self.limit
    }

    /// What has been read, with the percentages that are given.
    pub open spec fn reading(self, percentages: Seq<Binary64>) -> Reading {
        Reading { pending: self.pending@, captured: self.captured@, percentages }
    }

    /// A reader that keeps so many bytes at most.
    pub fn new(limit: usize) -> (r: ProgressReader)
        ensures
            r.well_formed(),
            r.pending@ == Seq::<u8>::empty(),
            r.captured@ == Seq::<u8>::empty(),
            r.limit == limit,
    {
        ProgressReader { pending: Vec::new(), captured: Vec::new(), limit }
    }

    /// Ends the line that has begun; gives the percentage that it tells.
    fn end_line(&mut self) -> (r: Option<Binary64>)
        requires
            old(self).well_formed(),
        ensures
            final(self).well_formed(),
            final(self).limit == old(self).limit,
            forall|before: Seq<Binary64>|
                #![trigger final(self).reading(before)]
                {
                    let after = after_line(old(self).reading(before), old(self).limit as nat);
                    &&& final(self).pending@ == after.pending
                    &&& final(self).captured@ == after.captured
                    &&& after.percentages == match r {
                        Some(percent) => before.push(percent),
                        None => before,
                    }
                },
    {
        if self.pending.len() == 0 {
            return None;
        }
        let told = parse_progress(&self.pending);
        if told.is_none() {
            let mut line: Vec<u8> = Vec::new();
            scanner::drain_capped(&mut line, &self.pending, usize::MAX);
            assert(Seq::<u8>::empty() + self.pending@ =~= self.pending@);
            line.push(10);
            let limit: usize = self.limit;
            scanner::drain_capped(&mut self.captured, &line, limit);
        }
        self.pending = Vec::new();
        told
    }

    /// Reads several more bytes; gives the percentages that they tell.
    pub fn feed(&mut self, bytes: &[u8]) -> (r: Vec<Binary64>)
        requires
            old(self).well_formed(),
        ensures
            final(self).well_formed(),
            final(self).limit == old(self).limit,
            final(self).reading(r@) == after_bytes(
                old(self).reading(Seq::empty()),
                bytes@,
                old(self).limit as nat,
            ),
    {
        let ghost start = self.reading(Seq::empty());
        let ghost limit = self.limit;
        let mut percentages: Vec<Binary64> = Vec::new();
        let mut i: usize = 0;
        assert(percentages@ =~= Seq::<Binary64>::empty());
        while i < bytes.len()
            invariant
                i <= bytes.len(),
                self.well_formed(),
                self.limit == limit,
                self.reading(percentages@) == after_bytes(start, bytes@.take(i as int), limit as nat),
            decreases bytes.len() - i,
        {
            assert(bytes@.take(i + 1).drop_last() =~= bytes@.take(i as int));
            let byte: u8 = bytes[i];
            let ghost before = percentages@;
            if byte == 10 || byte == 13 {
                let told = self.end_line();
                assert(self.reading(before).pending == self.pending@);
                if let Some(percent) = told {
                    percentages.push(percent);
                }
            } else if self.pending.len() < self.limit {
                self.pending.push(byte);
            }
            i += 1;
        }
        assert(bytes@.take(bytes@.len() as int) =~= bytes@);
        percentages
    }

    /// Ends the reading; gives what is kept. What has begun counts as a line.
    pub fn finish(self) -> (r: Vec<u8>)
        requires
            self.well_formed(),
        ensures
            r@ == after_line(self.reading(Seq::empty()), self.limit as nat).captured,
    {
        let mut reader = self;
        let _ = reader.end_line();
        assert(reader.reading(Seq::empty()).captured == reader.captured@);
        reader.captured
    }
}

/// It does not matter in which pieces the output comes.
pub proof fn lemma_pieces_do_not_matter(reading: Reading, first: Seq<u8>, second: Seq<u8>, limit: nat)
    ensures
        after_bytes(after_bytes(reading, first, limit), second, limit) == after_bytes(
            reading,
            first + second,
            limit,
        ),
    decreases second.len(),
{
    if second.len() == 0 {
        assert(first + second =~= first);
    } else {
        assert((first + second).drop_last() =~= first + second.drop_last());
        lemma_pieces_do_not_matter(reading, first, second.drop_last(), limit);
    }
}

/// Progress is never kept: a line that tells a percentage leaves what is kept as
/// it was, and the others follow in order.
pub proof fn lemma_progress_is_not_kept(reading: Reading, limit: nat)
    requires
        progress_of(reading.pending) is Some,
    ensures
        after_line(reading, limit).captured == reading.captured,
{
}

/// A line about progress gives its percentage: the number between the words and
/// the percent sign, but no more than a hundred. Other lines give none.
pub proof fn lemma_progress_lines(line: Seq<u8>, n: nat, other: Seq<u8>)
    requires
        n < 0x20_0000_0000_0000,
        byte_chars(line) == "Progress: "@ + text::decimal(n) + "%"@,
        other.len() == 0 || other[0] != 80 || other.last() != 37,
    ensures
        progress_of(line) matches Some(percent) && percent.value() == if n <= 100 {
            n * pow2(1074)
        } else {
            100 * pow2(1074)
        },
        progress_of(other) is None,
{
    let word = "Progress: "@;
    let digits = text::decimal(n);
    reveal_strlit("Progress: ");
    reveal_strlit("%");
    let chars = byte_chars(line);
    text::lemma_decimal_read_back(n);
    assert(chars.subrange(0, word.len() as int) =~= word);
    assert(chars.last() == '%');
    assert(chars.subrange(word.len() as int, chars.len() - 1) =~= digits);
    assert(text::is_digit(digits[0]) && text::is_digit(digits[digits.len() - 1]));
    text::lemma_trimmed_is_same(digits);
    decimals::lemma_reading_whole_numbers(n);
    lemma2_to64();
    binary64::lemma_whole_number(gui_settings::HUNDRED as nat, 6, 100);
    lemma_pow2_pos(1074);
    let unit = pow2(1074);
    if n > 100 {
        assert(n * unit > 100 * unit) by (nonlinear_arith)
            requires
                n > 100,
                unit > 0,
        ;
    } else {
        assert(n * unit <= 100 * unit) by (nonlinear_arith)
            requires
                n <= 100,
        ;
    }
    assert(n * unit >= 0) by (nonlinear_arith);
    let others = byte_chars(other);
    if word.is_prefix_of(others) {
        assert(others.subrange(0, word.len() as int)[0] == others[0]);
        assert(others[0] == 'P');
        assert(other[0] == 80);
    }
}

/// A line ends at a line feed or a carriage return; every other byte belongs to
/// it. A line about progress is told and not kept, and any other is kept with a
/// line feed behind it, as far as there is room.
pub proof fn lemma_lines_of_progress(reading: Reading, byte: u8, limit: nat)
    requires
        reading.pending.len() < limit,
        reading.captured.len() + reading.pending.len() < limit,
    ensures
        byte != 10 && byte != 13 ==> after_byte(reading, byte, limit) == (Reading {
            pending: reading.pending.push(byte),
            ..reading
        }),
        byte == 10 || byte == 13 ==> after_byte(reading, byte, limit).pending == Seq::<u8>::empty(),
        (byte == 10 || byte == 13) && progress_of(reading.pending) is None && reading.pending.len()
            > 0 ==> after_byte(reading, byte, limit).captured == reading.captured + reading.pending
            + seq![10u8] && after_byte(reading, byte, limit).percentages == reading.percentages,
        (byte == 10 || byte == 13) && reading.pending.len() > 0 ==> (progress_of(reading.pending)
            matches Some(percent) ==> after_byte(reading, byte, limit).percentages
            == reading.percentages.push(percent)),
        (byte == 10 || byte == 13) && reading.pending.len() == 0 ==> after_byte(reading, byte, limit)
            == reading,
{
    assert(reading.captured + reading.pending.push(10) =~= reading.captured + reading.pending + seq![
        10u8,
    ]);
}

} // verus!
