//! The settings that the graphical interface keeps: how they are read, limited
//! and written.

use crate::binary64;
use crate::binary64::Binary64;
use crate::capture;
use crate::capture::CaptureDate;
use crate::splitter;
use crate::text;
use vstd::arithmetic::power2::{lemma2_to64, pow2};
use vstd::prelude::*;

verus! {

/// The group of the settings file that holds all settings.
pub const GROUP: &'static str = "settings";

/// The encoding of 12.
pub const TWELVE: u64 = 0x4028_0000_0000_0000;

/// The encoding of 95.
pub const NINETY_FIVE: u64 = 0x4057_c000_0000_0000;

/// The encoding of 100.
pub const HUNDRED: u64 = 0x4059_0000_0000_0000;

/// The settings.
#[derive(Debug)]
pub struct PersistedSettings {
    /// The output directory.
    pub output_directory: String,
    /// The choice of resolution: 300, 600 or 1200 dots per inch.
    pub dpi_index: u32,
    /// The choice of format: JPG, PNG or TIFF.
    pub format_index: u32,
    /// The choice of processing: separate photos, or the complete scan.
    pub mode_index: u32,
    /// The JPEG quality.
    pub quality: Binary64,
    /// The smallest area of a photo, in percent.
    pub min_area: Binary64,
    /// The extra space around photos, in percent.
    pub padding: Binary64,
    /// Whether the threshold is determined automatically.
    pub auto_threshold: bool,
    /// The threshold chosen by hand.
    pub threshold: Binary64,
    /// Whether photos are reviewed before they are saved.
    pub review_before_save: bool,
    /// The capture date used last.
    pub capture_date: Option<CaptureDate>,
}

/// What a settings file holds for each key; nothing for what it does not hold,
/// or holds in another form.
#[derive(Debug)]
pub struct StoredSettings {
    /// The text of `output_directory`.
    pub output_directory: Option<String>,
    /// The number of `dpi_index`.
    pub dpi_index: Option<i32>,
    /// The number of `format_index`.
    pub format_index: Option<i32>,
    /// The number of `mode_index`.
    pub mode_index: Option<i32>,
    /// The number of `quality`.
    pub quality: Option<Binary64>,
    /// The number of `min_area`.
    pub min_area: Option<Binary64>,
    /// The number of `padding`.
    pub padding: Option<Binary64>,
    /// The answer of `auto_threshold`.
    pub auto_threshold: Option<bool>,
    /// The number of `threshold`.
    pub threshold: Option<Binary64>,
    /// The answer of `review_before_save`.
    pub review_before_save: Option<bool>,
    /// The text of `capture_date`.
    pub capture_date: Option<String>,
}

/// A choice that was read: the stored one where it is not negative, else the
/// usual one; and in any case no more than the largest.
pub open spec fn index_of(stored: Option<i32>, usual: u32, largest: u32) -> u32 {
    let chosen = match stored {
        Some(n) => if n >= 0 {
            n as u32
        } else {
            usual
        },
        None => usual,
    };
    if chosen < largest {
        chosen
    } else {
        largest
    }
}

/// A choice that was read.
pub fn read_index(stored: Option<i32>, usual: u32, largest: u32) -> (r: u32)
    ensures
        r == index_of(stored, usual, largest),
        r <= largest,
{
    let chosen: u32 = match stored {
        Some(n) => if n >= 0 {
            n as u32
        } else {
            usual
        },
        None => usual,
    };
    if chosen < largest {
        chosen
    } else {
        largest
    }
}

/// A number that was read: the stored one where it is finite, else the usual
/// one; within limits.
pub open spec fn double_of(stored: Option<Binary64>, usual: u64, low: u64, high: u64) -> Binary64 {
    let chosen = match stored {
        Some(number) => if number.is_finite_number() {
            number
        } else {
            Binary64 { bits: usual }
        },
        None => Binary64 { bits: usual },
    };
    chosen.clamped(Binary64 { bits: low }, Binary64 { bits: high })
}

/// A number that was read.
pub fn read_double(stored: Option<Binary64>, usual: u64, low: u64, high: u64) -> (r: Binary64)
    ensures
        r == double_of(stored, usual, low, high),
{
    let chosen = match stored {
        Some(number) => if number.is_finite() {
            number
        } else {
            Binary64 { bits: usual }
        },
        None => Binary64 { bits: usual },
    };
    chosen.clamp(Binary64 { bits: low }, Binary64 { bits: high })
}

/// A directory that was read: the stored one unless it is empty, else the usual
/// one.
pub open spec fn directory_of(stored: Option<String>, usual: Seq<char>) -> Seq<char> {
    match stored {
        Some(directory) => if directory@.len() > 0 {
            directory@
        } else {
            usual
        },
        None => usual,
    }
}

/// A date that was read.
pub open spec fn date_of(stored: Option<String>) -> Option<CaptureDate> {
    match stored {
        Some(text) => capture::parsed_date(text@, "%Y-%m-%d"@),
        None => None,
    }
}

impl PersistedSettings {
    /// Whether these are the usual settings with the given output directory.
    pub open spec fn is_usual(self, output_directory: Seq<char>) -> bool {
        &&& self.output_directory@ == output_directory
        &&& self.dpi_index == 1
        &&& self.format_index == 0
        &&& self.mode_index == 0
        &&& self.quality.bits == NINETY_FIVE
        &&& self.min_area.bits == splitter::TWO
        &&& self.padding.bits == splitter::ONE_AND_ONE_FIFTH
        &&& self.auto_threshold
        &&& self.threshold.bits == TWELVE
        &&& self.review_before_save
        &&& self.capture_date is None
    }

    /// Whether these are the settings that a file stands for.
    pub open spec fn is_read_from(self, stored: StoredSettings, output_directory: Seq<char>) -> bool {
        &&& self.output_directory@ == directory_of(stored.output_directory, output_directory)
        &&& self.dpi_index == index_of(stored.dpi_index, 1, 2)
        &&& self.format_index == index_of(stored.format_index, 0, 2)
        &&& self.mode_index == index_of(stored.mode_index, 0, 1)
        &&& self.quality == double_of(stored.quality, NINETY_FIVE, splitter::ONE, HUNDRED)
        &&& self.min_area == double_of(
            stored.min_area,
            splitter::TWO,
            splitter::ONE_TENTH,
            splitter::FIFTY,
        )
        &&& self.padding == double_of(
            stored.padding,
            splitter::ONE_AND_ONE_FIFTH,
            splitter::ZERO,
            splitter::FIFTEEN,
        )
        &&& self.auto_threshold == match stored.auto_threshold {
            Some(answer) => answer,
            None => true,
        }
        &&& self.threshold == double_of(
            stored.threshold,
            TWELVE,
            splitter::ONE,
            splitter::TWO_HUNDRED_FIFTY_FIVE,
        )
        &&& self.review_before_save == match stored.review_before_save {
            Some(answer) => answer,
            None => true,
        }
        &&& self.capture_date == date_of(stored.capture_date)
    }

    /// The usual settings, with the given output directory.
    pub fn usual(output_directory: &str) -> (r: PersistedSettings)
        ensures
            r.is_usual(output_directory@),
    {
        PersistedSettings {
            output_directory: output_directory.to_string(),
            dpi_index: 1,
            format_index: 0,
            mode_index: 0,
            quality: Binary64 { bits: NINETY_FIVE },
            min_area: Binary64 { bits: splitter::TWO },
            padding: Binary64 { bits: splitter::ONE_AND_ONE_FIFTH },
            auto_threshold: true,
            threshold: Binary64 { bits: TWELVE },
            review_before_save: true,
            capture_date: None,
        }
    }

    /// The settings that a file stands for, or the usual ones where there is no
    /// file that can be read. The output directory is the one to use where none
    /// is stored.
    pub fn load(stored: Option<StoredSettings>, output_directory: &str) -> (r: PersistedSettings)
        ensures
            match stored {
                Some(stored) => r.is_read_from(stored, output_directory@),
                None => r.is_usual(output_directory@),
            },
    {
        let stored = match stored {
            Some(stored) => stored,
            None => {
                return PersistedSettings::usual(output_directory);
            },
        };
        let directory = match stored.output_directory {
            Some(directory) => if text::characters(&directory).len() > 0 {
                directory
            } else {
                output_directory.to_string()
            },
            None => output_directory.to_string(),
        };
        let capture_date = match stored.capture_date {
            Some(written) => capture::stored_date(&written),
            None => None,
        };
        PersistedSettings {
            output_directory: directory,
            dpi_index: read_index(stored.dpi_index, 1, 2),
            format_index: read_index(stored.format_index, 0, 2),
            mode_index: read_index(stored.mode_index, 0, 1),
            quality: read_double(stored.quality, NINETY_FIVE, splitter::ONE, HUNDRED),
            min_area: read_double(
                stored.min_area,
                splitter::TWO,
                splitter::ONE_TENTH,
                splitter::FIFTY,
            ),
            padding: read_double(
                stored.padding,
                splitter::ONE_AND_ONE_FIFTH,
                splitter::ZERO,
                splitter::FIFTEEN,
            ),
            auto_threshold: match stored.auto_threshold {
                Some(answer) => answer,
                None => true,
            },
            threshold: read_double(
                stored.threshold,
                TWELVE,
                splitter::ONE,
                splitter::TWO_HUNDRED_FIFTY_FIVE,
            ),
            review_before_save: match stored.review_before_save {
                Some(answer) => answer,
                None => true,
            },
            capture_date,
        }
    }

    /// Whether these are the entries that are written for the settings.
    pub open spec fn is_written_as(self, stored: StoredSettings) -> bool {
        &&& stored.output_directory matches Some(directory) && directory@ == self.output_directory@
        &&& stored.dpi_index == Some(splitter::as_signed(self.dpi_index) as i32)
        &&& stored.format_index == Some(splitter::as_signed(self.format_index) as i32)
        &&& stored.mode_index == Some(splitter::as_signed(self.mode_index) as i32)
        &&& stored.quality == Some(self.quality)
        &&& stored.min_area == Some(self.min_area)
        &&& stored.padding == Some(self.padding)
        &&& stored.auto_threshold == Some(self.auto_threshold)
        &&& stored.threshold == Some(self.threshold)
        &&& stored.review_before_save == Some(self.review_before_save)
        &&& match self.capture_date {
            Some(date) => {
                &&& stored.capture_date matches Some(written)
                &&& written@ == capture::stored_text(date)
                &&& capture::parsed_date(written@, "%Y-%m-%d"@) == Some(date)
            },
            None => stored.capture_date is None,
        }
    }

    /// The entries that are written for the settings.
    pub fn save(&self) -> (r: StoredSettings)
        requires
            self.capture_date matches Some(date) ==> date.is_valid(),
        ensures
            self.is_written_as(r),
    {
        let capture_date = match self.capture_date {
            Some(date) => Some(capture::stored_date_text(date)),
            None => None,
        };
        StoredSettings {
            output_directory: Some(self.output_directory.clone()),
            dpi_index: Some(splitter::to_signed(self.dpi_index)),
            format_index: Some(splitter::to_signed(self.format_index)),
            mode_index: Some(splitter::to_signed(self.mode_index)),
            quality: Some(self.quality),
            min_area: Some(self.min_area),
            padding: Some(self.padding),
            auto_threshold: Some(self.auto_threshold),
            threshold: Some(self.threshold),
            review_before_save: Some(self.review_before_save),
            capture_date,
        }
    }

    /// Whether every setting is one that the interface offers.
    pub open spec fn is_offered(self) -> bool {
        &&& self.output_directory@.len() > 0
        &&& self.dpi_index <= 2
        &&& self.format_index <= 2
        &&& self.mode_index <= 1
        &&& splitter::between(splitter::ONE, self.quality, HUNDRED)
        &&& splitter::between(splitter::ONE_TENTH, self.min_area, splitter::FIFTY)
        &&& splitter::between(splitter::ZERO, self.padding, splitter::FIFTEEN)
        &&& splitter::between(splitter::ONE, self.threshold, splitter::TWO_HUNDRED_FIFTY_FIVE)
    }
}

/// Settings that the interface offers come back as they were written.
pub proof fn lemma_settings_read_back(
    settings: PersistedSettings,
    stored: StoredSettings,
    again: PersistedSettings,
    output_directory: Seq<char>,
)
    requires
        settings.is_offered(),
        settings.is_written_as(stored),
        again.is_read_from(stored, output_directory),
    ensures
        again.output_directory@ == settings.output_directory@,
        again.dpi_index == settings.dpi_index,
        again.format_index == settings.format_index,
        again.mode_index == settings.mode_index,
        again.quality == settings.quality,
        again.min_area == settings.min_area,
        again.padding == settings.padding,
        again.auto_threshold == settings.auto_threshold,
        again.threshold == settings.threshold,
        again.review_before_save == settings.review_before_save,
        again.capture_date == settings.capture_date,
{
    lemma_between_is_finite(splitter::ONE, settings.quality, HUNDRED);
    lemma_between_is_finite(splitter::ONE_TENTH, settings.min_area, splitter::FIFTY);
    lemma_between_is_finite(splitter::ZERO, settings.padding, splitter::FIFTEEN);
    lemma_between_is_finite(
        splitter::ONE,
        settings.threshold,
        splitter::TWO_HUNDRED_FIFTY_FIVE,
    );
}

proof fn lemma_between_is_finite(low: u64, number: Binary64, high: u64)
    requires
        low < 0x7ff0_0000_0000_0000,
        high < 0x7ff0_0000_0000_0000,
        splitter::between(low, number, high),
    ensures
        number.is_finite_number(),
{
    if !number.is_finite_number() {
        crate::binary64::lemma_units_increase(high as nat, number.magnitude());
        crate::binary64::lemma_units_increase(low as nat, number.magnitude());
    }
}

/// Whatever a file holds, the settings that are read are within the limits of
/// the interface.
pub proof fn lemma_settings_are_limited(
    stored: StoredSettings,
    settings: PersistedSettings,
    output_directory: Seq<char>,
)
    requires
        settings.is_read_from(stored, output_directory),
        output_directory.len() > 0,
    ensures
        settings.is_offered(),
{
    lemma_double_is_limited(stored.quality, NINETY_FIVE, splitter::ONE, HUNDRED);
    lemma_double_is_limited(
        stored.min_area,
        splitter::TWO,
        splitter::ONE_TENTH,
        splitter::FIFTY,
    );
    lemma_double_is_limited(
        stored.padding,
        splitter::ONE_AND_ONE_FIFTH,
        splitter::ZERO,
        splitter::FIFTEEN,
    );
    lemma_double_is_limited(
        stored.threshold,
        TWELVE,
        splitter::ONE,
        splitter::TWO_HUNDRED_FIFTY_FIVE,
    );
}

proof fn lemma_double_is_limited(stored: Option<Binary64>, usual: u64, low: u64, high: u64)
    requires
        usual < 0x7ff0_0000_0000_0000,
        low < high < 0x7ff0_0000_0000_0000,
    ensures
        splitter::between(low, double_of(stored, usual, low, high), high),
{
    crate::binary64::lemma_units_increase(low as nat, high as nat);
}

/// A stored choice is taken if it is offered; where nothing usable is stored, the
/// usual one is taken, and the last one in place of one beyond it.
pub proof fn lemma_stored_choices(n: i32, usual: u32, largest: u32)
    requires
        usual <= largest,
    ensures
        0 <= n <= largest ==> index_of(Some(n), usual, largest) == n,
        n < 0 ==> index_of(Some(n), usual, largest) == usual,
        n > largest ==> index_of(Some(n), usual, largest) == largest,
        index_of(None, usual, largest) == usual,
{
}

/// A stored number is taken as it is within its limits, and the nearer limit
/// outside them; where no finite number is stored, the usual one is taken.
pub proof fn lemma_stored_numbers(number: Binary64, usual: u64, low: u64, high: u64)
    requires
        low <= usual <= high < 0x7ff0_0000_0000_0000,
    ensures
        splitter::between(low, number, high) ==> double_of(Some(number), usual, low, high) == number,
        number.is_finite_number() && number.lt(Binary64 { bits: low }) ==> double_of(
            Some(number),
            usual,
            low,
            high,
        ).bits == low,
        number.is_finite_number() && (Binary64 { bits: high }).lt(number) ==> double_of(
            Some(number),
            usual,
            low,
            high,
        ).bits == high,
        !number.is_finite_number() ==> double_of(Some(number), usual, low, high).bits == usual,
        double_of(None, usual, low, high).bits == usual,
{
    binary64::lemma_units_increase(low as nat, usual as nat);
    binary64::lemma_units_increase(usual as nat, high as nat);
    let (a, b, c) = (Binary64 { bits: low }, Binary64 { bits: usual }, Binary64 { bits: high });
    assert(a.magnitude() == low && b.magnitude() == usual && c.magnitude() == high);
    if number.le(c) && c.lt(number) {
        assert(false);
    }
    if !number.is_finite_number() && splitter::between(low, number, high) {
        if number.is_negative() {
            binary64::lemma_units_increase(0, number.magnitude());
        } else {
            binary64::lemma_units_increase(high as nat, number.magnitude());
        }
    }
}

/// The usual settings: 600 dots per inch, JPG at a quality of 95, separated
/// photos with a review, an automatic threshold or else 12, a smallest area of
/// two percent, and no date.
pub proof fn lemma_usual_settings(settings: PersistedSettings, directory: Seq<char>)
    requires
        settings.is_usual(directory),
    ensures
        settings.output_directory@ == directory,
        settings.dpi_index == 1,
        settings.format_index == 0,
        settings.mode_index == 0,
        settings.quality.value() == 95 * pow2(1074),
        settings.min_area.value() == 2 * pow2(1074),
        settings.padding.bits == 0x3ff3_3333_3333_3333,
        settings.auto_threshold,
        settings.threshold.value() == 12 * pow2(1074),
        settings.review_before_save,
        settings.capture_date is None,
{
    lemma2_to64();
    binary64::lemma_whole_number(NINETY_FIVE as nat, 6, 95);
    binary64::lemma_whole_number(TWELVE as nat, 3, 12);
    binary64::lemma_whole_number(splitter::TWO as nat, 1, 2);
}

/// Nothing stored is the same as the usual settings, and an answer that is stored
/// is kept.
pub proof fn lemma_stored_answers(
    stored: StoredSettings,
    settings: PersistedSettings,
    directory: Seq<char>,
)
    requires
        settings.is_read_from(stored, directory),
    ensures
        stored.auto_threshold matches Some(answer) ==> settings.auto_threshold == answer,
        stored.auto_threshold is None ==> settings.auto_threshold,
        stored.review_before_save matches Some(answer) ==> settings.review_before_save == answer,
        stored.review_before_save is None ==> settings.review_before_save,
        stored.output_directory matches Some(chosen) ==> chosen@.len() > 0
            ==> settings.output_directory@ == chosen@,
        stored.output_directory is None ==> settings.output_directory@ == directory,
        stored.capture_date is None ==> settings.capture_date is None,
        stored.dpi_index is None ==> settings.dpi_index == 1,
        stored.format_index is None ==> settings.format_index == 0,
        stored.mode_index is None ==> settings.mode_index == 0,
{
}

} // verus!
