//! The command line: how options become settings, which scanner is used, and
//! what is reported.

use crate::binary64::Binary64;
use crate::capture::CaptureDate;
use crate::scanner;
use crate::scanner::ScannerDevice;
use crate::splitter;
use crate::splitter::{OutputFormat, SplitConfig};
use crate::text;
use vstd::prelude::*;

verus! {

/// How long the search for scanners may take, in nanoseconds.
pub const SEARCH_TIMEOUT: u128 = 15_000_000_000;

/// How long a scan may take, in nanoseconds.
pub const SCAN_TIMEOUT: u128 = 600_000_000_000;

/// A format as it is named on the command line.
#[derive(Clone, Copy, Debug, PartialEq, Eq, Structural)]
pub enum FormatArgument {
    /// JPEG.
    Jpg,
    /// PNG.
    Png,
    /// TIFF.
    Tif,
}

impl Default for FormatArgument {
    fn default() -> (r: Self)
        ensures
            r == FormatArgument::Jpg,
    {
        FormatArgument::Jpg
    }
}

impl FormatArgument {
    /// The format that is meant.
    pub open spec fn format(self) -> OutputFormat {
        match self {
            FormatArgument::Jpg => OutputFormat::Jpeg,
            FormatArgument::Png => OutputFormat::Png,
            FormatArgument::Tif => OutputFormat::Tiff,
        }
    }
}

impl From<FormatArgument> for OutputFormat {
    fn from(value: FormatArgument) -> (r: OutputFormat) {
        match value {
            FormatArgument::Jpg => OutputFormat::Jpeg,
            FormatArgument::Png => OutputFormat::Png,
            FormatArgument::Tif => OutputFormat::Tiff,
        }
    }
}

impl vstd::std_specs::convert::FromSpecImpl<FormatArgument> for OutputFormat {
    open spec fn obeys_from_spec() -> bool {
        true
    }

    open spec fn from_spec(value: FormatArgument) -> OutputFormat {
        value.format()
    }
}

/// The options for exported files.
#[derive(Debug)]
pub struct ExportOptions {
    /// The output directory, or none for the usual one.
    pub output: Option<String>,
    /// The format.
    pub format: FormatArgument,
    /// The JPEG quality.
    pub quality: i32,
    /// The beginning of the file names.
    pub prefix: Option<String>,
    /// The capture date.
    pub date: Option<CaptureDate>,
}

/// The options for separating photos.
#[derive(Clone, Copy, Debug)]
pub struct SplitOptions {
    /// The smallest area of a photo, in percent.
    pub min_area: Binary64,
    /// The threshold, or none to have it determined.
    pub threshold: Option<Binary64>,
    /// The extra space around photos, in percent.
    pub padding: Binary64,
    /// Whether the preview is left out.
    pub no_preview: bool,
}

/// The options for scanning.
#[derive(Debug)]
pub struct ScannerOptions {
    /// The device, or none for the first that is found.
    pub device: Option<String>,
    /// The resolution.
    pub dpi: u32,
}

/// Whether settings are those for the given options. Without options for
/// separating photos, the usual ones stand.
pub open spec fn is_config(
    config: SplitConfig,
    export: ExportOptions,
    split: Option<SplitOptions>,
    dpi: Option<u32>,
) -> bool {
    &&& config.min_area_percent == match split {
        Some(options) => options.min_area,
        None => (Binary64 { bits: splitter::TWO }),
    }
    &&& config.threshold == match split {
        Some(options) => options.threshold,
        None => None,
    }
    &&& config.padding_percent == match split {
        Some(options) => options.padding,
        None => (Binary64 { bits: splitter::ONE_AND_ONE_FIFTH }),
    }
    &&& config.max_detection_size == 1800
    &&& config.output_format == export.format.format()
    &&& config.jpeg_quality == export.quality
    &&& config.dpi == dpi
    &&& config.capture_date == export.date
}

/// The settings for the given options.
pub fn config(export: &ExportOptions, split: Option<SplitOptions>, dpi: Option<u32>) -> (r:
    SplitConfig)
    ensures
        is_config(r, *export, split, dpi),
{
    let usual = SplitConfig::default();
    SplitConfig {
        min_area_percent: match split {
            Some(options) => options.min_area,
            None => usual.min_area_percent,
        },
        threshold: match split {
            Some(options) => options.threshold,
            None => None,
        },
        padding_percent: match split {
            Some(options) => options.padding,
            None => usual.padding_percent,
        },
        max_detection_size: usual.max_detection_size,
        output_format: OutputFormat::from(export.format),
        jpeg_quality: export.quality,
        dpi,
        capture_date: export.date,
    }
}

/// The output directory: the one in the options, or the usual one.
pub fn output_directory(export: &ExportOptions, usual: &str) -> (r: String)
    ensures
        r@ == match export.output {
            Some(directory) => directory@,
            None => usual@,
        },
{
    match &export.output {
        Some(directory) => directory.clone(),
        None => usual.to_string(),
    }
}

/// Which scanner a scan is made with.
#[derive(Debug)]
pub enum ScannerChoice {
    /// This one, which was named.
    Named(String),
    /// This one, which was found first, under the name for people.
    Found {
        /// The technical name.
        name: String,
        /// The name for people.
        label: String,
    },
    /// None, since none was found.
    Missing,
}

/// Whether scanners have to be searched for.
pub fn must_search(options: &ScannerOptions) -> (r: bool)
    ensures
        r == (options.device is None),
{
    options.device.is_none()
}

/// Which scanner a scan is made with: the one in the options, or the first of
/// those that were found.
pub fn scanner_name(options: &ScannerOptions, devices: &Vec<ScannerDevice>) -> (r: ScannerChoice)
    ensures
        match options.device {
            Some(device) => r matches ScannerChoice::Named(name) && name@ == device@,
            None => if devices@.len() == 0 {
                r is Missing
            } else {
                &&& r matches ScannerChoice::Found { name, label }
                &&& name@ == devices@[0].name@
                &&& label@ == devices@[0]@.long_name()
            },
        },
{
    match &options.device {
        Some(device) => ScannerChoice::Named(device.clone()),
        None => if devices.len() == 0 {
            ScannerChoice::Missing
        } else {
            ScannerChoice::Found { name: devices[0].name.clone(), label: devices[0].label() }
        },
    }
}

/// A line of the list of scanners: the fields of a device, separated by tabs.
pub open spec fn device_line_of(device: scanner::DeviceView) -> Seq<char> {
    device.name + "\t"@ + device.vendor + "\t"@ + device.model + "\t"@ + device.kind
}

/// A line of the list of scanners.
pub fn device_line(device: &ScannerDevice) -> (r: String)
    ensures
        r@ == device_line_of(device@),
{
    let mut line = text::concat(&device.name, "\t");
    line.append(&device.vendor);
    line.append("\t");
    line.append(&device.model);
    line.append("\t");
    line.append(&device.kind);
    line
}

/// How far a batch has come.
#[derive(Clone, Copy, Debug, PartialEq, Eq, Structural)]
pub struct Batch {
    /// How many files there are.
    pub total: usize,
    /// How many have been processed.
    pub done: usize,
    /// How many of these have failed.
    pub failed: usize,
}

impl Batch {
    /// Whether the numbers fit together.
    pub open spec fn well_formed(self) -> bool {
        self.failed <= self.done <= self.total
    }

    /// A batch of so many files.
    pub fn new(total: usize) -> (r: Batch)
        ensures
            r == (Batch { total, done: 0, failed: 0 }),
            r.well_formed(),
    {
        Batch { total, done: 0, failed: 0 }
    }

    /// The file to process next, if any is left: a failure does not end the
    /// batch.
    pub fn next(&self) -> (r: Option<usize>)
        requires
            self.well_formed(),
        ensures
            r == if self.done < self.total {
                Some(self.done)
            } else {
                None
            },
    {
        if self.done < self.total {
            Some(self.done)
        } else {
            None
        }
    }

    /// The batch with the outcome of one more file.
    pub open spec fn recorded(self, succeeded: bool) -> Batch {
        Batch {
            total: self.total,
            done: (self.done + 1) as usize,
            failed: if succeeded {
                self.failed
            } else {
                (self.failed + 1) as usize
            },
        }
    }

    /// Takes the outcome of a file.
    pub fn record(&mut self, succeeded: bool)
        requires
            old(self).well_formed(),
            old(self).done < old(self).total,
        ensures
            final(self).well_formed(),
            *final(self) == old(self).recorded(succeeded),
            final(self).total == old(self).total,
            final(self).done == old(self).done + 1,
            final(self).failed == old(self).failed + if succeeded {
                0int
            } else {
                1
            },
    {
        self.done = self.done + 1;
        if !succeeded {
            self.failed = self.failed + 1;
        }
    }

    /// Whether the batch counts as successful: no file has failed.
    pub fn succeeded(&self) -> (r: bool)
        ensures
            r == (self.failed == 0),
    {
        self.failed == 0
    }
}

/// How many outcomes are failures.
pub open spec fn failures(outcomes: Seq<bool>) -> nat
    decreases outcomes.len(),
{
    if outcomes.len() == 0 {
        0
    } else {
        failures(outcomes.drop_last()) + if outcomes.last() {
            0nat
        } else {
            1
        }
    }
}

/// Whether a batch stands where it stands after these outcomes.
pub open spec fn is_after(batch: Batch, total: usize, outcomes: Seq<bool>) -> bool
    decreases outcomes.len(),
{
    if outcomes.len() == 0 {
        batch == (Batch { total, done: 0, failed: 0 })
    } else {
        &&& batch.total == total
        &&& batch.done >= 1
        &&& batch.failed >= if outcomes.last() {
            0int
        } else {
            1
        }
        &&& is_after(
            Batch {
                total,
                done: (batch.done - 1) as usize,
                failed: (batch.failed - if outcomes.last() {
                    0int
                } else {
                    1
                }) as usize,
            },
            total,
            outcomes.drop_last(),
        )
    }
}

/// A batch succeeds exactly if all its files do, and every file gets its turn:
/// after any outcomes, the next file is the one that none of them is for.
pub proof fn lemma_batch_reports_any_failure(batch: Batch, total: usize, outcomes: Seq<bool>)
    requires
        is_after(batch, total, outcomes),
    ensures
        batch.done == outcomes.len(),
        batch.failed == failures(outcomes),
        batch.failed == 0 <==> forall|i: int| 0 <= i < outcomes.len() ==> outcomes[i],
    decreases outcomes.len(),
{
    if outcomes.len() > 0 {
        let before = Batch {
            total,
            done: (batch.done - 1) as usize,
            failed: (batch.failed - if outcomes.last() {
                0int
            } else {
                1
            }) as usize,
        };
        let rest = outcomes.drop_last();
        lemma_batch_reports_any_failure(before, total, rest);
        assert(outcomes.last() == outcomes[outcomes.len() - 1]);
        assert(forall|i: int| 0 <= i < rest.len() ==> rest[i] == outcomes[i]);
        if batch.failed == 0 {
            assert forall|i: int| 0 <= i < outcomes.len() implies outcomes[i] by {
                if i < rest.len() {
                    assert(rest[i]);
                }
            }
        } else if forall|i: int| 0 <= i < outcomes.len() ==> outcomes[i] {
            assert forall|i: int| 0 <= i < rest.len() implies rest[i] by {
                assert(outcomes[i]);
            }
        }
    }
}

/// The settings of an export are those of the command line: the format, the
/// quality, the date and the resolution as given; where photos are separated, the
/// smallest area, the threshold and the extra space too.
pub proof fn lemma_command_line_settings(
    export: &ExportOptions,
    split: SplitOptions,
    dpi: Option<u32>,
    separated: SplitConfig,
    complete: SplitConfig,
)
    requires
        call_ensures(config, (export, Some(split), dpi), separated),
        call_ensures(config, (export, None, dpi), complete),
    ensures
        separated.min_area_percent == split.min_area,
        separated.threshold == split.threshold,
        separated.padding_percent == split.padding,
        complete.threshold is None,
        separated.jpeg_quality == export.quality && complete.jpeg_quality == export.quality,
        separated.dpi == dpi && complete.dpi == dpi,
        separated.capture_date == export.date && complete.capture_date == export.date,
        separated.output_format == complete.output_format,
        export.format is Jpg <==> separated.output_format is Jpeg,
        export.format is Png <==> separated.output_format is Png,
        export.format is Tif <==> separated.output_format is Tiff,
{
}

/// Files go to the directory that is asked for, else to the usual one.
pub proof fn lemma_output_directories(export: &ExportOptions, usual: &str, directory: String)
    requires
        call_ensures(output_directory, (export, usual), directory),
    ensures
        export.output matches Some(chosen) ==> directory@ == chosen@,
        export.output is None ==> directory@ == usual@,
{
}

/// The scanner is the one that is named, else the first that is found; only
/// without a name are scanners searched for.
pub proof fn lemma_chosen_scanner(
    options: &ScannerOptions,
    devices: &Vec<ScannerDevice>,
    choice: ScannerChoice,
    searches: bool,
)
    requires
        call_ensures(scanner_name, (options, devices), choice),
        call_ensures(must_search, (options,), searches),
    ensures
        searches <==> options.device is None,
        options.device matches Some(device) ==> (choice matches ScannerChoice::Named(name) && name@
            == device@),
        options.device is None && devices@.len() > 0 ==> (choice matches ScannerChoice::Found {
            name,
            label,
        } && name@ == devices@[0].name@),
        options.device is None && devices@.len() == 0 ==> choice is Missing,
{
}

/// A scanner is listed in a line that stands for it: its texts, with tabs
/// between, are read back as that scanner.
pub proof fn lemma_listed_scanners(device: scanner::DeviceView)
    requires
        device.name.len() > 0,
        !text::is_white_space(device.name[0]) && !text::is_white_space(device.name.last()),
        !scanner::starts_like_video(device.name),
        forall|i: int| 0 <= i < device.name.len() ==> #[trigger] device.name[i] != '\t',
        forall|i: int| 0 <= i < device.vendor.len() ==> #[trigger] device.vendor[i] != '\t',
        forall|i: int| 0 <= i < device.model.len() ==> #[trigger] device.model[i] != '\t',
        forall|i: int| 0 <= i < device.kind.len() ==> #[trigger] device.kind[i] != '\t',
        device.vendor.len() > 0 ==> !text::is_white_space(device.vendor[0])
            && !text::is_white_space(device.vendor.last()),
        device.model.len() > 0 ==> !text::is_white_space(device.model[0]) && !text::is_white_space(
            device.model.last(),
        ),
        device.kind.len() > 0 ==> !text::is_white_space(device.kind[0]) && !text::is_white_space(
            device.kind.last(),
        ),
    ensures
        scanner::devices_of(seq![device_line_of(device)]) == seq![device],
{
    reveal_strlit("\t");
    assert("\t"@ =~= seq!['\t']);
    let none = Seq::<char>::empty();
    scanner::lemma_device_line(device.name, device.vendor, device.model, device.kind, none);
    let built = device.name + seq!['\t'] + (device.vendor + seq!['\t'] + (device.model + seq!['\t']
        + device.kind));
    assert(device_line_of(device) =~= built);
}

/// A batch takes every file once, in order, and then ends; it succeeded if no
/// file failed.
pub proof fn lemma_batches(total: usize, batch: &Batch, fresh: Batch, next: Option<usize>, good: bool)
    requires
        batch.well_formed(),
        call_ensures(Batch::new, (total,), fresh),
        call_ensures(Batch::next, (batch,), next),
        call_ensures(Batch::succeeded, (batch,), good),
    ensures
        fresh.total == total && fresh.done == 0 && fresh.failed == 0,
        batch.done < batch.total ==> next == Some(batch.done),
        batch.done >= batch.total ==> next is None,
        good <==> batch.failed == 0,
        SEARCH_TIMEOUT == 15 * 1_000_000_000,
        SCAN_TIMEOUT == 10 * 60 * 1_000_000_000,
{
}

/// Taking the outcome of one more file is what makes the batch one after that
/// many outcomes.
pub proof fn lemma_recorded_outcomes(
    batch: Batch,
    total: usize,
    outcomes: Seq<bool>,
    succeeded: bool,
)
    requires
        is_after(batch, total, outcomes),
        batch.well_formed(),
        batch.done < batch.total,
    ensures
        is_after(batch.recorded(succeeded), total, outcomes.push(succeeded)),
{
    let later = batch.recorded(succeeded);
    let all = outcomes.push(succeeded);
    assert(all.drop_last() =~= outcomes);
    assert(all.last() == succeeded);
}

} // verus!
