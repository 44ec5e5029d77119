//! Scanner control, photo separation and archive export for Photo Scanner.
//!
//! The library makes every decision of the program and states what it decides:
//! reading and writing image headers, resolutions and metadata, telling photos
//! from the scanner bed, naming and publishing files, running scans, and the
//! behaviour of the command line and the graphical interface. The program around
//! it performs the operations that the library asks for.

pub mod arithmetic;
pub mod big;
pub mod binary64;
pub mod capture;
pub mod cli;
pub mod decimals;
pub mod density;
pub mod detection;
pub mod export;
pub mod failure;
pub mod gui;
pub mod gui_settings;
pub mod header;
pub mod i18n;
pub mod import;
pub mod metadata;
pub mod notices;
pub mod progress;
pub mod publish;
pub mod read;
pub mod regions;
pub mod review;
pub mod rounding;
pub mod scanner;
pub mod sheet;
pub mod splitter;
pub mod text;
pub mod work;
pub mod zoom;

use vstd::prelude::*;

verus! {

/// The identity of the application on the desktop.
pub const APP_ID: &'static str = "de.martin.PhotoScanner";

/// The name of the application for people.
pub const APP_NAME: &'static str = "Photo Scanner";

/// The folder for exported files, within the user's pictures.
pub const OUTPUT_FOLDER: &'static str = "PhotoScanner";

/// The directory for exported files where no other is chosen: a folder within
/// the user's pictures, or within `output` where these cannot be found.
pub fn default_output_directory(pictures: Option<&str>) -> (r: String)
    ensures
        r@ == match pictures {
            Some(directory) => i18n::joined(directory@, "PhotoScanner"@),
            None => i18n::joined("output"@, "PhotoScanner"@),
        },
{
    match pictures {
        Some(directory) => i18n::join(directory, "PhotoScanner"),
        None => i18n::join("output", "PhotoScanner"),
    }
}

/// Photos go to a folder of the program's own name among the pictures, or in the
/// working directory where there is no place for pictures.
pub proof fn lemma_default_output(pictures: &str, found: String, fallback: String)
    requires
        call_ensures(default_output_directory, (Some(pictures),), found),
        call_ensures(default_output_directory, (None,), fallback),
        pictures@.len() > 0,
        pictures@.last() != '/',
    ensures
        found@ == pictures@ + "/PhotoScanner"@,
        fallback@ == "output/PhotoScanner"@,
{
    reveal_strlit("/PhotoScanner");
    reveal_strlit("PhotoScanner");
    reveal_strlit("output");
    reveal_strlit("output/PhotoScanner");
    assert(seq!['/'] + "PhotoScanner"@ =~= "/PhotoScanner"@);
    assert(found@ =~= pictures@ + "/PhotoScanner"@);
    assert(fallback@ =~= "output/PhotoScanner"@);
}

} // verus!
