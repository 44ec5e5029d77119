use photoscanner::binary64::Binary64;
use photoscanner::capture::{
    capture_datetime, date_entry_text, exif_offset, exif_stamp, file_stamp, parse_date,
    parse_date_entry, stored_date, stored_date_text, wall_clock, CaptureDate, CaptureTime,
};
use photoscanner::density::{
    container_dpi, write_container_dpi, write_jpeg_density, write_png_density, DensityChange,
};
use photoscanner::export::{
    export_photos, save_full_scan, ExportEvent, ExportKind, ExportRun, ExportStage,
};
use photoscanner::failure::{Failure, FailureKind};
use photoscanner::header::image_dimensions;
use photoscanner::metadata::{
    self, read_tag, write_arguments, MetadataError, ProgramOutput, RESOLUTION_TAG,
};
use photoscanner::publish::{
    output_path, publish_staged_group, PublishAction, PublishEvent, PublishRun, PublishStage,
    StagedOutput,
};
use photoscanner::read::{read_image, ReadEvent, ReadRun, ReadStage};
use photoscanner::regions::{split_scan, DetectedPhoto, DetectedRegion, Place};
use photoscanner::splitter::{
    check_decoded, check_export, encoder_settings, export_dpi, export_result, image_dpi,
    keeps_photo, metadata_dpi, orientation_transform, output_base, save_image, to_signed,
    validate_image_dimensions, validate_prefix, DecodedImage, EncoderSetting, OutputFormat,
    SaveEvent, SaveStage, SplitConfig, SplitError, Transform, MAX_DETECTION_SIZE,
    MAX_PREFIX_BYTES, MIN_DETECTION_SIZE, PREVIEW_QUALITY,
};
use std::collections::HashMap;

fn double(value: f64) -> Binary64 {
    Binary64 {
        bits: value.to_bits(),
    }
}

fn day(year: i32, month: u32, day: u32) -> CaptureDate {
    CaptureDate { year, month, day }
}

fn noon() -> CaptureTime {
    CaptureTime {
        date: day(1995, 9, 1),
        hour: 12,
        minute: 5,
        second: 9,
        nanosecond: 0,
        offset: 7200,
    }
}

fn failure(kind: FailureKind, message: &str) -> Failure {
    Failure {
        kind,
        message: message.to_string(),
    }
}

/// A directory in memory, with the contents of its files.
type Directory = HashMap<String, String>;

/// Performs one operation of a publication on a directory.
fn perform(run: &PublishRun, contents: &[&str], directory: &mut Directory) -> Option<PublishEvent> {
    match run.action() {
        PublishAction::Link { index, name } => {
            Some(PublishEvent::Linked(if directory.contains_key(&name) {
                Err(failure(FailureKind::AlreadyExists, "File exists"))
            } else if name.contains('/') {
                Err(failure(FailureKind::NotFound, "No such directory"))
            } else {
                directory.insert(name, contents[index].to_string());
                Ok(())
            }))
        }
        PublishAction::Remove(name) => Some(PublishEvent::Removed(
            match directory.remove(&name) {
                Some(_) => Ok(()),
                None => Err(failure(FailureKind::NotFound, "No such file")),
            },
        )),
        PublishAction::Sync => Some(PublishEvent::Synced(Ok(()))),
        PublishAction::Finish => None,
    }
}

fn publish(
    outputs: Vec<StagedOutput>,
    contents: &[&str],
    directory: &mut Directory,
) -> Result<Vec<String>, SplitError> {
    let mut run = publish_staged_group(outputs);
    while let Some(event) = perform(&run, contents, directory) {
        run = run.advance(event);
    }
    match run.stage {
        PublishStage::Finished(result) => result,
        other => panic!("{other:?}"),
    }
}

fn output(stem: &str, extension: &str) -> StagedOutput {
    StagedOutput {
        stem: stem.to_string(),
        extension: extension.to_string(),
    }
}

/// Runs an export on a directory in memory.
fn run_export(mut run: ExportRun, directory: &mut Directory) -> Result<Vec<String>, SplitError> {
    let contents = vec!["image"; 32];
    loop {
        let event = match &run.stage {
            ExportStage::Preparing => ExportEvent::Prepared(Ok(())),
            ExportStage::Dating => ExportEvent::Dated {
                now: noon(),
                resolved: Some(noon()),
            },
            ExportStage::Staging { .. } | ExportStage::StagingPreview { .. } => {
                ExportEvent::Staged(Ok(()))
            }
            ExportStage::Publishing(publication) => ExportEvent::Published(
                perform(publication, &contents, directory).expect("an unfinished publication"),
            ),
            ExportStage::Finished(_) => break,
        };
        run = run.advance(event);
    }
    match run.stage {
        ExportStage::Finished(result) => result,
        other => panic!("{other:?}"),
    }
}

fn png_header(width: u32, height: u32) -> Vec<u8> {
    let mut header = Vec::from(&b"\x89PNG\r\n\x1a\n\0\0\0\rIHDR"[..]);
    header.extend_from_slice(&width.to_be_bytes());
    header.extend_from_slice(&height.to_be_bytes());
    header.extend_from_slice(&[8, 2, 0, 0, 0, 1, 2, 3, 4]);
    header
}

fn jpeg_start() -> Vec<u8> {
    let mut bytes = vec![0xff, 0xd8, 0xff, 0xe0, 0, 16];
    bytes.extend_from_slice(b"JFIF\0");
    bytes.extend_from_slice(&[1, 1, 0, 0, 1, 0, 1, 0, 0]);
    bytes.extend_from_slice(&[0xff, 0xff, 0xfe, 0, 4, b'h', b'i']);
    bytes.extend_from_slice(&[0xff, 0xc0, 0, 17, 8, 0, 60, 0, 80, 3]);
    bytes.extend_from_slice(&[0; 20]);
    bytes
}

fn tiff_start(little_endian: bool) -> Vec<u8> {
    let u16_bytes = |n: u16| {
        if little_endian {
            n.to_le_bytes()
        } else {
            n.to_be_bytes()
        }
    };
    let u32_bytes = |n: u32| {
        if little_endian {
            n.to_le_bytes()
        } else {
            n.to_be_bytes()
        }
    };
    let mut bytes = Vec::from(if little_endian { &b"II"[..] } else { &b"MM"[..] });
    bytes.extend_from_slice(&u16_bytes(42));
    bytes.extend_from_slice(&u32_bytes(8));
    bytes.extend_from_slice(&u16_bytes(3));
    for (tag, kind, value) in [(254u16, 4u16, 0u32), (256, 4, 80), (257, 3, 60)] {
        bytes.extend_from_slice(&u16_bytes(tag));
        bytes.extend_from_slice(&u16_bytes(kind));
        bytes.extend_from_slice(&u32_bytes(1));
        if kind == 3 {
            bytes.extend_from_slice(&u16_bytes(value as u16));
            bytes.extend_from_slice(&[0, 0]);
        } else {
            bytes.extend_from_slice(&u32_bytes(value));
        }
    }
    bytes
}

#[test]
fn rejects_invalid_threshold() {
    let config = SplitConfig {
        threshold: Some(double(300.0)),
        ..SplitConfig::default()
    };
    assert!(config.validate().is_err());
}

#[test]
fn every_setting_has_its_limits() {
    let refused = |config: SplitConfig| match config.validate() {
        Err(SplitError::InvalidConfig(message)) => message,
        other => panic!("{other:?}"),
    };
    let usual = SplitConfig::default();
    for value in [0.09, 50.1, f64::NAN, f64::INFINITY, -1.0] {
        assert!(refused(SplitConfig {
            min_area_percent: double(value),
            ..usual
        })
        .contains("Mindestfläche"));
    }
    for value in [0.9, 255.5, f64::NAN] {
        assert!(refused(SplitConfig {
            threshold: Some(double(value)),
            ..usual
        })
        .contains("Schwellwert"));
    }
    for value in [-0.1, 15.1] {
        assert!(refused(SplitConfig {
            padding_percent: double(value),
            ..usual
        })
        .contains("Rand"));
    }
    for value in [0, 101] {
        assert!(refused(SplitConfig {
            jpeg_quality: value,
            ..usual
        })
        .contains("JPEG-Qualität"));
    }
    for (area, threshold, padding, quality) in
        [(0.1, 1.0, 0.0, 1), (50.0, 255.0, 15.0, 100), (2.0, 12.5, -0.0, 95)]
    {
        let config = SplitConfig {
            min_area_percent: double(area),
            threshold: Some(double(threshold)),
            padding_percent: double(padding),
            jpeg_quality: quality,
            ..usual
        };
        assert!(config.validate().is_ok());
    }
    assert_eq!(f64::from_bits(usual.min_area_percent.bits), 2.0);
    assert_eq!(f64::from_bits(usual.padding_percent.bits), 1.2);
    assert_eq!(usual.jpeg_quality, 95);
    assert_eq!(usual.max_detection_size, 1800);
}

#[test]
fn rejects_unsafe_prefixes_before_touching_the_output_directory() {
    let absolute = "/tmp/absolute".to_string();
    let too_long = "a".repeat(MAX_PREFIX_BYTES + 1);
    for prefix in [
        "",
        ".",
        "..",
        "../escaped",
        "unterordner/foto",
        "windows\\foto",
        "zeile\numbruch",
        &absolute,
        &too_long,
    ] {
        assert!(matches!(
            save_full_scan(&SplitConfig::default(), Some(prefix), None),
            Err(SplitError::InvalidConfig(_))
        ));
    }
}

#[test]
fn safe_prefixes_are_accepted() {
    let longest = "ä".repeat(MAX_PREFIX_BYTES / 2);
    for prefix in ["foto", "...", ".verborgen", "mit leer", "a.b", &longest] {
        assert!(validate_prefix(prefix).is_ok(), "{prefix}");
    }
    for code in 0..0x3000u32 {
        let c = char::from_u32(code).unwrap();
        let prefix = format!("a{c}b");
        assert_eq!(
            validate_prefix(&prefix).is_ok(),
            !c.is_control() && c != '/' && c != '\\',
            "{code}"
        );
    }
}

#[test]
fn validates_detection_and_import_resource_limits() {
    assert!(validate_image_dimensions(10_200, 14_040).is_ok());
    assert!(validate_image_dimensions(20_000, 20_000).is_err());

    for maximum in [MIN_DETECTION_SIZE - 1, MAX_DETECTION_SIZE + 1] {
        let config = SplitConfig {
            max_detection_size: maximum,
            ..SplitConfig::default()
        };
        assert!(config.validate().is_err());
    }
    assert!(SplitConfig::default().validate().is_ok());
}

#[test]
fn image_dimensions_have_limits() {
    assert!(validate_image_dimensions(20, 20).is_ok());
    assert!(validate_image_dimensions(19, 20).is_err());
    assert!(validate_image_dimensions(20, 19).is_err());
    assert!(validate_image_dimensions(30_000, 6_000).is_ok());
    assert!(validate_image_dimensions(30_000, 6_001).is_err());
    assert!(validate_image_dimensions(30_001, 20).is_err());
    match validate_image_dimensions(u32::MAX, u32::MAX) {
        Err(SplitError::InvalidConfig(message)) => assert_eq!(
            message,
            "Das Bild ist mit 4294967295×4294967295 Pixeln zu groß. Erlaubt sind höchstens 180000000 Pixel und 30000 Pixel je Kante."
        ),
        other => panic!("{other:?}"),
    }
}

#[test]
fn rejects_oversized_png_before_decoding_it() {
    let (width, height) = image_dimensions(&png_header(20_000, 20_000)).unwrap();
    let error = validate_image_dimensions(width, height).unwrap_err();
    assert!(matches!(error, SplitError::InvalidConfig(message) if message.contains("zu groß")));
}

#[test]
fn reads_dimensions_of_all_supported_input_formats() {
    for bytes in [
        jpeg_start(),
        png_header(80, 60),
        tiff_start(true),
        tiff_start(false),
    ] {
        assert_eq!(image_dimensions(&bytes).unwrap(), (80, 60));
    }
}

#[test]
fn headers_that_cannot_be_read() {
    assert!(matches!(
        image_dimensions(b"short"),
        Err(SplitError::InvalidConfig(message)) if message.starts_with("Bildkopf")
    ));
    assert!(matches!(
        image_dimensions(&[7; 64]),
        Err(SplitError::InvalidConfig(message)) if message.contains("PNG, JPEG und TIFF")
    ));
    let mut cut = jpeg_start();
    cut.truncate(30);
    assert!(matches!(image_dimensions(&cut), Err(SplitError::Io(_))));
    let mut wrong = png_header(80, 60);
    wrong[12] = b'X';
    assert!(image_dimensions(&wrong).is_err());
    let mut ended = vec![0xff, 0xd8, 0xff, 0xd9];
    ended.extend_from_slice(&[0; 30]);
    assert!(matches!(
        image_dimensions(&ended),
        Err(SplitError::InvalidConfig(_))
    ));
}

#[test]
fn resolutions_are_written_and_read_back() {
    for dpi in [1, 72, 300, 600, 1200, 65535] {
        let jpeg = jpeg_start();
        let patch = write_jpeg_density(&jpeg, dpi).unwrap();
        let mut changed = jpeg.clone();
        changed[patch.offset..patch.offset + 5].copy_from_slice(&patch.bytes);
        assert_eq!(container_dpi(&changed), Some(dpi));
        assert_eq!(image_dimensions(&changed).unwrap(), (80, 60));

        let png = png_header(80, 60);
        let start = write_png_density(&png, dpi).unwrap().unwrap();
        assert_eq!(start.len(), 33 + 21);
        assert_eq!(container_dpi(&start), Some(dpi));
        assert_eq!(image_dimensions(&start).unwrap(), (80, 60));
    }
    // A JPEG file holds no more than sixteen bits.
    let patch = write_jpeg_density(&jpeg_start(), 70_000).unwrap();
    assert_eq!(patch.bytes, [1, 255, 255, 255, 255]);
}

#[test]
fn png_resolution_has_its_checksum() {
    let start = write_png_density(&png_header(80, 60), 600).unwrap().unwrap();
    let chunk = &start[33..];
    assert_eq!(&chunk[..4], &9u32.to_be_bytes());
    assert_eq!(&chunk[4..8], b"pHYs");
    assert_eq!(&chunk[8..12], &23622u32.to_be_bytes());
    assert_eq!(&chunk[12..16], &23622u32.to_be_bytes());
    assert_eq!(chunk[16], 1);
    assert_eq!(&chunk[17..21], &crc32fast::hash(&chunk[4..17]).to_be_bytes());
    assert_eq!(&chunk[17..21], &[0x14, 0x94, 0x43, 0x41]);
}

#[test]
fn files_that_take_no_resolution() {
    assert!(matches!(
        write_container_dpi(b"", OutputFormat::Tiff, 300),
        Ok(DensityChange::Unchanged)
    ));
    assert!(matches!(
        write_container_dpi(&[0; 40], OutputFormat::Jpeg, 300),
        Ok(DensityChange::Unchanged)
    ));
    assert!(matches!(
        write_container_dpi(&[0; 40], OutputFormat::Png, 300),
        Ok(DensityChange::Unchanged)
    ));
    assert!(matches!(
        write_container_dpi(&[0; 10], OutputFormat::Png, 300),
        Err(SplitError::Io(_))
    ));
    assert!(matches!(
        write_container_dpi(&jpeg_start(), OutputFormat::Jpeg, 300),
        Ok(DensityChange::Patch(_))
    ));
    assert!(matches!(
        write_container_dpi(&png_header(8, 8), OutputFormat::Png, 300),
        Ok(DensityChange::Start(_))
    ));
    assert_eq!(container_dpi(&png_header(80, 60)), None);
    assert_eq!(container_dpi(&[0; 100]), None);
    assert_eq!(container_dpi(b""), None);
    // Centimetres are no inches.
    let mut jpeg = jpeg_start();
    jpeg[13] = 2;
    assert_eq!(container_dpi(&jpeg), None);
}

#[test]
fn decoded_images_must_match_their_headers() {
    let image = |empty: bool, cols: i32, rows: i32| DecodedImage { empty, rows, cols };
    assert!(check_decoded(image(false, 80, 60), 80, 60).is_ok());
    for bad in [
        image(true, 80, 60),
        image(false, 60, 80),
        image(false, 81, 60),
        image(false, 0, 0),
    ] {
        assert!(matches!(
            check_decoded(bad, 80, 60),
            Err(SplitError::InvalidConfig(_))
        ));
    }
    assert!(check_decoded(image(false, 19, 60), 19, 60).is_err());
    assert!(check_decoded(image(false, -1, 60), u32::MAX, 60).is_err());
}

#[test]
fn orientations() {
    for (orientation, transform) in [
        (None, Transform::Keep),
        (Some(1), Transform::Keep),
        (Some(2), Transform::FlipHorizontally),
        (Some(3), Transform::Rotate180),
        (Some(4), Transform::FlipVertically),
        (Some(5), Transform::Transpose),
        (Some(6), Transform::RotateClockwise),
        (Some(7), Transform::TransposeAndFlip),
        (Some(8), Transform::RotateCounterclockwise),
        (Some(9), Transform::Keep),
    ] {
        assert_eq!(orientation_transform(orientation), transform);
    }
}

#[test]
fn resolutions_from_metadata_and_container() {
    assert_eq!(image_dpi(Ok(Some(600)), Some(72)).unwrap(), Some(600));
    assert_eq!(image_dpi(Ok(None), Some(72)).unwrap(), Some(72));
    assert_eq!(image_dpi(Ok(None), None).unwrap(), None);
    assert!(matches!(
        image_dpi(Err(MetadataError::ToolMissing), Some(72)),
        Err(SplitError::Metadata(detail)) if detail.contains("exiv2")
    ));
    assert_eq!(export_dpi(Some(300), Some(72)), Some(300));
    assert_eq!(export_dpi(None, Some(72)), Some(72));
    assert_eq!(metadata_dpi(OutputFormat::Tiff, None), Some(72));
    assert_eq!(metadata_dpi(OutputFormat::Tiff, Some(600)), Some(600));
    assert_eq!(metadata_dpi(OutputFormat::Png, None), None);
}

#[test]
fn encoder_settings_of_all_formats() {
    assert_eq!(
        encoder_settings(OutputFormat::Jpeg, 88, Some(300)),
        [
            EncoderSetting::JpegQuality(88),
            EncoderSetting::JpegOptimize(true)
        ]
    );
    assert_eq!(
        encoder_settings(OutputFormat::Png, 88, None),
        [EncoderSetting::PngCompression(4)]
    );
    assert_eq!(
        encoder_settings(OutputFormat::Tiff, 88, Some(600)),
        [
            EncoderSetting::TiffLzw,
            EncoderSetting::TiffInches,
            EncoderSetting::TiffXDpi(600),
            EncoderSetting::TiffYDpi(600)
        ]
    );
    assert_eq!(
        encoder_settings(OutputFormat::Tiff, 88, None),
        [EncoderSetting::TiffLzw]
    );
    for n in [0, 1, i32::MAX as u32, i32::MAX as u32 + 1, u32::MAX] {
        assert_eq!(to_signed(n), n as i32);
    }
}

#[test]
fn files_without_metadata_are_removed() {
    let run = save_image("a.png", OutputFormat::Png, Some(300));
    let run = run.advance(SaveEvent::Encoded(Ok(true)));
    assert!(matches!(run.stage, SaveStage::Density(300)));
    let run = run.advance(SaveEvent::DensityWritten(Ok(())));
    assert!(matches!(run.stage, SaveStage::Metadata));
    let run = run.advance(SaveEvent::MetadataWritten(Err(MetadataError::ToolMissing)));
    assert!(matches!(run.stage, SaveStage::Removing(_)));
    let run = run.advance(SaveEvent::Removed);
    assert!(matches!(
        run.stage,
        SaveStage::Finished(Err(SplitError::Metadata(_)))
    ));

    let run = save_image("a.tif", OutputFormat::Tiff, None).advance(SaveEvent::Encoded(Ok(true)));
    assert!(matches!(run.stage, SaveStage::Density(72)));
    let run = run
        .advance(SaveEvent::DensityWritten(Err(SplitError::Io("x".to_string()))))
        .advance(SaveEvent::Removed);
    assert!(matches!(
        run.stage,
        SaveStage::Finished(Err(SplitError::Io(_)))
    ));

    let run = save_image("a.png", OutputFormat::Png, None).advance(SaveEvent::Encoded(Ok(true)));
    assert!(matches!(run.stage, SaveStage::Metadata));
    let run = run.advance(SaveEvent::MetadataWritten(Ok(())));
    assert!(matches!(run.stage, SaveStage::Finished(Ok(()))));

    let run = save_image("b.png", OutputFormat::Png, None).advance(SaveEvent::Encoded(Ok(false)));
    assert!(matches!(
        run.stage,
        SaveStage::Finished(Err(SplitError::InvalidConfig(message)))
            if message == "Bild konnte nicht gespeichert werden: b.png"
    ));
    let run = save_image("b.png", OutputFormat::Png, None)
        .advance(SaveEvent::Encoded(Err(SplitError::OpenCv("x".to_string()))));
    assert!(matches!(
        run.stage,
        SaveStage::Finished(Err(SplitError::OpenCv(_)))
    ));
}

#[test]
fn names_of_attempts() {
    let file = output("foto_01", "jpg");
    assert_eq!(output_path(&file, 1), "foto_01.jpg");
    assert_eq!(output_path(&file, 2), "foto_01_2.jpg");
    assert_eq!(output_path(&file, 13), "foto_01_13.jpg");
}

#[test]
fn failed_group_commit_rolls_back_already_published_files() {
    let mut directory = Directory::new();
    let outputs = vec![output("erstes", "txt"), output("fehlt/zweites", "txt")];
    assert!(publish(outputs, &["eins", "zwei"], &mut directory).is_err());
    assert!(!directory.contains_key("erstes.txt"));
    assert!(directory.is_empty());
}

#[test]
fn parallel_processes_never_clobber_an_existing_export() {
    const PROCESS_COUNT: usize = 8;
    let mut directory = Directory::new();
    directory.insert("parallel.txt".to_string(), "vorhanden".to_string());
    let ids: Vec<String> = (0..PROCESS_COUNT).map(|id| id.to_string()).collect();
    let mut runs: Vec<Option<PublishRun>> = (0..PROCESS_COUNT)
        .map(|_| Some(publish_staged_group(vec![output("parallel", "txt")])))
        .collect();
    // All publications take turns, one operation each.
    loop {
        let mut active = false;
        for (slot, id) in runs.iter_mut().zip(&ids) {
            let run = slot.take().unwrap();
            let event = perform(&run, &[id.as_str()], &mut directory);
            *slot = Some(match event {
                Some(event) => {
                    active = true;
                    run.advance(event)
                }
                None => run,
            });
        }
        if !active {
            break;
        }
    }
    assert_eq!(directory["parallel.txt"], "vorhanden");
    assert_eq!(directory.len(), PROCESS_COUNT + 1);
    for id in &ids {
        assert!(directory.values().any(|content| content == id));
    }
}

#[test]
fn groups_move_on_together_where_a_name_is_taken() {
    let mut directory = Directory::new();
    directory.insert("b.jpg".to_string(), "alt".to_string());
    let names = publish(
        vec![output("a", "jpg"), output("b", "jpg"), output("c", "jpg")],
        &["1", "2", "3"],
        &mut directory,
    )
    .unwrap();
    assert_eq!(names, ["a_2.jpg", "b_2.jpg", "c_2.jpg"]);
    assert_eq!(directory.len(), 4);
    assert_eq!(directory["b.jpg"], "alt");
}

#[test]
fn publication_errors_in_words() {
    // A name cannot be given, and one that was given cannot be taken away.
    let run = publish_staged_group(vec![output("a", "jpg"), output("b", "jpg")])
        .advance(PublishEvent::Linked(Ok(())))
        .advance(PublishEvent::Linked(Err(failure(FailureKind::Other, "voll"))))
        .advance(PublishEvent::Removed(Err(failure(
            FailureKind::Other,
            "gesperrt",
        ))));
    assert!(matches!(
        run.stage,
        PublishStage::Finished(Err(SplitError::Io(message)))
            if message == "Veröffentlichen schlug fehl (voll); Zurückrollen schlug ebenfalls fehl (gesperrt)"
    ));
    // The directory cannot be written through.
    let run = publish_staged_group(vec![output("a", "jpg"), output("b", "jpg")])
        .advance(PublishEvent::Linked(Ok(())))
        .advance(PublishEvent::Linked(Ok(())))
        .advance(PublishEvent::Synced(Err(failure(FailureKind::Other, "sync"))));
    assert!(matches!(run.action(), PublishAction::Remove(name) if name == "b.jpg"));
    let run = run.advance(PublishEvent::Removed(Err(failure(
        FailureKind::NotFound,
        "weg",
    ))));
    assert!(matches!(run.action(), PublishAction::Remove(name) if name == "a.jpg"));
    let run = run.advance(PublishEvent::Removed(Ok(())));
    assert!(matches!(
        run.stage,
        PublishStage::Finished(Err(SplitError::Io(message))) if message == "sync"
    ));
    // There are no names left.
    let run = PublishRun {
        outputs: vec![output("a", "jpg")],
        attempt: usize::MAX,
        stage: PublishStage::Linking(0),
    };
    let run = run.advance(PublishEvent::Linked(Err(failure(
        FailureKind::AlreadyExists,
        "",
    ))));
    assert!(matches!(
        run.stage,
        PublishStage::Finished(Err(SplitError::InvalidConfig(message)))
            if message == "Es konnte kein freier Dateiname ermittelt werden."
    ));
    // A group of no files.
    let run = publish_staged_group(Vec::new()).advance(PublishEvent::Synced(Ok(())));
    assert!(matches!(run.stage, PublishStage::Finished(Ok(names)) if names.is_empty()));
}

#[test]
fn does_not_overwrite_and_can_save_full_scan() {
    let mut directory = Directory::new();
    let config = SplitConfig {
        capture_date: Some(day(1995, 9, 1)),
        ..SplitConfig::default()
    };
    let export = || export_photos(&config, Some("foto"), 3, None, None).unwrap();
    let first = run_export(export(), &mut directory).unwrap();
    let second = run_export(export(), &mut directory).unwrap();
    let names: std::collections::HashSet<_> = first.iter().chain(&second).collect();
    assert_eq!(names.len(), 6);
    assert!(second
        .iter()
        .all(|name| name.strip_suffix(".jpg").unwrap().ends_with("_2")));

    let full = save_full_scan(&config, Some("vollscan"), None).unwrap();
    assert_eq!(
        run_export(full, &mut directory).unwrap(),
        ["vollscan.jpg"]
    );

    let tiff_config = SplitConfig {
        output_format: OutputFormat::Tiff,
        ..config
    };
    let tiff = save_full_scan(&tiff_config, Some("vollscan-tiff"), None).unwrap();
    assert_eq!(metadata_dpi(tiff.config.output_format, tiff.dpi), Some(72));
    assert_eq!(
        run_export(tiff, &mut directory).unwrap(),
        ["vollscan-tiff.tif"]
    );
}

#[test]
fn subset_export_is_contiguous_and_previews_only_included_regions() {
    let mut directory = Directory::new();
    let config = SplitConfig {
        output_format: OutputFormat::Png,
        capture_date: Some(day(1995, 9, 1)),
        ..SplitConfig::default()
    };
    let run = export_photos(&config, Some("auswahl"), 2, Some(2), None).unwrap();
    let published = run_export(run, &mut directory).unwrap();
    let result = export_result(published, true, double(12.0));
    assert_eq!(result.files.len(), 2);
    assert_eq!(result.files[0], "auswahl_01.png");
    assert_eq!(result.files[1], "auswahl_02.png");
    assert_eq!(result.preview.unwrap(), "auswahl_vorschau.jpg");
    assert_eq!(f64::from_bits(result.threshold_used.bits), 12.0);
}

#[test]
fn exports_are_checked_before_anything_is_written() {
    let config = SplitConfig::default();
    assert!(matches!(
        export_photos(&config, None, 0, None, None),
        Err(SplitError::NothingDetected)
    ));
    assert!(matches!(
        export_photos(&config, None, 2, Some(3), None),
        Err(SplitError::InvalidConfig(message)) if message.contains("Vorschauregion")
    ));
    assert!(matches!(
        export_photos(&config, Some(".."), 0, None, None),
        Err(SplitError::InvalidConfig(message)) if message.contains("Dateipräfix")
    ));
    assert!(matches!(
        check_export(
            &SplitConfig { jpeg_quality: 0, ..config },
            Some(".."),
            1,
            None
        ),
        Err(SplitError::InvalidConfig(message)) if message.contains("JPEG")
    ));
    let run = export_photos(&config, None, 2, None, Some(240)).unwrap();
    assert_eq!(run.dpi, Some(240));
    assert_eq!(
        run.kind,
        ExportKind::Photos {
            count: 2,
            preview: false
        }
    );
}

#[test]
fn nothing_is_published_if_staging_fails() {
    let config = SplitConfig::default();
    let dated = || {
        export_photos(&config, Some("a"), 2, Some(2), None)
            .unwrap()
            .advance(ExportEvent::Prepared(Ok(())))
            .advance(ExportEvent::Dated {
                now: noon(),
                resolved: None,
            })
    };
    let run = dated()
        .advance(ExportEvent::Staged(Ok(())))
        .advance(ExportEvent::Staged(Err(SplitError::Io("voll".to_string()))));
    assert!(matches!(
        run.stage,
        ExportStage::Finished(Err(SplitError::Io(_)))
    ));
    let run = dated()
        .advance(ExportEvent::Staged(Ok(())))
        .advance(ExportEvent::Staged(Ok(())));
    assert!(matches!(run.stage, ExportStage::StagingPreview { .. }));
    let run = run.advance(ExportEvent::Staged(Ok(())));
    assert!(matches!(run.stage, ExportStage::Publishing(_)));
    let run = export_photos(&config, Some("a"), 2, None, None)
        .unwrap()
        .advance(ExportEvent::Prepared(Err(failure(FailureKind::Other, "nein"))));
    assert!(matches!(
        run.stage,
        ExportStage::Finished(Err(SplitError::Io(message))) if message == "nein"
    ));
    let chosen = SplitConfig {
        capture_date: Some(day(1995, 9, 1)),
        ..config
    };
    let run = export_photos(&chosen, Some("a"), 2, None, None)
        .unwrap()
        .advance(ExportEvent::Prepared(Ok(())))
        .advance(ExportEvent::Dated {
            now: noon(),
            resolved: None,
        });
    assert!(matches!(
        run.stage,
        ExportStage::Finished(Err(SplitError::InvalidDate))
    ));
}

#[test]
fn small_cut_outs_are_dropped() {
    assert!(keeps_photo(10, 10));
    assert!(!keeps_photo(9, 100));
    assert!(!keeps_photo(100, 9));
}

#[test]
fn dates_and_moments() {
    assert_eq!(parse_date("01.09.1995").unwrap(), day(1995, 9, 1));
    assert_eq!(
        parse_date("1995-09-01").unwrap_err(),
        "Datum muss als TT.MM.JJJJ angegeben werden, z. B. 01.09.1995"
    );
    assert!(parse_date("30.02.2020").is_err());
    assert_eq!(parse_date("29.02.2020").unwrap(), day(2020, 2, 29));
    assert_eq!(parse_date_entry("  1.9.1995 ").unwrap(), day(1995, 9, 1));
    assert_eq!(parse_date_entry(""), None);
    assert_eq!(stored_date("1995-09-01"), Some(day(1995, 9, 1)));
    assert_eq!(stored_date("01.09.1995"), None);
    assert_eq!(date_entry_text(day(1995, 9, 1)), "01.09.1995");
    assert_eq!(stored_date_text(day(1995, 9, 1)), "1995-09-01");
    for date in [
        day(1, 1, 1),
        day(0, 12, 31),
        day(-44, 3, 15),
        day(9999, 12, 31),
        day(10000, 1, 1),
        day(262142, 12, 31),
        day(-262143, 1, 1),
        day(2024, 2, 29),
    ] {
        assert_eq!(stored_date(&stored_date_text(date)), Some(date));
        assert_eq!(parse_date(&date_entry_text(date)).unwrap(), date);
    }
    assert_eq!(file_stamp(noon()), "19950901_120509");
    assert_eq!(exif_stamp(noon()), "1995:09:01 12:05:09");
    assert_eq!(exif_offset(noon()), "+02:00");
    let west = CaptureTime {
        offset: -12645,
        ..noon()
    };
    assert_eq!(exif_offset(west), "-03:31");
    let early = CaptureTime {
        date: day(-7, 1, 2),
        ..noon()
    };
    assert_eq!(file_stamp(early), "-00070102_120509");
    assert_eq!(output_base(None, noon()), "scan_19950901_120509");
    assert_eq!(output_base(Some("foto"), noon()), "foto");
}

#[test]
fn moments_of_capture() {
    let other = CaptureTime {
        hour: 3,
        ..noon()
    };
    assert_eq!(capture_datetime(None, noon(), Some(other)).unwrap(), noon());
    assert_eq!(
        capture_datetime(Some(day(1995, 9, 1)), noon(), Some(other)).unwrap(),
        other
    );
    assert!(matches!(
        capture_datetime(Some(day(1995, 9, 1)), noon(), None),
        Err(SplitError::InvalidDate)
    ));
    assert_eq!(
        wall_clock(day(2001, 2, 3), noon()),
        (day(2001, 2, 3), 12, 5, 9)
    );
}

#[test]
fn formats_and_their_names() {
    for (name, format) in [
        ("jpg", OutputFormat::Jpeg),
        ("JPEG", OutputFormat::Jpeg),
        ("Png", OutputFormat::Png),
        ("tif", OutputFormat::Tiff),
        ("TIFF", OutputFormat::Tiff),
    ] {
        assert_eq!(OutputFormat::from_str(name).unwrap(), format);
    }
    assert!(matches!(
        OutputFormat::from_str("gif"),
        Err(SplitError::InvalidConfig(message)) if message == "Unterstützte Formate sind JPG, PNG und TIFF."
    ));
    for format in [OutputFormat::Jpeg, OutputFormat::Png, OutputFormat::Tiff] {
        assert_eq!(OutputFormat::from_str(format.extension()).unwrap(), format);
        assert_eq!(OutputFormat::from_str(format.label()).unwrap(), format);
    }
    assert_eq!(OutputFormat::default(), OutputFormat::Jpeg);
}

#[test]
fn split_errors_in_words() {
    assert_eq!(
        SplitError::MissingSource("a.png".to_string()).message(),
        "Die Eingabedatei existiert nicht: a.png"
    );
    assert_eq!(
        SplitError::OpenCv("x".to_string()).message(),
        "Bild konnte nicht verarbeitet werden: x"
    );
    assert_eq!(
        SplitError::Io("x".to_string()).message(),
        "Dateioperation fehlgeschlagen: x"
    );
    assert_eq!(
        SplitError::Metadata("x".to_string()).message(),
        "Bildmetadaten konnten nicht verarbeitet werden: x"
    );
    assert_eq!(SplitError::InvalidConfig("x".to_string()).message(), "x");
    assert!(SplitError::NothingDetected.message().starts_with("Keine einzelnen Fotos erkannt."));
    assert!(SplitError::InvalidDate.message().contains("Zeitzone"));
}

#[test]
fn a_second_export_takes_the_next_names() {
    let config = SplitConfig {
        output_format: OutputFormat::Png,
        ..SplitConfig::default()
    };
    let export = |directory: &mut Directory| {
        let run = export_photos(&config, Some("auswahl"), 2, Some(2), None).unwrap();
        run_export(run, directory).unwrap()
    };
    let mut directory = Directory::new();
    let first = export(&mut directory);
    assert_eq!(
        first,
        ["auswahl_01.png", "auswahl_02.png", "auswahl_vorschau.jpg"]
    );
    let kept = directory.clone();
    let second = export(&mut directory);
    assert_eq!(
        second,
        ["auswahl_01_2.png", "auswahl_02_2.png", "auswahl_vorschau_2.jpg"]
    );
    assert_eq!(directory.len(), 6);
    for (name, content) in &kept {
        assert_eq!(directory[name], *content);
    }
    assert_eq!(
        export(&mut directory),
        ["auswahl_01_3.png", "auswahl_02_3.png", "auswahl_vorschau_3.jpg"]
    );
}

/// The reading of a file that was opened.
fn opened() -> ReadRun {
    read_image("/scan.png")
        .advance(ReadEvent::Looked { is_file: true })
        .advance(ReadEvent::Opened(Ok(())))
}

/// Reads the header of a file with these bytes, of which those in `broken` cannot
/// be read.
fn header_read_around(file: &[u8], broken: std::ops::Range<usize>) -> ReadRun {
    let mut run = opened();
    while let ReadStage::ReadingHeader(header) = &run.stage {
        let (offset, count) = header.wanted();
        let event = if offset < broken.end && broken.start < offset + count {
            Err(failure(FailureKind::Other, "Input/output error"))
        } else if offset + count > file.len() {
            Err(failure(FailureKind::Other, "failed to fill whole buffer"))
        } else {
            Ok(file[offset..offset + count].to_vec())
        };
        run = run.advance(ReadEvent::HeaderRead(event));
    }
    run
}

fn header_read(file: Vec<u8>) -> ReadRun {
    header_read_around(&file, 0..0)
}

fn decoded(width: i32, height: i32) -> ReadEvent {
    ReadEvent::Decoded(Ok(DecodedImage {
        empty: false,
        rows: height,
        cols: width,
    }))
}

#[test]
fn scans_are_checked_before_they_are_decoded() {
    let run = read_image("/scan.png");
    assert!(matches!(run.stage, ReadStage::Looking));
    let run = run.advance(ReadEvent::Looked { is_file: false });
    assert!(matches!(
        run.stage,
        ReadStage::Finished(Err(SplitError::MissingSource(path))) if path == "/scan.png"
    ));
    let run = read_image("/scan.png")
        .advance(ReadEvent::Looked { is_file: true })
        .advance(ReadEvent::Opened(Err(failure(FailureKind::Other, "no"))));
    assert!(matches!(
        run.stage,
        ReadStage::Finished(Err(SplitError::Io(message))) if message == "no"
    ));
    assert!(matches!(
        header_read(png_header(800, 600)).stage,
        ReadStage::Decoding {
            width: 800,
            height: 600
        }
    ));
    for (width, height) in [(100_001, 20), (20_000, 20_000), (0, 600), (u32::MAX, u32::MAX)] {
        assert!(matches!(
            header_read(png_header(width, height)).stage,
            ReadStage::Finished(Err(SplitError::InvalidConfig(_)))
        ));
    }
    assert!(matches!(
        header_read(vec![0; 40]).stage,
        ReadStage::Finished(Err(SplitError::InvalidConfig(message)))
            if message.contains("PNG, JPEG und TIFF")
    ));
    assert!(matches!(
        header_read(vec![0; 3]).stage,
        ReadStage::Finished(Err(SplitError::InvalidConfig(message)))
            if message == "Bildkopf konnte nicht gelesen werden: failed to fill whole buffer"
    ));
}

#[test]
fn headers_are_read_in_pieces() {
    for file in [
        jpeg_start(),
        png_header(80, 60),
        tiff_start(true),
        tiff_start(false),
    ] {
        assert!(matches!(
            header_read(file.clone()).stage,
            ReadStage::Decoding {
                width: 80,
                height: 60
            }
        ));
        // What is behind the header does not matter.
        let mut longer = file.clone();
        longer.extend_from_slice(&[0; 4096]);
        assert!(matches!(
            header_read_around(&longer, file.len()..longer.len()).stage,
            ReadStage::Decoding {
                width: 80,
                height: 60
            }
        ));
        // Without its first bytes, the format is not known.
        assert!(matches!(
            header_read_around(&file, 23..24).stage,
            ReadStage::Finished(Err(SplitError::InvalidConfig(message)))
                if message == "Bildkopf konnte nicht gelesen werden: Input/output error"
        ));
    }
    // Behind them, the failure is told as it is.
    let jpeg = jpeg_start();
    assert!(matches!(
        header_read_around(&jpeg, 30..31).stage,
        ReadStage::Finished(Err(SplitError::Io(message))) if message == "Input/output error"
    ));
    assert!(matches!(
        header_read(jpeg[..30].to_vec()).stage,
        ReadStage::Finished(Err(SplitError::Io(message)))
            if message == "failed to fill whole buffer"
    ));
    // A segment that is passed over is not read.
    let mut passed = vec![0xff, 0xd8, 0xff, 0xe1, 0x01, 0x00];
    passed.extend_from_slice(&[0; 254]);
    passed.extend_from_slice(&jpeg[2..]);
    assert!(matches!(
        header_read_around(&passed, 100..200).stage,
        ReadStage::Decoding {
            width: 80,
            height: 60
        }
    ));
    assert_eq!(image_dimensions(&passed).unwrap(), (80, 60));
}

#[test]
fn scans_are_set_upright() {
    let run = header_read(png_header(800, 600)).advance(decoded(800, 600));
    assert!(matches!(run.stage, ReadStage::ReadingOrientation));
    let run = run.advance(ReadEvent::OrientationRead(Ok(Some(6))));
    assert!(matches!(
        run.stage,
        ReadStage::ReadingResolution(Transform::RotateClockwise)
    ));
    let run = run.advance(ReadEvent::ResolutionRead {
        metadata: Ok(None),
        container: Some(300),
    });
    assert!(matches!(
        run.stage,
        ReadStage::Turning {
            transform: Transform::RotateClockwise,
            dpi: Some(300)
        }
    ));
    let run = run.advance(ReadEvent::Turned(Ok(())));
    assert!(matches!(run.stage, ReadStage::Finished(Ok(Some(300)))));
}

#[test]
fn scans_are_not_read_where_a_step_fails() {
    let run = header_read(png_header(800, 600)).advance(decoded(600, 800));
    assert!(matches!(
        run.stage,
        ReadStage::Finished(Err(SplitError::InvalidConfig(message)))
            if message.contains("widersprüchliche Abmessungen")
    ));
    let run = header_read(png_header(800, 600)).advance(ReadEvent::Decoded(Err(
        SplitError::OpenCv("codec".to_string()),
    )));
    assert!(matches!(
        run.stage,
        ReadStage::Finished(Err(SplitError::OpenCv(message))) if message == "codec"
    ));
    let upright = || header_read(png_header(800, 600)).advance(decoded(800, 600));
    let run = upright().advance(ReadEvent::OrientationRead(Err(MetadataError::ToolMissing)));
    assert!(matches!(
        run.stage,
        ReadStage::Finished(Err(SplitError::Metadata(_)))
    ));
    let run = upright()
        .advance(ReadEvent::OrientationRead(Ok(None)))
        .advance(ReadEvent::ResolutionRead {
            metadata: Err(MetadataError::ToolMissing),
            container: Some(300),
        });
    assert!(matches!(
        run.stage,
        ReadStage::Finished(Err(SplitError::Metadata(_)))
    ));
    let run = upright()
        .advance(ReadEvent::OrientationRead(Ok(Some(1))))
        .advance(ReadEvent::ResolutionRead {
            metadata: Ok(Some(600)),
            container: Some(300),
        })
        .advance(ReadEvent::Turned(Err(SplitError::OpenCv("turn".to_string()))));
    assert!(matches!(
        run.stage,
        ReadStage::Finished(Err(SplitError::OpenCv(message))) if message == "turn"
    ));
}

/// The value that the metadata program is asked to give a tag.
fn set_value(arguments: &[String], tag: &str, kind: &str) -> String {
    let command = format!("set {tag} {kind} ");
    let argument = arguments
        .iter()
        .find(|argument| argument.starts_with(&command))
        .expect("the tag is set");
    argument[command.len()..].to_string()
}

fn printed(value: String) -> ProgramOutput {
    ProgramOutput {
        success: true,
        code: Some(0),
        status: "exit status: 0".to_string(),
        stdout: format!("{value}\n").into_bytes(),
        stderr: Vec::new(),
    }
}

#[test]
fn exports_all_formats_preview_and_photoprism_metadata() {
    let place = Place { x: 0, y: 0 };
    let photo = DetectedPhoto {
        region: DetectedRegion {
            center: place,
            source_box: [place; 4],
            area_percent: double(10.0),
        },
        rows: 200,
        cols: 300,
    };
    for format in [OutputFormat::Jpeg, OutputFormat::Png, OutputFormat::Tiff] {
        let config = SplitConfig {
            output_format: format,
            dpi: Some(600),
            capture_date: Some(day(1995, 9, 1)),
            ..SplitConfig::default()
        };
        let plan = split_scan(&vec![photo; 3], true);
        let run = export_photos(
            &config,
            Some("familie"),
            plan.photos.len(),
            plan.preview_regions,
            None,
        )
        .unwrap();
        let dpi = run.dpi;
        let mut directory = Directory::new();
        let published = run_export(run, &mut directory).unwrap();
        let result = export_result(published, true, double(12.0));
        assert_eq!(result.files.len(), 3);
        assert!(result
            .preview
            .as_ref()
            .is_some_and(|name| directory.contains_key(name)));
        for name in result.files {
            assert!(directory.contains_key(&name));
            assert!(name.starts_with("familie_"));
            assert!(name.ends_with(&format!(".{}", format.extension())));
            let arguments = write_arguments(noon(), dpi);
            let taken = set_value(&arguments, "Exif.Photo.DateTimeOriginal", "Ascii");
            let captured = read_tag(&name, Ok(printed(taken))).unwrap().unwrap();
            assert!(captured.starts_with("1995:09:01"));
            let resolution = set_value(&arguments, RESOLUTION_TAG, "Rational");
            let found = read_tag(&name, Ok(printed(resolution)));
            assert_eq!(metadata::image_dpi(found).unwrap(), Some(600));
            if format != OutputFormat::Tiff {
                let mut file = if format == OutputFormat::Jpeg {
                    jpeg_start()
                } else {
                    png_header(300, 200)
                };
                match write_container_dpi(&file, format, dpi.unwrap()).unwrap() {
                    DensityChange::Patch(patch) => {
                        file[patch.offset..patch.offset + 5].copy_from_slice(&patch.bytes);
                    }
                    DensityChange::Start(start) => {
                        file.splice(..33, start);
                    }
                    DensityChange::Unchanged => panic!("the resolution is written"),
                }
                assert_eq!(container_dpi(&file), Some(600));
            }
        }
    }
}

#[test]
fn previews_have_their_own_quality() {
    assert_eq!(PREVIEW_QUALITY, 88);
    let settings = encoder_settings(OutputFormat::Jpeg, PREVIEW_QUALITY, None);
    assert!(settings
        .iter()
        .any(|setting| matches!(setting, EncoderSetting::JpegQuality(88))));
}
