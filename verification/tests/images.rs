use chrono::Datelike;
use photoscanner::binary64::Binary64;
use photoscanner::capture::{unix_time, CaptureDate, CaptureTime};
use photoscanner::detection::{
    accepts_edge,
    automatic_threshold, background, border_samples, border_width, chosen_threshold, clear_border,
    close_size, detection_size, foreground_mask, mask, noise, open_size, percentile_index, ranked,
    single_root, strip_width, Pixel, PERCENTILE_50, PERCENTILE_95,
};
use photoscanner::failure::{Failure, FailureKind};
use photoscanner::metadata::{
    image_dpi, image_orientation, read_arguments, read_tag, run_error, write_arguments,
    write_metadata, MetadataError, ProgramOutput, WriteEvent, WriteRun, WriteStage,
    RESOLUTION_TAG,
};
use photoscanner::regions::{
    accepts_area, analyze_scan, area_percent, detect_photos, order_box, reading_order, split_scan,
    DetectedPhoto, DetectedRegion, Place,
};
use photoscanner::splitter::{SplitError, MAX_PREVIEW_SIZE};
use photoscanner::text::{
    characters, lines, parse_unsigned, replace, split, text_of, to_decimal, to_padded, trim,
};

fn double(value: f64) -> Binary64 {
    Binary64 {
        bits: value.to_bits(),
    }
}

fn next(state: &mut u64) -> u64 {
    *state ^= *state << 13;
    *state ^= *state >> 7;
    *state ^= *state << 17;
    *state
}

fn output(success: bool, code: Option<i32>, stdout: &[u8], stderr: &[u8]) -> ProgramOutput {
    ProgramOutput {
        success,
        code,
        status: format!("exit status: {}", code.unwrap_or(-1)),
        stdout: stdout.to_vec(),
        stderr: stderr.to_vec(),
    }
}

fn percentile(values: &mut [f32], percent: f32) -> f32 {
    values.sort_by(|left, right| left.partial_cmp(right).unwrap());
    let index = (((values.len().saturating_sub(1)) as f32) * percent)
        .round()
        .clamp(0.0, values.len().saturating_sub(1) as f32) as usize;
    values[index]
}

/// Marks an image in machine arithmetic.
fn expected_mask(
    pixels: &[Pixel],
    rows: i32,
    cols: i32,
    chosen: Option<f64>,
) -> (Vec<u8>, f64) {
    let strip = ((rows.min(cols) as f32 * 0.015).round() as i32).max(2);
    let mut samples = Vec::new();
    for y in 0..rows {
        for x in 0..cols {
            if y < strip || y >= rows - strip || x < strip || x >= cols - strip {
                samples.push(pixels[(y * cols + x) as usize]);
            }
        }
    }
    let middle = samples.len() / 2;
    let median = |pick: &dyn Fn(&Pixel) -> u8| {
        let mut channel: Vec<u8> = samples.iter().map(pick).collect();
        channel.sort_unstable();
        channel[middle] as f32
    };
    let colour = [median(&|p| p.l), median(&|p| p.a), median(&|p| p.b)];
    let distance = |p: &Pixel| {
        let dl = p.l as f32 - colour[0];
        let da = p.a as f32 - colour[1];
        let db = p.b as f32 - colour[2];
        (dl * dl + da * da + db * db).sqrt()
    };
    let mut distances: Vec<f32> = samples.iter().map(distance).collect();
    let threshold = chosen.unwrap_or_else(|| {
        let noise = percentile(&mut distances, 0.95) as f64;
        (noise * 2.5).max(12.0).clamp(12.0, 48.0)
    });
    let marked = pixels
        .iter()
        .map(|p| {
            if distance(p) >= threshold as f32 {
                255
            } else {
                0
            }
        })
        .collect();
    (marked, threshold)
}

#[test]
fn square_roots_in_single_precision() {
    for n in (0..=195075u32).step_by(7).chain([1, 2, 3, 4, 195075]) {
        let root = (n as f32).sqrt();
        assert_eq!(single_root(n) as f64, root as f64 * 16777216.0, "{n}");
    }
}

#[test]
fn thresholds_follow_the_machine() {
    for noise in 0..500u32 {
        let variation = (noise as f32).sqrt() as f64;
        let threshold = (variation * 2.5).max(12.0).clamp(12.0, 48.0);
        let chosen = automatic_threshold(noise);
        assert_eq!(f64::from_bits(chosen.value.bits), threshold);
        assert_eq!(chosen.units as f64, threshold as f32 as f64 * 16777216.0);
    }
    let mut state = 77;
    for _ in 0..200 {
        let value = 1.0 + 254.0 * ((next(&mut state) >> 11) as f64 / 9007199254740992.0);
        let chosen = chosen_threshold(double(value));
        assert_eq!(chosen.units as f64, value as f32 as f64 * 16777216.0);
        assert_eq!(chosen.value, double(value));
    }
    for value in [1.0, 255.0, 12.0, 254.99999999999997] {
        assert_eq!(
            chosen_threshold(double(value)).units as f64,
            value as f32 as f64 * 16777216.0
        );
    }
}

#[test]
fn masks_follow_the_machine() {
    let mut state = 0xdead_beef;
    for (rows, cols, spread) in [(40u32, 30u32, 3u64), (25, 90, 12), (3, 3, 200), (120, 110, 30)] {
        let mut pixels = Vec::new();
        for y in 0..rows {
            for x in 0..cols {
                let inside = y > rows / 4 && y < rows / 2 && x > cols / 4 && x < cols / 2;
                let base = if inside { 90 } else { 200 };
                let mut value = || (base + next(&mut state) % spread).min(255) as u8;
                pixels.push(Pixel {
                    l: value(),
                    a: value(),
                    b: value(),
                });
            }
        }
        for chosen in [None, Some(10.0), Some(33.3), Some(255.0)] {
            let (marked, value) = foreground_mask(&pixels, rows, cols, chosen.map(double));
            let (expected, threshold) =
                expected_mask(&pixels, rows as i32, cols as i32, chosen);
            assert_eq!(marked, expected);
            assert_eq!(f64::from_bits(value.bits), threshold);
        }
    }
}

#[test]
fn margins_and_brushes_follow_the_machine() {
    for side in (1..=30000u32).step_by(13) {
        let odd = |ratio: f32| {
            let value = ((side as f32 * ratio).round() as i32).max(3);
            if value % 2 == 0 {
                value + 1
            } else {
                value
            }
        };
        let rows = side + 5;
        assert_eq!(
            strip_width(rows, side) as i32,
            ((side as f32 * 0.015).round() as i32).max(2)
        );
        assert_eq!(
            border_width(side, rows) as i32,
            ((side as f32 * 0.01).round() as i32).max(3)
        );
        assert_eq!(close_size(side, rows) as i32, odd(0.004));
        assert_eq!(open_size(rows, side) as i32, odd(0.0025));
    }
}

#[test]
fn percentiles_follow_the_machine() {
    for count in (1..=100usize).chain([1000, 123_457, 2_207_532, 9_999_999, 1 << 24]) {
        for (share, percent) in [(PERCENTILE_95, 0.95f32), (PERCENTILE_50, 0.5)] {
            let index = (((count - 1) as f32) * percent)
                .round()
                .clamp(0.0, (count - 1) as f32) as usize;
            assert_eq!(percentile_index(count, share), index, "{count}");
        }
    }
}

#[test]
fn ranks_are_those_of_sorted_values() {
    let values = vec![5, 3, 9, 3, 0, 7, 7];
    let mut sorted = values.clone();
    sorted.sort_unstable();
    for (rank, value) in sorted.iter().enumerate() {
        assert_eq!(ranked(&values, rank, 9), *value);
    }
}

#[test]
fn beds_and_borders() {
    let bed = Pixel {
        l: 250,
        a: 128,
        b: 127,
    };
    let dark = Pixel { l: 0, a: 0, b: 0 };
    let mut pixels = vec![bed; 36];
    pixels[14] = dark;
    let samples = border_samples(&pixels, 6, 6, 2);
    assert_eq!(samples.len(), 32);
    assert_eq!(background(&samples), bed);
    assert_eq!(noise(&samples, bed), 0);
    let marked = mask(&pixels, bed, automatic_threshold(0).units);
    assert_eq!(marked.iter().filter(|value| **value == 255).count(), 1);
    assert_eq!(marked[14], 255);
    assert_eq!(clear_border(&marked, 6, 6, 2), marked);
    assert_eq!(clear_border(&marked, 6, 6, 3), vec![0; 36]);
}

#[test]
fn preview_is_bounded_instead_of_cloning_the_full_scan() {
    let (cols, rows) = detection_size(3000, 2400, MAX_PREVIEW_SIZE as u32).unwrap();
    assert_eq!(cols, MAX_PREVIEW_SIZE as u32);
    assert_eq!(rows, 1600);
}

#[test]
fn detection_sizes_follow_the_machine() {
    let mut state = 99;
    for _ in 0..500 {
        let width = (next(&mut state) % 30000 + 1) as u32;
        let height = (next(&mut state) % 30000 + 1) as u32;
        let maximum = (next(&mut state) % 3841 + 256) as u32;
        let largest = width.max(height);
        let scale = (maximum as f32 / largest as f32).min(1.0);
        let expected = if (scale - 1.0).abs() < f32::EPSILON {
            None
        } else {
            Some((
                ((width as f32 * scale).round() as i32).max(1) as u32,
                ((height as f32 * scale).round() as i32).max(1) as u32,
            ))
        };
        assert_eq!(detection_size(width, height, maximum), expected);
    }
}

#[test]
fn areas_follow_the_machine() {
    let mut state = 5;
    for _ in 0..300 {
        let pixels = (next(&mut state) % 16_000_000 + 1) as u32;
        let area = (next(&mut state) % 32_000_000) as f64 / 2.0;
        let percent = 0.1 + (next(&mut state) % 499) as f64 / 10.0;
        let scan_area = f64::from(pixels);
        let minimum = scan_area * percent / 100.0;
        let accepted = !(area < minimum || area > scan_area * 0.97);
        assert_eq!(
            accepts_area(double(area), pixels, double(percent)),
            accepted
        );
        assert_eq!(
            f64::from_bits(area_percent(double(area), pixels).bits),
            area / scan_area * 100.0
        );
    }
    let whole = f64::from(1000u32);
    assert!(!accepts_area(double(whole), 1000, double(2.0)));
    assert!(accepts_area(double(20.0), 1000, double(2.0)));
    assert!(!accepts_area(double(19.5), 1000, double(2.0)));
    assert!(!accepts_area(double(5.0), 1000, double(1e308)));
}

#[test]
fn corners_are_ordered_from_the_upper_left() {
    // (10, 10), (90, 12), (88, 70), (8, 68) in another order.
    let points = [(88i64, 70i64), (10, 10), (8, 68), (90, 12)];
    let order = order_box(
        &points.map(|(x, y)| x + y),
        &points.map(|(x, y)| y - x),
    );
    assert_eq!(
        order.map(|index| points[index]),
        [(10, 10), (90, 12), (88, 70), (8, 68)]
    );
    // Of equal corners, the first is the smallest and the last the largest.
    assert_eq!(order_box(&[4, 4, 4, 4], &[1, 1, 1, 1]), [0, 0, 3, 3]);
}

#[test]
fn photos_are_read_row_by_row() {
    let keys = vec![(1, 50), (0, 90), (1, 10), (0, 20), (1, 50), (-1, 0)];
    assert_eq!(reading_order(&keys), [5, 3, 1, 2, 0, 4]);
    assert!(reading_order(&Vec::new()).is_empty());
}

fn region() -> DetectedRegion {
    let place = Place { x: 0, y: 0 };
    DetectedRegion {
        center: place,
        source_box: [place; 4],
        area_percent: double(10.0),
    }
}

#[test]
fn small_photos_are_left_out() {
    let photo = |rows: i32, cols: i32| DetectedPhoto {
        region: region(),
        rows,
        cols,
    };
    let photos = vec![photo(20, 30), photo(9, 30), photo(30, 9), photo(10, 10)];
    assert_eq!(detect_photos(&photos), [photo(20, 30), photo(10, 10)]);
    let plan = split_scan(&photos, true);
    assert_eq!(plan.photos.len(), 2);
    assert_eq!(plan.preview_regions, Some(2));
    assert_eq!(split_scan(&photos, false).preview_regions, None);
    assert!(matches!(
        analyze_scan(Vec::new(), double(12.0), None),
        Err(SplitError::NothingDetected)
    ));
    let scan = analyze_scan(vec![region()], double(12.0), Some(300)).unwrap();
    assert_eq!(scan.regions.len(), 1);
    assert_eq!(scan.embedded_dpi, Some(300));
}

#[test]
fn tags_are_read() {
    assert_eq!(
        read_arguments(RESOLUTION_TAG),
        ["-K", "Exif.Image.XResolution", "-Pv"]
    );
    let tag = |output: ProgramOutput| read_tag("/a.png", Ok(output));
    assert_eq!(
        tag(output(true, Some(0), b" 600/1 \n", b"")).unwrap(),
        Some("600/1".to_string())
    );
    assert_eq!(tag(output(true, Some(0), b"\n", b"")).unwrap(), None);
    assert_eq!(tag(output(false, Some(1), b"", b"")).unwrap(), None);
    assert!(matches!(
        tag(output(false, Some(1), b"", b" kaputt\n")),
        Err(MetadataError::Read { path, detail }) if path == "/a.png" && detail == "kaputt"
    ));
    assert!(matches!(
        tag(output(false, Some(2), b"", b"")),
        Err(MetadataError::Read { detail, .. }) if detail == "exiv2 wurde mit Status exit status: 2 beendet"
    ));
    assert!(tag(output(false, None, b"", b"")).is_err());
    assert!(tag(output(false, Some(1), b"x", b"")).is_err());
    let failed = |kind: FailureKind| {
        read_tag(
            "/a.png",
            Err(Failure {
                kind,
                message: "x".to_string(),
            }),
        )
    };
    assert!(matches!(
        failed(FailureKind::NotFound),
        Err(MetadataError::ToolMissing)
    ));
    assert!(matches!(
        failed(FailureKind::Other),
        Err(MetadataError::Process(detail)) if detail == "x"
    ));
}

#[test]
fn orientations_and_resolutions_of_tags() {
    let orientation = |value: &str| image_orientation(Ok(Some(value.to_string()))).unwrap();
    for n in 0..=10u16 {
        let expected = (1..=8).contains(&n).then_some(n);
        assert_eq!(orientation(&n.to_string()), expected);
    }
    assert_eq!(orientation("+6"), Some(6));
    assert_eq!(orientation("006"), Some(6));
    for value in ["", "-1", "6.0", "65542", "six", " 6"] {
        assert_eq!(orientation(value), None);
    }
    assert_eq!(image_orientation(Ok(None)).unwrap(), None);
    assert!(image_orientation(Err(MetadataError::ToolMissing)).is_err());
    assert_eq!(
        image_dpi(Ok(Some("600/1".to_string()))).unwrap(),
        Some(600)
    );
    assert_eq!(image_dpi(Ok(Some("x".to_string()))).unwrap(), None);
    assert_eq!(image_dpi(Ok(None)).unwrap(), None);
    assert!(image_dpi(Err(MetadataError::ToolMissing)).is_err());
}

#[test]
fn metadata_changes() {
    let time = CaptureTime {
        date: CaptureDate {
            year: 1995,
            month: 9,
            day: 1,
        },
        hour: 7,
        minute: 8,
        second: 9,
        nanosecond: 5,
        offset: -3600,
    };
    assert_eq!(
        write_arguments(time, Some(600)),
        [
            "-q",
            "-k",
            "-M",
            "set Exif.Image.DateTime Ascii 1995:09:01 07:08:09",
            "-M",
            "set Exif.Photo.DateTimeOriginal Ascii 1995:09:01 07:08:09",
            "-M",
            "set Exif.Photo.DateTimeDigitized Ascii 1995:09:01 07:08:09",
            "-M",
            "set Exif.Image.Software Ascii Photo Scanner",
            "-M",
            "set Exif.Photo.OffsetTime Ascii -01:00",
            "-M",
            "set Exif.Photo.OffsetTimeOriginal Ascii -01:00",
            "-M",
            "set Exif.Photo.OffsetTimeDigitized Ascii -01:00",
            "-M",
            "set Exif.Image.XResolution Rational 600/1",
            "-M",
            "set Exif.Image.YResolution Rational 600/1",
            "-M",
            "set Exif.Image.ResolutionUnit Short 2"
        ]
    );
    assert_eq!(write_arguments(time, None).len(), 16);
}

fn failed(kind: FailureKind, message: &str) -> Failure {
    Failure {
        kind,
        message: message.to_string(),
    }
}

fn moment(date: (i32, u32, u32), clock: (u32, u32, u32), offset: i32) -> CaptureTime {
    CaptureTime {
        date: CaptureDate {
            year: date.0,
            month: date.1,
            day: date.2,
        },
        hour: clock.0,
        minute: clock.1,
        second: clock.2,
        nanosecond: 5,
        offset,
    }
}

/// The writing that found its file and runs the program.
fn running() -> WriteRun {
    write_metadata(moment((1995, 9, 1), (7, 8, 9), -3600), Some(600))
        .advance(WriteEvent::Resolved(Ok("/a".to_string())))
}

#[test]
fn written_files_get_the_moment_of_capture() {
    let time = moment((1995, 9, 1), (7, 8, 9), -3600);
    let run = running();
    assert!(matches!(
        &run.stage,
        WriteStage::Running { path, arguments }
            if path == "/a" && *arguments == write_arguments(time, Some(600))
    ));
    let run = run.advance(WriteEvent::Ran(Ok(output(true, Some(0), b"", b""))));
    assert!(matches!(
        run.stage,
        WriteStage::Timing {
            seconds: 809_942_889,
            nanoseconds: 5
        }
    ));
    let run = run.advance(WriteEvent::Timed(Ok(())));
    assert!(matches!(run.stage, WriteStage::Finished(Ok(()))));
}

#[test]
fn metadata_is_not_written_for_four_reasons() {
    let run = write_metadata(moment((1995, 9, 1), (7, 8, 9), 0), None).advance(
        WriteEvent::Resolved(Err(failed(FailureKind::NotFound, "gone"))),
    );
    assert!(matches!(
        run.stage,
        WriteStage::Finished(Err(MetadataError::Path(message))) if message == "gone"
    ));
    let run = running().advance(WriteEvent::Ran(Err(failed(FailureKind::NotFound, ""))));
    assert!(matches!(
        run.stage,
        WriteStage::Finished(Err(MetadataError::ToolMissing))
    ));
    let run = running().advance(WriteEvent::Ran(Ok(output(false, Some(1), b"", b"x"))));
    assert!(matches!(
        run.stage,
        WriteStage::Finished(Err(MetadataError::Write { path, detail }))
            if path == "/a" && detail == "x"
    ));
    let run = running()
        .advance(WriteEvent::Ran(Ok(output(true, Some(0), b"", b""))))
        .advance(WriteEvent::Timed(Err(failed(FailureKind::Other, "time"))));
    assert!(matches!(
        run.stage,
        WriteStage::Finished(Err(MetadataError::FileTime(message))) if message == "time"
    ));
}

#[test]
fn moments_are_counted_from_the_start_of_1970() {
    assert_eq!(unix_time(moment((1970, 1, 1), (0, 0, 0), 0)), (0, 5));
    assert_eq!(unix_time(moment((1970, 1, 1), (1, 0, 0), 3600)), (0, 5));
    assert_eq!(unix_time(moment((1969, 12, 31), (23, 59, 59), 0)), (-1, 5));
    assert_eq!(
        unix_time(moment((2000, 2, 29), (12, 0, 0), 0)),
        (951_825_600, 5)
    );
    assert_eq!(
        unix_time(moment((1900, 3, 1), (0, 0, 0), 0)),
        (-2_203_891_200, 5)
    );
    assert_eq!(
        unix_time(moment((1, 1, 1), (0, 0, 0), 0)),
        (-62_135_596_800, 5)
    );
}

#[test]
fn moments_are_counted_like_the_calendar() {
    let mut state = 88172645463325252;
    for _ in 0..2000 {
        let year = (next(&mut state) % 8000) as i32 - 3000;
        let ordinal = (next(&mut state) % 365) as u32 + 1;
        let second = (next(&mut state) % 86_400) as u32;
        let offset = (next(&mut state) % 86_400) as i32 - 43_200;
        let local = chrono::NaiveDate::from_yo_opt(year, ordinal)
            .unwrap()
            .and_hms_opt(second / 3600, second / 60 % 60, second % 60)
            .unwrap();
        let date = local.date();
        let time = moment(
            (date.year(), date.month(), date.day()),
            (second / 3600, second / 60 % 60, second % 60),
            offset,
        );
        assert_eq!(
            unix_time(time),
            (local.and_utc().timestamp() - i64::from(offset), 5)
        );
    }
}

#[test]
fn metadata_errors_in_words() {
    let error = run_error(Failure {
        kind: FailureKind::AlreadyExists,
        message: "x".to_string(),
    });
    assert_eq!(
        error.message(),
        "Metadatenprozess konnte nicht ausgeführt werden: x"
    );
    assert_eq!(
        MetadataError::Read {
            path: "/a".to_string(),
            detail: "b".to_string()
        }
        .message(),
        "Metadaten von '/a' konnten nicht gelesen werden: b"
    );
    assert_eq!(
        MetadataError::Write {
            path: "/a".to_string(),
            detail: "b".to_string()
        }
        .message(),
        "Metadaten von '/a' konnten nicht geschrieben werden: b"
    );
    assert_eq!(
        MetadataError::Path("b".to_string()).message(),
        "Dateipfad für Metadaten konnte nicht aufgelöst werden: b"
    );
    assert_eq!(
        MetadataError::FileTime("b".to_string()).message(),
        "Änderungsdatum konnte nicht gesetzt werden: b"
    );
    assert!(MetadataError::ToolMissing.message().starts_with("Das Programm 'exiv2'"));
}

#[test]
fn text_operations_are_those_of_the_standard_library() {
    for code in 0..=0x10ffffu32 {
        if let Some(c) = char::from_u32(code) {
            let trimmed = trim(&[c, 'x', c]);
            assert_eq!(trimmed.len() == 1, c.is_whitespace(), "{code}");
        }
    }
    for value in ["", "a", "a\n", "a\r\nb", "\n\n", "a\rb\n", "\r\n", "x\r"] {
        let ours: Vec<String> = lines(&characters(value)).iter().map(|l| text_of(l)).collect();
        let theirs: Vec<&str> = value.lines().collect();
        assert_eq!(ours, theirs, "{value:?}");
    }
    for value in ["", "\t", "a\tb", "\ta\t\t"] {
        let ours: Vec<String> = split(&characters(value), '\t')
            .iter()
            .map(|part| text_of(part))
            .collect();
        let theirs: Vec<&str> = value.split('\t').collect();
        assert_eq!(ours, theirs);
    }
    for (value, from, to) in [
        ("aaa", "aa", "b"),
        ("abcabc", "bc", ""),
        ("x", "xy", "z"),
        ("", "a", "b"),
        ("{a}{a}", "{a}", "{a}{a}"),
    ] {
        let ours = replace(&characters(value), &characters(from), &characters(to));
        assert_eq!(text_of(&ours), value.replace(from, to));
    }
    for n in [0, 7, 10, 99, 100, 12345, u64::MAX] {
        assert_eq!(text_of(&to_decimal(n)), n.to_string());
        assert_eq!(text_of(&to_padded(n, 3)), format!("{n:03}"));
    }
    for value in ["", "+", "0", "+7", "65535", "65536", "-1", "1a", "00012"] {
        assert_eq!(
            parse_unsigned(&characters(value), 65535),
            value.parse::<u16>().ok().map(u32::from)
        );
    }
}

#[test]
fn shortest_edges_follow_the_machine() {
    let units = |length: f32| (f64::from(length) * 268435456.0) as u64;
    for side in (1..=4096u32).step_by(3) {
        let least = (side as f32 * 0.04).max(12.0);
        assert!(accepts_edge(units(least), side, side + 9));
        let below = f32::from_bits(least.to_bits() - 1);
        assert!(!accepts_edge(units(below), side + 9, side));
    }
    assert!(!accepts_edge(0, 100, 100));
}
