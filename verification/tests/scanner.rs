use photoscanner::failure::{Failure, FailureKind};
use photoscanner::progress::{parse_progress, ProgressReader};
use photoscanner::scanner::{
    begin_device_query, begin_scan, drain_capped, failure_detail, list_devices,
    list_devices_cancellable, must_terminate, parse_devices, pause, query_result, scan_to_file,
    scan_to_file_cancellable, scanimage_available, spawn_error, Captured, DeviceQuery, Poll, Probe,
    QueryAction, QueryEvent, QueryStage, ScanAction, ScanEvent, ScanRun, ScanStage,
    ScannerCancellation, ScannerDevice, ScannerError, WaitResult, Watch, WatchEvent,
    DEVICE_DISCOVERY_TIMEOUT, POLL_INTERVAL, STDERR_LIMIT, STDOUT_LIMIT,
};

fn failure(kind: FailureKind, message: &str) -> Failure {
    Failure {
        kind,
        message: message.to_string(),
    }
}

fn running(elapsed: u128) -> WatchEvent {
    WatchEvent::Polled(Ok(Poll {
        exited: None,
        cancelled: false,
        elapsed,
    }))
}

fn exited(success: bool) -> WatchEvent {
    WatchEvent::Polled(Ok(Poll {
        exited: Some(success),
        cancelled: false,
        elapsed: 1,
    }))
}

/// Leads a scan up to the running process.
fn started_scan(destination: &str, timeout: u128) -> ScanRun {
    scan_to_file(destination, Some("out"), None, 300, timeout)
        .unwrap()
        .advance(ScanEvent::Prepared(Ok(())))
        .advance(ScanEvent::Created(Ok(())))
        .advance(ScanEvent::Opened(Ok(())))
        .advance(ScanEvent::Started(Ok(())))
}

fn result_of(run: ScanRun) -> Result<String, ScannerError> {
    match run.stage {
        ScanStage::Finished(result) => result,
        other => panic!("not finished: {other:?}"),
    }
}

#[test]
fn parses_devices_and_filters_webcams() {
    let devices = parse_devices(
        "airscan:e0:Scanner\tEpson\tET-4850\tflatbed\n\
         v4l:/dev/video0\tGeneric\tWebcam\tvideo\n",
    );
    assert_eq!(devices.len(), 1);
    assert_eq!(devices[0].name, "airscan:e0:Scanner");
    assert_eq!(devices[0].label(), "Epson ET-4850 (airscan:e0:Scanner)");
    assert_eq!(devices[0].display_name(), "Epson ET-4850");
}

#[test]
fn omits_protocol_vendor_from_display_name() {
    let device = ScannerDevice {
        name: "airscan:e0:Brother MFC-L2960DW".to_string(),
        vendor: "eSCL".to_string(),
        model: "Brother MFC-L2960DW".to_string(),
        kind: "ip=192.0.2.1".to_string(),
    };

    assert_eq!(device.display_name(), "Brother MFC-L2960DW");
    assert_eq!(
        device.label(),
        "eSCL Brother MFC-L2960DW (airscan:e0:Brother MFC-L2960DW)"
    );
}

#[test]
fn device_names_without_maker_or_model() {
    let device = |vendor: &str, model: &str| ScannerDevice {
        name: "net:host".to_string(),
        vendor: vendor.to_string(),
        model: model.to_string(),
        kind: String::new(),
    };
    assert_eq!(device("", "").display_name(), "net:host");
    assert_eq!(device("", "").label(), "net:host (net:host)");
    assert_eq!(device("  ", " X1 ").display_name(), "X1");
    assert_eq!(device("Acme", "").display_name(), "net:host");
    assert_eq!(device("Acme", "").label(), "Acme (net:host)");
    assert_eq!(device("AirScan", "X1").display_name(), "X1");
    assert_eq!(device("WSD", "X1").display_name(), "X1");
}

#[test]
fn device_lists_with_blank_and_short_lines() {
    let devices = parse_devices("\n  \t \r\nfirst\r\n second \t maker\n");
    assert_eq!(devices.len(), 2);
    assert_eq!(devices[0].name, "first");
    assert_eq!(devices[0].vendor, "");
    assert_eq!(devices[1].name, "second");
    assert_eq!(devices[1].vendor, "maker");
    assert_eq!(devices[1].kind, "");
    assert!(parse_devices("").is_empty());
}

#[test]
fn drains_large_device_stdout_and_stderr_without_deadlock() {
    let mut stdout = Vec::new();
    let mut stderr = Vec::new();
    for i in 0..12000 {
        let line = format!("test:device-{i}\tVendor\tModel\tflatbed\n");
        drain_capped(&mut stdout, line.as_bytes(), STDOUT_LIMIT);
        let line = format!("Sehr lange SANE-Diagnosezeile: {i}{}\n", ".".repeat(40));
        drain_capped(&mut stderr, line.as_bytes(), STDERR_LIMIT);
    }
    assert_eq!(stderr.len(), STDERR_LIMIT);
    let query = list_devices(5_000_000_000)
        .advance(QueryEvent::Started(Ok(())))
        .advance(QueryEvent::Watched(exited(true)))
        .advance(QueryEvent::Collected(Ok(Captured { stdout, stderr })));
    match query.stage {
        QueryStage::Finished(Ok(devices)) => {
            assert!(!devices.is_empty());
            assert_eq!(devices[0].name, "test:device-0");
            assert_eq!(devices.len(), 12000);
        }
        other => panic!("{other:?}"),
    }
}

#[test]
fn output_is_kept_up_to_the_limit() {
    let mut kept = Vec::new();
    drain_capped(&mut kept, b"abc", 5);
    drain_capped(&mut kept, b"", 5);
    drain_capped(&mut kept, b"defg", 5);
    drain_capped(&mut kept, b"h", 5);
    assert_eq!(kept, b"abcde");
}

#[test]
fn device_query_timeout_and_cancellation_reap_processes() {
    let timeout = 80_000_000;
    let query = list_devices(timeout)
        .advance(QueryEvent::Started(Ok(())))
        .advance(QueryEvent::Watched(running(10)));
    assert!(matches!(query.action(), QueryAction::Pause));
    let query = query
        .advance(QueryEvent::Watched(WatchEvent::Paused))
        .advance(QueryEvent::Watched(running(timeout)));
    assert!(matches!(query.action(), QueryAction::Terminate));
    let query = query.advance(QueryEvent::Watched(WatchEvent::Terminated(Ok(()))));
    assert!(matches!(query.action(), QueryAction::Collect));
    let query = query.advance(QueryEvent::Collected(Ok(Captured {
        stdout: Vec::new(),
        stderr: Vec::new(),
    })));
    assert!(matches!(
        query.stage,
        QueryStage::Finished(Err(ScannerError::DeviceTimeout))
    ));

    let cancellation = ScannerCancellation::new();
    let query = list_devices_cancellable(5_000_000_000, &cancellation)
        .unwrap()
        .advance(QueryEvent::Started(Ok(())));
    let trigger = cancellation.clone();
    trigger.cancel();
    assert!(cancellation.is_cancelled());
    let query = query.advance(QueryEvent::Watched(WatchEvent::Polled(Ok(Poll {
        exited: None,
        cancelled: cancellation.is_cancelled(),
        elapsed: 1,
    }))));
    assert!(matches!(query.action(), QueryAction::Terminate));
    let query = query
        .advance(QueryEvent::Watched(WatchEvent::Terminated(Ok(()))))
        .advance(QueryEvent::Collected(Ok(Captured {
            stdout: Vec::new(),
            stderr: Vec::new(),
        })));
    assert!(matches!(
        query.stage,
        QueryStage::Finished(Err(ScannerError::Cancelled))
    ));
}

#[test]
fn a_given_signal_prevents_every_start() {
    let cancellation = ScannerCancellation::default();
    assert!(!cancellation.is_cancelled());
    cancellation.cancel();
    assert!(matches!(
        list_devices_cancellable(1, &cancellation),
        Err(ScannerError::Cancelled)
    ));
    assert!(matches!(
        scan_to_file_cancellable("a.png", None, None, 300, 1, &cancellation),
        Err(ScannerError::Cancelled)
    ));
    assert!(matches!(
        begin_device_query(true, 1),
        Err(ScannerError::Cancelled)
    ));
    assert!(begin_device_query(false, 1).is_ok());
    // The signal comes before the check of the resolution.
    assert!(matches!(
        begin_scan(true, "a.png", None, None, 1, 1),
        Err(ScannerError::Cancelled)
    ));
}

#[test]
fn resolutions_out_of_range_are_refused() {
    for dpi in [0, 74, 2401, u32::MAX] {
        assert!(matches!(
            scan_to_file("a.png", None, None, dpi, 1),
            Err(ScannerError::InvalidDpi)
        ));
    }
    for dpi in [75, 300, 2400] {
        assert!(scan_to_file("a.png", None, None, dpi, 1).is_ok());
    }
}

#[test]
fn a_scan_asks_for_its_operations_in_order() {
    let run = scan_to_file("out/scan.png", Some("out"), Some("net:x"), 600, 9).unwrap();
    assert!(matches!(run.action(), ScanAction::Prepare(directory) if directory == "out"));
    let run = run.advance(ScanEvent::Prepared(Ok(())));
    assert!(matches!(run.action(), ScanAction::Create(directory) if directory == "out"));
    let run = run.advance(ScanEvent::Created(Ok(())));
    assert!(matches!(run.action(), ScanAction::Open));
    let run = run.advance(ScanEvent::Opened(Ok(())));
    match run.action() {
        ScanAction::Start(arguments) => assert_eq!(
            arguments,
            [
                "--device-name",
                "net:x",
                "--mode",
                "Color",
                "--resolution",
                "600",
                "--format",
                "png",
                "--progress"
            ]
        ),
        other => panic!("{other:?}"),
    }
    let run = run.advance(ScanEvent::Started(Ok(())));
    assert!(matches!(run.action(), ScanAction::Poll));
    let run = run.advance(ScanEvent::Watched(exited(true)));
    assert!(matches!(run.action(), ScanAction::Collect));
    let run = run.advance(ScanEvent::Collected(Ok(Vec::new())));
    assert!(matches!(run.action(), ScanAction::Measure));
    let run = run.advance(ScanEvent::Measured(Ok(13)));
    assert!(matches!(run.action(), ScanAction::Sync));
    let run = run.advance(ScanEvent::Synced(Ok(())));
    assert!(matches!(run.action(), ScanAction::Publish(path) if path == "out/scan.png"));
    let run = run.advance(ScanEvent::Published(Ok(())));
    assert!(matches!(run.action(), ScanAction::Finish));
    assert_eq!(result_of(run).unwrap(), "out/scan.png");
}

#[test]
fn a_destination_without_directory_is_in_the_current_one() {
    for parent in [None, Some("")] {
        let run = scan_to_file("scan.png", parent, None, 300, 1).unwrap();
        assert!(matches!(run.action(), ScanAction::Prepare(directory) if directory == "."));
    }
}

#[test]
fn a_search_asks_for_tab_separated_fields() {
    match list_devices(DEVICE_DISCOVERY_TIMEOUT).action() {
        QueryAction::Start(arguments) => {
            assert_eq!(arguments, ["-f", "%d\t%v\t%m\t%t%n"]);
        }
        other => panic!("{other:?}"),
    }
}

#[test]
fn drains_large_scan_stderr_without_deadlock() {
    let mut reader = ProgressReader::new(STDERR_LIMIT);
    for i in 0..12000 {
        let line = format!("Sehr lange Scan-Diagnosezeile: {i}{}\n", ".".repeat(40));
        assert!(reader.feed(line.as_bytes()).is_empty());
    }
    let stderr = reader.finish();
    assert_eq!(stderr.len(), STDERR_LIMIT);
    let run = started_scan("scan.png", 5_000_000_000)
        .advance(ScanEvent::Watched(exited(true)))
        .advance(ScanEvent::Collected(Ok(stderr)))
        .advance(ScanEvent::Measured(Ok(13)))
        .advance(ScanEvent::Synced(Ok(())))
        .advance(ScanEvent::Published(Ok(())));
    assert_eq!(result_of(run).unwrap(), "scan.png");
}

#[test]
fn times_out_reaps_process_and_removes_partial_file() {
    let run = started_scan("scan.png", 80_000_000).advance(ScanEvent::Watched(running(90_000_000)));
    assert!(matches!(run.action(), ScanAction::Terminate));
    let run = run
        .advance(ScanEvent::Watched(WatchEvent::Terminated(Ok(()))))
        .advance(ScanEvent::Collected(Ok(Vec::new())));
    assert!(matches!(run.action(), ScanAction::Discard));
    let run = run.advance(ScanEvent::Discarded);
    assert!(matches!(result_of(run), Err(ScannerError::ScanTimeout)));
}

#[test]
fn cancellation_reaps_process_and_removes_partial_file() {
    let run = started_scan("scan.png", 5_000_000_000).advance(ScanEvent::Watched(
        WatchEvent::Polled(Ok(Poll {
            exited: None,
            cancelled: true,
            elapsed: 80_000_000,
        })),
    ));
    assert!(matches!(run.action(), ScanAction::Terminate));
    let run = run
        .advance(ScanEvent::Watched(WatchEvent::Terminated(Ok(()))))
        .advance(ScanEvent::Collected(Ok(Vec::new())));
    assert!(matches!(run.action(), ScanAction::Discard));
    let run = run.advance(ScanEvent::Discarded);
    assert!(matches!(result_of(run), Err(ScannerError::Cancelled)));
}

#[test]
fn scan_failures_and_start_errors_remove_partial_file() {
    let run = started_scan("failed.png", 2_000_000_000)
        .advance(ScanEvent::Watched(exited(false)))
        .advance(ScanEvent::Collected(Ok(b"absichtlicher Fehler\n".to_vec())));
    assert!(matches!(run.action(), ScanAction::Discard));
    let run = run.advance(ScanEvent::Discarded);
    assert!(
        matches!(result_of(run), Err(ScannerError::ScanFailed(detail)) if detail == "absichtlicher Fehler")
    );

    let run = scan_to_file("missing.png", None, None, 300, 2_000_000_000)
        .unwrap()
        .advance(ScanEvent::Prepared(Ok(())))
        .advance(ScanEvent::Created(Ok(())))
        .advance(ScanEvent::Opened(Ok(())))
        .advance(ScanEvent::Started(Err(failure(
            FailureKind::NotFound,
            "No such file or directory",
        ))));
    assert!(matches!(run.action(), ScanAction::Discard));
    let run = run.advance(ScanEvent::Discarded);
    assert!(matches!(
        result_of(run),
        Err(ScannerError::ScanimageMissing)
    ));
}

#[test]
fn existing_destination_is_never_overwritten() {
    let run = started_scan("scan.png", 2_000_000_000)
        .advance(ScanEvent::Watched(exited(true)))
        .advance(ScanEvent::Collected(Ok(Vec::new())))
        .advance(ScanEvent::Measured(Ok(16)))
        .advance(ScanEvent::Synced(Ok(())))
        .advance(ScanEvent::Published(Err(failure(
            FailureKind::AlreadyExists,
            "File exists",
        ))));
    assert!(matches!(run.action(), ScanAction::Discard));
    let run = run.advance(ScanEvent::Discarded);
    assert!(
        matches!(result_of(run), Err(ScannerError::DestinationExists(path)) if path == "scan.png")
    );
}

#[test]
fn empty_scans_and_failed_operations_are_reported() {
    let run = started_scan("scan.png", 1_000)
        .advance(ScanEvent::Watched(exited(true)))
        .advance(ScanEvent::Collected(Ok(Vec::new())))
        .advance(ScanEvent::Measured(Ok(0)))
        .advance(ScanEvent::Discarded);
    assert!(matches!(result_of(run), Err(ScannerError::EmptyScan)));

    let run = scan_to_file("scan.png", None, None, 300, 1)
        .unwrap()
        .advance(ScanEvent::Prepared(Err(failure(FailureKind::Other, "voll"))));
    assert!(matches!(result_of(run), Err(ScannerError::Process(detail)) if detail == "voll"));

    let run = started_scan("scan.png", 1_000)
        .advance(ScanEvent::Watched(exited(false)))
        .advance(ScanEvent::Collected(Ok(b" \n".to_vec())))
        .advance(ScanEvent::Discarded);
    assert!(
        matches!(result_of(run), Err(ScannerError::ScanFailed(detail)) if detail == "unbekannter Fehler")
    );

    // A wait that fails still ends the process.
    let run = started_scan("scan.png", 1_000).advance(ScanEvent::Watched(WatchEvent::Polled(Err(
        failure(FailureKind::Other, "wait"),
    ))));
    assert!(matches!(run.action(), ScanAction::Terminate));
    let run = run
        .advance(ScanEvent::Watched(WatchEvent::Terminated(Err(failure(
            FailureKind::Other,
            "kill",
        )))))
        .advance(ScanEvent::Collected(Ok(Vec::new())))
        .advance(ScanEvent::Discarded);
    assert!(matches!(result_of(run), Err(ScannerError::Process(detail)) if detail == "wait"));
}

#[test]
fn parallel_scans_use_unique_temporary_files_and_commit_without_clobbering() {
    let ready = || {
        started_scan("scan.png", 5_000_000_000)
            .advance(ScanEvent::Watched(exited(true)))
            .advance(ScanEvent::Collected(Ok(Vec::new())))
            .advance(ScanEvent::Measured(Ok(5)))
            .advance(ScanEvent::Synced(Ok(())))
    };
    let first = ready().advance(ScanEvent::Published(Ok(())));
    let second = ready()
        .advance(ScanEvent::Published(Err(failure(
            FailureKind::AlreadyExists,
            "File exists",
        ))))
        .advance(ScanEvent::Discarded);
    assert_eq!(result_of(first).unwrap(), "scan.png");
    assert!(
        matches!(result_of(second), Err(ScannerError::DestinationExists(path)) if path == "scan.png")
    );
}

#[test]
fn availability_checks_actual_executability() {
    assert!(scanimage_available(Probe::Exited));
    assert!(scanimage_available(Probe::StillRunning));
    assert!(!scanimage_available(Probe::NotStarted));
    assert!(!scanimage_available(Probe::WaitFailed));
    assert!(must_terminate(Probe::StillRunning));
    assert!(must_terminate(Probe::WaitFailed));
    assert!(!must_terminate(Probe::Exited));
    assert!(!must_terminate(Probe::NotStarted));
}

#[test]
fn an_ended_process_counts_as_ended_whatever_else_holds() {
    let watch = Watch::Polling.advance(
        WatchEvent::Polled(Ok(Poll {
            exited: Some(true),
            cancelled: true,
            elapsed: 1_000,
        })),
        1,
    );
    assert!(matches!(watch, Watch::Ended(WaitResult::Exited(true))));
    let watch = Watch::Polling.advance(
        WatchEvent::Polled(Ok(Poll {
            exited: None,
            cancelled: true,
            elapsed: 1_000,
        })),
        1,
    );
    assert!(matches!(watch, Watch::Stopping { cancelled: true }));
}

#[test]
fn pauses_end_at_the_time_limit() {
    assert_eq!(pause(1_000_000_000, 0), POLL_INTERVAL);
    assert_eq!(pause(1_000_000_000, 990_000_000), 10_000_000);
    assert_eq!(pause(1_000_000_000, 1_000_000_001), 0);
    assert_eq!(pause(u128::MAX, 0), 20_000_000);
}

#[test]
fn searches_report_their_errors() {
    let captured = |stderr: &[u8]| Captured {
        stdout: Vec::new(),
        stderr: stderr.to_vec(),
    };
    assert!(
        matches!(query_result(WaitResult::Exited(false), captured(b" nix \n")),
            Err(ScannerError::DeviceQuery(detail)) if detail == "nix")
    );
    assert!(
        matches!(query_result(WaitResult::Exited(false), captured(b"")),
            Err(ScannerError::DeviceQuery(detail)) if detail == "unbekannter SANE-Fehler")
    );
    assert!(matches!(
        query_result(WaitResult::TimedOut, captured(b"")),
        Err(ScannerError::DeviceTimeout)
    ));
    assert!(
        matches!(query_result(WaitResult::Failed(failure(FailureKind::Other, "x")), captured(b"")),
            Err(ScannerError::Process(detail)) if detail == "x")
    );
    let query: DeviceQuery = list_devices(1).advance(QueryEvent::Started(Err(failure(
        FailureKind::NotFound,
        "",
    ))));
    assert!(matches!(
        query.stage,
        QueryStage::Finished(Err(ScannerError::ScanimageMissing))
    ));
    let query = list_devices(1)
        .advance(QueryEvent::Started(Ok(())))
        .advance(QueryEvent::Watched(exited(true)))
        .advance(QueryEvent::Collected(Err(failure(
            FailureKind::Other,
            "Pipe-Lesethread abgebrochen",
        ))));
    assert!(matches!(
        query.stage,
        QueryStage::Finished(Err(ScannerError::Process(_)))
    ));
}

#[test]
fn malformed_output_is_decoded_with_replacements() {
    assert_eq!(failure_detail(b"a\xffb\n", "-"), "a\u{fffd}b");
    assert_eq!(failure_detail(b"\xe2\x82", "-"), "\u{fffd}");
    assert_eq!(failure_detail(b"", "-"), "-");
}

#[test]
fn errors_in_words() {
    assert_eq!(
        spawn_error(failure(FailureKind::Other, "kaputt")).message(),
        "Scannerprozess konnte nicht gestartet werden: kaputt"
    );
    assert!(spawn_error(failure(FailureKind::NotFound, ""))
        .message()
        .starts_with("SANE ist nicht installiert"));
    assert_eq!(
        ScannerError::InvalidDpi.message(),
        "Die Auflösung muss zwischen 75 und 2400 dpi liegen."
    );
    assert_eq!(
        ScannerError::DestinationExists("a.png".to_string()).message(),
        "Die Zieldatei existiert bereits: a.png"
    );
    assert_eq!(
        ScannerError::DeviceQuery("x".to_string()).message(),
        "Scanner konnten nicht abgefragt werden: x"
    );
    assert_eq!(
        ScannerError::ScanFailed("x".to_string()).message(),
        "Der Scan ist fehlgeschlagen: x"
    );
    for error in [
        ScannerError::DeviceTimeout,
        ScannerError::ScanTimeout,
        ScannerError::Cancelled,
        ScannerError::EmptyScan,
    ] {
        assert!(error.message().ends_with('.'));
    }
}

#[test]
fn progress_is_told_apart_from_errors() {
    let mut reader = ProgressReader::new(64);
    let mut told = Vec::new();
    for piece in [
        &b"Progress: 0.0%\rProg"[..],
        b"ress: 31.4%\r",
        b"scanimage: some trouble\n\n",
        b"Progress: 250%\rProgress: -3%\r",
        b"Progress: x%\n",
    ] {
        for percent in reader.feed(piece) {
            told.push(f64::from_bits(percent.bits));
        }
    }
    assert_eq!(told, [0.0, 31.4, 100.0, 0.0]);
    assert_eq!(
        reader.finish(),
        b"scanimage: some trouble\nProgress: x%\n".to_vec()
    );
}

#[test]
fn progress_lines_in_any_pieces() {
    let stream = b"Progress: 1%\rerror one\nProgress: 2.5%\r\nrest";
    let mut whole = ProgressReader::new(1000);
    let all = whole.feed(stream);
    let mut single = ProgressReader::new(1000);
    let mut each = Vec::new();
    for byte in stream {
        each.extend(single.feed(&[*byte]));
    }
    assert_eq!(all, each);
    assert_eq!(whole.finish(), single.finish());
}

#[test]
fn progress_percentages() {
    let told = |line: &str| {
        parse_progress(&line.as_bytes().to_vec()).map(|percent| f64::from_bits(percent.bits))
    };
    assert_eq!(told("Progress: 12.5%"), Some(12.5));
    assert_eq!(told("Progress:  7%"), Some(7.0));
    assert_eq!(told("Progress: 1e1%"), Some(10.0));
    assert_eq!(told("Progress: %"), None);
    assert_eq!(told("Progress: 5"), None);
    assert_eq!(told("progress: 5%"), None);
    assert_eq!(told("Progress: nan%"), None);
}

#[test]
fn long_lines_are_bounded() {
    let mut reader = ProgressReader::new(8);
    reader.feed(&[b'x'; 100]);
    assert_eq!(reader.pending.len(), 8);
    reader.feed(b"\nyy\n");
    assert_eq!(reader.finish(), b"xxxxxxxx".to_vec());
}
