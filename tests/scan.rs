use chameleon::args::Args;
use chameleon::decider::Observation;
use chameleon::output::{human_size, render_line, status_color, status_field, StatusColor};
use chameleon::scan::{
    calibration_baseline, calibration_paths, line_count, request_path, word_count, OutputSink,
    Scan, Scheduler,
};

fn obs(status: u16, length: usize, url: &str, location: &str) -> Observation {
    Observation {
        status,
        length,
        words: 3,
        lines: 1,
        url: url.to_string(),
        location: location.to_string(),
    }
}

#[test]
fn counts_of_a_body() {
    assert_eq!(word_count(""), 0);
    assert_eq!(word_count("  hello   world\n\tagain "), 3);
    assert_eq!(word_count("a\u{3000}b\u{a0}c"), 3);
    assert_eq!(line_count(""), 0);
    assert_eq!(line_count("a\nb\n"), 2);
    assert_eq!(line_count("a\n\nb"), 3);
}

#[test]
fn observation_length_source() {
    let o = Observation::from_response(200, Some(7), 99, "one two", "u".into(), String::new());
    assert_eq!((o.length, o.words, o.lines), (7, 2, 1));
    let o = Observation::from_response(200, None, 99, "", "u".into(), String::new());
    assert_eq!((o.length, o.words, o.lines), (99, 0, 0));
}

#[test]
fn scheduler_bounds_in_flight() {
    assert!(Scheduler::new(5, 0).is_none());
    let mut s = Scheduler::new(5, 2).unwrap();
    assert_eq!(s.dispatch(), Some(0));
    assert_eq!(s.dispatch(), Some(1));
    assert_eq!(s.dispatch(), None);
    assert_eq!(s.in_flight(), 2);
    s.complete();
    assert_eq!(s.dispatch(), Some(2));
    assert_eq!(s.dispatch(), None);
    let mut max = s.in_flight();
    while !s.is_done() {
        while let Some(_) = s.dispatch() {
            max = max.max(s.in_flight());
        }
        s.complete();
    }
    assert!(max <= 2);
    assert_eq!(s.progress(), 5);
    assert_eq!(s.in_flight(), 0);
}

#[test]
fn three_entries_end_to_end() {
    let corpus = vec!["found".to_string(), "missing".to_string(), "slow".to_string()];
    let args = Args::default();
    let mut scan = Scan {
        scheduler: Scheduler::new(corpus.len(), args.concurrency).unwrap(),
        sink: OutputSink::new(false, false),
        baseline: vec![],
    };
    let mut dispatched = vec![];
    while let Some(i) = scan.scheduler.dispatch() {
        dispatched.push(i);
    }
    assert_eq!(dispatched, vec![0, 1, 2]);
    let mut kept = vec![];
    // completions arrive out of order
    for i in [2usize, 0, 1] {
        let outcome = match corpus[i].as_str() {
            "found" => Some(obs(200, 42, "http://t/found", "")),
            "missing" => Some(obs(404, 10, "http://t/missing", "")),
            _ => None,
        };
        if let Some(e) = scan.on_outcome(&args, outcome) {
            kept.push(format!("{}{}", e.status_field, e.rest));
        }
    }
    assert_eq!(kept, vec!["200  -      42B - http://t/found".to_string()]);
    assert_eq!(scan.scheduler.progress(), 3);
    assert!(scan.scheduler.is_done());
}

#[test]
fn sink_text_file_and_json() {
    let mut text = OutputSink::new(true, false);
    let e = text.emit(obs(301, 5, "http://t/a", "/b"));
    assert_eq!(e.file_line, Some("301  -       5B - http://t/a -> /b".to_string()));
    assert!(text.results.is_empty());
    assert!(text.finish("h".into()).is_none());

    let mut json = OutputSink::new(true, true);
    let e = json.emit(obs(200, 5, "http://t/a", ""));
    assert_eq!(e.file_line, None);
    assert_eq!(json.results.len(), 1);
    assert_eq!(json.results[0].status_code, 200);
    let report = json.finish("http://t".into()).unwrap();
    assert_eq!(report.host, "http://t");
    assert_eq!(report.results[0].url, "http://t/a");

    let mut console = OutputSink::new(false, true);
    assert_eq!(console.emit(obs(200, 5, "u", "")).file_line, None);
    assert!(console.results.is_empty());
}

#[test]
fn calibration_probes() {
    assert_eq!(calibration_paths(), vec![".htacessxxx", "adminxxx", "chameleonxxx"]);
    let b = calibration_baseline(vec![Some(obs(404, 512, "u", "")), None, Some(obs(404, 9, "v", ""))]);
    assert_eq!(b.len(), 2);
    assert_eq!((b[0].length, b[0].words, b[0].lines), (512, 3, 1));
    assert_eq!(b[1].length, 9);
}

#[test]
fn line_layout() {
    assert_eq!(status_field(200), "200 ");
    assert_eq!(status_field(5), "5   ");
    assert_eq!(status_field(65535), "65535");
    assert_eq!(render_line("404 ", 1234567, "http://x/y", ""), "404  - 1234567B - http://x/y");
    assert_eq!(render_line("302 ", 12345678, "u", "/l"), "302  - 12345678B - u -> /l");
    assert_eq!(request_path("/base/", "admin"), "/base/admin");
}

#[test]
fn colours_by_leading_digit() {
    assert_eq!(status_color(200), StatusColor::Green);
    assert_eq!(status_color(302), StatusColor::Blue);
    assert_eq!(status_color(404), StatusColor::Yellow);
    assert_eq!(status_color(503), StatusColor::Red);
    assert_eq!(status_color(100), StatusColor::White);
    assert_eq!(status_color(2), StatusColor::Green);
}

#[test]
fn human_sizes() {
    assert_eq!(human_size(0), "0B ");
    assert_eq!(human_size(1023), "1023B ");
    assert_eq!(human_size(1024), "1KB");
    assert_eq!(human_size(5 * 1024 * 1024 + 7), "5MB");
    assert_eq!(human_size(-2048), "-2KB");
    assert_eq!(human_size(-1023), "-1023B ");
    assert_eq!(human_size(1i64 << 50), "1024TB");
    assert_eq!(human_size(i64::MIN), "-8388608TB");
    assert_eq!(human_size(i64::MAX), "8388607TB");
}
