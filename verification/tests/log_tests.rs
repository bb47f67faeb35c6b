use vmb::log::{
    flag_look, is_log_event, should_refresh_log, split_inclusive_lines, EventPath, LogAction, LogEventKind,
    FlagColor, LogFlagStyle, LogRules, LogWatch,
};

fn rules() -> LogRules {
    LogRules::new().expect("the flag patterns compile")
}

#[test]
fn classify_flags() {
    let r = rules();
    let (s, f, rest) = r.classify("[INFO] hello").unwrap();
    assert_eq!((s, f.as_str(), rest.as_str()), (LogFlagStyle::Info, "[INFO]", " hello"));
    let (s, f, rest) = r.classify("ERROR: boom").unwrap();
    assert_eq!((s, f.as_str(), rest.as_str()), (LogFlagStyle::Error, "ERROR:", " boom"));
    let (s, f, _) = r.classify("[12:00] warning: x").unwrap();
    assert_eq!((s, f.as_str()), (LogFlagStyle::Warning, "[12:00] warning:"));
    let (s, f, rest) = r.classify("   at: foo.gd:12").unwrap();
    assert_eq!((s, f.as_str(), rest.as_str()), (LogFlagStyle::Stack, "   at: foo.gd:12", ""));
    let (s, _, _) = r.classify("[x][DEBUG] y").unwrap();
    assert_eq!(s, LogFlagStyle::Trace);
    assert!(r.classify("x [info]").is_none());
    assert!(r.classify("plain line").is_none());
}

#[test]
fn classified_line_is_flag_then_rest() {
    let r = rules();
    for line in ["[INFO] a", "SCRIPT ERROR: b\n", "    at: c"] {
        let (_, f, rest) = r.classify(line).unwrap();
        assert_eq!(format!("{f}{rest}"), line);
    }
}

#[test]
fn split_keeps_line_feeds() {
    assert_eq!(split_inclusive_lines("a\nb"), vec!["a\n", "b"]);
    assert_eq!(split_inclusive_lines("a\n"), vec!["a\n"]);
    assert!(split_inclusive_lines("").is_empty());
    assert_eq!(split_inclusive_lines("\n\n"), vec!["\n", "\n"]);
}

#[test]
fn log_events() {
    let by_name = vec![EventPath { is_log_file: false, file_name: Some("GODOT.LOG".to_string()) }];
    let other = vec![EventPath { is_log_file: false, file_name: Some("other.txt".to_string()) }];
    let same = vec![EventPath { is_log_file: true, file_name: None }];
    assert!(is_log_event(&by_name));
    assert!(!is_log_event(&other));
    assert!(is_log_event(&same));
    assert!(!is_log_event(&Vec::new()));
    assert!(should_refresh_log(LogEventKind::Modify, &same));
    assert!(should_refresh_log(LogEventKind::Other, &by_name));
    assert!(!should_refresh_log(LogEventKind::Access, &same));
    assert!(!should_refresh_log(LogEventKind::Create, &other));
}

#[test]
fn watch_follows_the_log() {
    let mut w = LogWatch::new(10);
    assert_eq!(w.on_refresh(Some(10)), LogAction::Nothing);
    assert_eq!(w.on_refresh(Some(15)), LogAction::Print { from: 10 });
    w.on_printed(5);
    assert_eq!(w.read_offset(), 15);
    assert_eq!(w.on_refresh(Some(4)), LogAction::Print { from: 0 });
    w.on_printed(4);
    assert_eq!(w.on_refresh(None), LogAction::ReportMissing);
    assert_eq!(w.read_offset(), 0);
    assert_eq!(w.on_refresh(None), LogAction::Nothing);
    assert_eq!(w.on_refresh(Some(0)), LogAction::Print { from: 0 });
    assert_eq!(w.on_refresh(Some(0)), LogAction::Nothing);
}

#[test]
fn watching_a_growing_log_shows_each_byte_once() {
    let mut w = LogWatch::new(10);
    let mut shown: Vec<(u64, u64)> = Vec::new();
    for len in [15u64, 15, 20, 26] {
        if let LogAction::Print { from } = w.on_refresh(Some(len)) {
            shown.push((from, len));
            w.on_printed(len - from);
        }
    }
    assert_eq!(shown, vec![(10, 15), (15, 20), (20, 26)]);
    assert_eq!(w.read_offset(), 26);
}

#[test]
fn watching_restarts_after_truncation_or_removal() {
    let mut w = LogWatch::new(10);
    assert_eq!(w.on_refresh(Some(3)), LogAction::Print { from: 0 });
    w.on_printed(3);
    assert_eq!(w.on_refresh(None), LogAction::ReportMissing);
    assert_eq!(w.on_refresh(None), LogAction::Nothing);
    assert_eq!(w.on_refresh(Some(4)), LogAction::Print { from: 0 });
}

#[test]
fn flag_looks_by_style() {
    assert_eq!(flag_look(LogFlagStyle::Error), (FlagColor::Red, true));
    assert_eq!(flag_look(LogFlagStyle::Warning), (FlagColor::Yellow, true));
    assert_eq!(flag_look(LogFlagStyle::Info), (FlagColor::Cyan, false));
    assert_eq!(flag_look(LogFlagStyle::Trace), (FlagColor::BrightBlack, false));
    assert_eq!(flag_look(LogFlagStyle::Stack), (FlagColor::BrightBlack, false));
}
