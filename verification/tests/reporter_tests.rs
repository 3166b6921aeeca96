use langcodec_cli::dashboard::{
    DashboardEvent, DashboardInit, DashboardItem, DashboardItemStatus, DashboardKind, DashboardLogTone,
};
use langcodec_cli::reporter::{PlainReporter, RunReporter};

fn init(kind: DashboardKind) -> DashboardInit {
    DashboardInit {
        kind,
        title: "Run".to_string(),
        metadata: Vec::new(),
        summary_rows: Vec::new(),
        items: vec![DashboardItem::new("fr:a", "a", "fr", DashboardItemStatus::Queued)],
    }
}

#[test]
fn annotate_logs_are_written_as_lines() {
    let mut r = PlainReporter::new(init(DashboardKind::Annotate), false, false);
    r.emit(DashboardEvent::Log { tone: DashboardLogTone::Info, message: "Starting".to_string() });
    let out = r.take_output();
    assert!(out.contains("Starting\n"));
}

#[test]
fn translate_errors_are_marked() {
    let mut r = PlainReporter::new(init(DashboardKind::Translate), false, false);
    r.emit(DashboardEvent::Log { tone: DashboardLogTone::Error, message: "boom".to_string() });
    let out = r.take_output();
    assert!(out.contains("❌ boom"));
    assert!(r.finish().is_ok());
}
