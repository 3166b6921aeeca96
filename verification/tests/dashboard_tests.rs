use langcodec_cli::dashboard::{
    DashboardEvent, DashboardInit, DashboardItem, DashboardItemStatus, DashboardKind, DashboardState,
    FocusPane, SummaryRow,
};

fn one_item_state() -> DashboardState {
    DashboardState::new(DashboardInit {
        kind: DashboardKind::Translate,
        title: "Translate".to_string(),
        metadata: Vec::new(),
        summary_rows: vec![SummaryRow::new("Skipped", "2")],
        items: vec![DashboardItem::new(
            "fr:welcome",
            "welcome",
            "fr",
            DashboardItemStatus::Queued,
        )],
    })
}

#[test]
fn reducer_updates_item_status_and_counts() {
    let mut state = one_item_state();

    state.apply(DashboardEvent::UpdateItem {
        id: "fr:welcome".to_string(),
        status: Some(DashboardItemStatus::Running),
        subtitle: None,
        source_text: None,
        output_text: None,
        note_text: None,
        error_text: None,
        extra_rows: None,
    });
    assert_eq!(state.counts().running, 1);

    state.apply(DashboardEvent::UpdateItem {
        id: "fr:welcome".to_string(),
        status: Some(DashboardItemStatus::Succeeded),
        subtitle: None,
        source_text: None,
        output_text: Some("Bonjour".to_string()),
        note_text: None,
        error_text: None,
        extra_rows: None,
    });

    let counts = state.counts();
    assert_eq!(counts.succeeded, 1);
    assert_eq!(
        state
            .selected_item()
            .and_then(|item| item.output_text.as_deref()),
        Some("Bonjour")
    );
    assert_eq!(state.summary_value("Skipped"), Some("2"));
}

#[test]
fn counts_cover_every_item() {
    let state = DashboardState::new(DashboardInit {
        kind: DashboardKind::Annotate,
        title: "Annotate".to_string(),
        metadata: Vec::new(),
        summary_rows: Vec::new(),
        items: vec![
            DashboardItem::new("a", "a", "", DashboardItemStatus::Queued),
            DashboardItem::new("b", "b", "", DashboardItemStatus::Failed),
            DashboardItem::new("c", "c", "", DashboardItemStatus::Skipped),
        ],
    });
    let c = state.counts();
    assert_eq!(c.queued + c.running + c.succeeded + c.failed + c.skipped, 3);
    assert_eq!(c.failed, 1);
    assert_eq!(c.skipped, 1);
}

#[test]
fn focus_cycles_through_three_panes() {
    let p = FocusPane::Table;
    assert_eq!(p.next(), FocusPane::Detail);
    assert_eq!(p.next().next(), FocusPane::Log);
    assert_eq!(p.next().next().next(), FocusPane::Table);
}

#[test]
fn selection_stays_on_items() {
    let mut state = DashboardState::new(DashboardInit {
        kind: DashboardKind::Translate,
        title: "T".to_string(),
        metadata: Vec::new(),
        summary_rows: Vec::new(),
        items: vec![
            DashboardItem::new("a", "a", "", DashboardItemStatus::Queued),
            DashboardItem::new("b", "b", "", DashboardItemStatus::Queued),
        ],
    });
    state.select_next();
    state.select_next();
    state.select_next();
    assert_eq!(state.selected_item().map(|i| i.id.as_str()), Some("b"));
    state.jump_top();
    assert_eq!(state.selected_item().map(|i| i.id.as_str()), Some("a"));
    state.select_previous();
    assert_eq!(state.selected_item().map(|i| i.id.as_str()), Some("a"));
    state.jump_bottom();
    assert_eq!(state.selected_item().map(|i| i.id.as_str()), Some("b"));
}

#[test]
fn unknown_item_update_changes_nothing() {
    let mut state = one_item_state();
    state.apply(DashboardEvent::UpdateItem {
        id: "de:welcome".to_string(),
        status: Some(DashboardItemStatus::Failed),
        subtitle: None,
        source_text: None,
        output_text: None,
        note_text: None,
        error_text: None,
        extra_rows: None,
    });
    assert_eq!(state.counts().queued, 1);
    assert_eq!(state.counts().failed, 0);
}

#[test]
fn item_status_labels() {
    assert_eq!(DashboardItemStatus::Queued.label(), "queued");
    assert_eq!(DashboardItemStatus::Running.label(), "running");
}
