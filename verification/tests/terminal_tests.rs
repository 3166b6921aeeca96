use langcodec_cli::terminal::{resolve_ui_mode, ResolvedUiMode};
use langcodec_cli::UiMode;

#[test]
fn auto_uses_plain_without_tty() {
    let resolved = resolve_ui_mode(UiMode::Auto, false, false, Some("xterm-256color")).unwrap();
    assert_eq!(resolved, ResolvedUiMode::Plain);
}

#[test]
fn auto_uses_plain_for_dumb_term() {
    let resolved = resolve_ui_mode(UiMode::Auto, true, true, Some("dumb")).unwrap();
    assert_eq!(resolved, ResolvedUiMode::Plain);
}

#[test]
fn forced_tui_errors_without_terminal() {
    let err = resolve_ui_mode(UiMode::Tui, false, true, Some("xterm-256color")).unwrap_err();
    assert!(err.contains("interactive terminal"));
}

#[test]
fn auto_uses_tui_on_an_interactive_terminal() {
    let resolved = resolve_ui_mode(UiMode::Auto, true, true, Some("xterm-256color")).unwrap();
    assert_eq!(resolved, ResolvedUiMode::Tui);
}

#[test]
fn plain_is_always_plain() {
    let resolved = resolve_ui_mode(UiMode::Plain, true, true, Some("xterm-256color")).unwrap();
    assert_eq!(resolved, ResolvedUiMode::Plain);
}
