//! Choosing between the plain line-by-line output and the full-screen
//! dashboard.
use crate::text::owned;
use vstd::prelude::*;

verus! {

/// What the user asked for.
#[derive(Debug, Clone, Copy, PartialEq, Eq, Structural)]
pub enum UiMode {
    Auto,
    Plain,
    Tui,
}

/// What will be shown.
#[derive(Debug, Clone, Copy, PartialEq, Eq, Structural)]
pub enum ResolvedUiMode {
    Plain,
    Tui,
}

/// Whether the terminal type is the dumb terminal.
pub open spec fn is_dumb(term: Option<&str>) -> bool {
    term matches Some(t) && t@ == "dumb"@
}

/// The interface to show: plain when asked; for `Auto`, the dashboard only
/// when both standard input and output are terminals and the terminal is not
/// dumb; for `Tui`, the dashboard, or an error naming why it cannot be shown.
pub open spec fn ui_mode_choice(
    requested: UiMode,
    stdin_is_tty: bool,
    stdout_is_tty: bool,
    term: Option<&str>,
) -> Result<ResolvedUiMode, Seq<char>> {
    match requested {
        UiMode::Plain => Ok(ResolvedUiMode::Plain),
        UiMode::Auto => if stdin_is_tty && stdout_is_tty && !is_dumb(term) {
            Ok(ResolvedUiMode::Tui)
        } else {
            Ok(ResolvedUiMode::Plain)
        },
        UiMode::Tui => if !stdin_is_tty || !stdout_is_tty {
            Err("TUI mode requires an interactive terminal on stdin and stdout"@)
        } else if is_dumb(term) {
            Err("TUI mode is unavailable when TERM=dumb"@)
        } else {
            Ok(ResolvedUiMode::Tui)
        },
    }
}

/// Decides the interface from the request and what the terminal is (see
/// `ui_mode_choice`).
pub fn resolve_ui_mode(
    requested: UiMode,
    stdin_is_tty: bool,
    stdout_is_tty: bool,
    term: Option<&str>,
) -> (r: Result<ResolvedUiMode, String>)
    ensures
        match ui_mode_choice(requested, stdin_is_tty, stdout_is_tty, term) {
            Ok(m) => r == Ok::<ResolvedUiMode, String>(m),
            Err(e) => r matches Err(s) && s@ == e,
        },
{
    let dumb = match term {
        Some(t) => crate::text::str_eq(t, "dumb"),
        None => false,
    };
    match requested {
        UiMode::Plain => Ok(ResolvedUiMode::Plain),
        UiMode::Auto => {
            if stdin_is_tty && stdout_is_tty && !dumb {
                Ok(ResolvedUiMode::Tui)
            } else {
                Ok(ResolvedUiMode::Plain)
            }
        },
        UiMode::Tui => {
            if !stdin_is_tty || !stdout_is_tty {
                return Err(owned("TUI mode requires an interactive terminal on stdin and stdout"));
            }
            if dumb {
                return Err(owned("TUI mode is unavailable when TERM=dumb"));
            }
            Ok(ResolvedUiMode::Tui)
        },
    }
}

} // verus!
