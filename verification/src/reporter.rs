//! Reporting a run's progress on a plain terminal: the dashboard state is
//! kept up to date and each event turns into text for the error stream,
//! a status line that is redrawn in place on an interactive terminal and
//! printed line by line otherwise.
use crate::dashboard::{
    DashboardEvent, DashboardInit, DashboardKind, DashboardLogTone, DashboardState, items_after,
    logs_after, progress_text,
};
use crate::text::{owned, push_str};
use crate::ui::{prefix_of, repeated, status_line, Tone};
use vstd::prelude::*;

verus! {

/// What reports a run: it takes the run's events and is told when the run
/// is over.
pub trait RunReporter {
    fn emit(&mut self, event: DashboardEvent);

    fn finish(&mut self) -> Result<(), String>;
}

/// The tone of each log tone.
pub open spec fn tone_of(tone: DashboardLogTone) -> Tone {
    match tone {
        DashboardLogTone::Info => Tone::Info,
        DashboardLogTone::Success => Tone::Success,
        DashboardLogTone::Warning => Tone::Warning,
        DashboardLogTone::Error => Tone::Error,
    }
}

/// The tone of a log tone.
pub fn map_tone(tone: DashboardLogTone) -> (r: Tone)
    ensures
        r == tone_of(tone),
{
    match tone {
        DashboardLogTone::Info => Tone::Info,
        DashboardLogTone::Success => Tone::Success,
        DashboardLogTone::Warning => Tone::Warning,
        DashboardLogTone::Error => Tone::Error,
    }
}

/// The number of bytes that `c` takes in UTF-8 (`char::len_utf8`).
pub open spec fn char_utf8_len(c: char) -> nat {
    if (c as u32) < 0x80 {
        1
    } else if (c as u32) < 0x800 {
        2
    } else if (c as u32) < 0x10000 {
        3
    } else {
        4
    }
}

/// The number of bytes that `s` takes in UTF-8 (`str::len`).
pub open spec fn utf8_len(s: Seq<char>) -> nat
    decreases s.len(),
{
    if s.len() == 0 {
        0
    } else {
        utf8_len(s.drop_last()) + char_utf8_len(s.last())
    }
}

/// The UTF-8 length of `s`, capped at `usize::MAX`.
pub open spec fn byte_width(s: Seq<char>) -> usize {
    if utf8_len(s) <= usize::MAX {
        utf8_len(s) as usize
    } else {
        usize::MAX
    }
}

/// The number of bytes that `s` takes in UTF-8, capped at `usize::MAX`.
pub fn utf8_len_of(s: &str) -> (r: usize)
    ensures
        r == byte_width(s@),
{
    let v = crate::text::chars_of(s);
    let mut n: usize = 0;
    let mut i: usize = 0;
    proof {
        assert(v@.take(0) =~= Seq::<char>::empty());
    }
    while i < v.len()
        invariant
            i <= v.len(),
            v@ == s@,
            n == byte_width(v@.take(i as int)),
        decreases v.len() - i,
    {
        let c = v[i];
        let w: usize = if (c as u32) < 0x80 {
            1
        } else if (c as u32) < 0x800 {
            2
        } else if (c as u32) < 0x10000 {
            3
        } else {
            4
        };
        proof {
            assert(v@.take(i + 1).drop_last() =~= v@.take(i as int));
            assert(v@.take(i + 1).last() == c);
        }
        n = n.saturating_add(w);
        i = i + 1;
    }
    proof {
        assert(v@.take(i as int) =~= v@);
    }
    n
}

/// What ends a redrawn status line: a newline when one is showing.
pub open spec fn line_end(interactive: bool, last_width: usize) -> Seq<char> {
    if interactive && last_width > 0 {
        "\n"@
    } else {
        Seq::empty()
    }
}

/// How a status line is written: redrawn in place over the previous one,
/// padded to cover it, on an interactive terminal; on a line of its own
/// otherwise.
pub open spec fn status_text(line: Seq<char>, interactive: bool, last_width: usize) -> Seq<char> {
    if interactive {
        "\r"@ + line + repeated(
            ' ',
            if last_width > byte_width(line) {
                (last_width - byte_width(line)) as nat
            } else {
                0
            },
        )
    } else {
        line + "\n"@
    }
}

/// How a log message is written on a plain stream: for a translate run only
/// warnings and errors, as status lines; for an annotate run every message
/// as it is.
pub open spec fn log_text(kind: DashboardKind, tone: DashboardLogTone, message: Seq<char>) -> Seq<char> {
    match kind {
        DashboardKind::Translate => if tone is Error || tone is Warning {
            prefix_of(tone_of(tone)) + " "@ + message + "\n"@
        } else {
            Seq::empty()
        },
        DashboardKind::Annotate => message + "\n"@,
    }
}

/// Reports a run on a plain terminal. What it has to write to the error
/// stream collects in `output`, for the caller to write and clear.
#[derive(Debug, Clone)]
pub struct PlainReporter {
    pub state: DashboardState,
    pub interactive: bool,
    pub styled: bool,
    pub last_width: usize,
    pub output: String,
}

impl PlainReporter {
    /// A reporter for the run `init`; `interactive` says whether the error
    /// stream is a terminal, `styled` whether it shows colours.
    pub fn new(init: DashboardInit, interactive: bool, styled: bool) -> (r: Self)
        ensures
            r.state.kind == init.kind,
            r.state.items == init.items,
            r.state.summary_rows == init.summary_rows,
            r.interactive == interactive,
            r.styled == styled,
            r.last_width == 0,
            r.output@ == Seq::<char>::empty(),
    {
        PlainReporter {
            state: DashboardState::new(init),
            interactive,
            styled,
            last_width: 0,
            output: String::new(),
        }
    }

    /// Ends a status line that is showing.
    fn finish_line(&mut self)
        ensures
            final(self).state == old(self).state,
            final(self).interactive == old(self).interactive,
            final(self).styled == old(self).styled,
            final(self).output@ == old(self).output@ + line_end(old(self).interactive, old(self).last_width),
            final(self).last_width == if old(self).interactive && old(self).last_width > 0 {
                0
            } else {
                old(self).last_width
            },
    {
        if self.interactive && self.last_width > 0 {
            push_str(&mut self.output, "\n");
            self.last_width = 0;
        } else {
            proof {
                assert(self.output@ =~= self.output@ + Seq::<char>::empty());
            }
        }
    }

    /// Writes the status line of the run as it stands.
    fn update_status_line(&mut self)
        ensures
            final(self).state == old(self).state,
            final(self).interactive == old(self).interactive,
            final(self).styled == old(self).styled,
            final(self).output@ == old(self).output@ + status_text(
                progress_text(old(self).state.kind, old(self).state.items@, old(self).state.summary_rows@),
                old(self).interactive,
                old(self).last_width,
            ),
            final(self).last_width == if old(self).interactive {
                byte_width(progress_text(old(self).state.kind, old(self).state.items@, old(self).state.summary_rows@))
            } else {
                old(self).last_width
            },
    {
        let line = self.state.progress_line();
        if self.interactive {
            let w = utf8_len_of(line.as_str());
            let padding = if self.last_width > w {
                self.last_width - w
            } else {
                0
            };
            let ghost o0 = self.output@;
            push_str(&mut self.output, "\r");
            push_str(&mut self.output, line.as_str());
            push_str(&mut self.output, crate::ui::repeat_char(' ', padding).as_str());
            self.last_width = w;
            proof {
                assert(self.output@ =~= o0 + ("\r"@ + line@ + repeated(' ', padding as nat)));
            }
        } else {
            let ghost o0 = self.output@;
            push_str(&mut self.output, line.as_str());
            push_str(&mut self.output, "\n");
            proof {
                assert(self.output@ =~= o0 + (line@ + "\n"@));
            }
        }
    }

    /// Writes a log message (see `log_text`), ending a status line first.
    fn print_log(&mut self, tone: DashboardLogTone, message: &str)
        ensures
            final(self).state == old(self).state,
            final(self).interactive == old(self).interactive,
            final(self).styled == old(self).styled,
            final(self).last_width == if old(self).interactive && old(self).last_width > 0 {
                0
            } else {
                old(self).last_width
            },
            !old(self).styled ==> final(self).output@ == old(self).output@ + line_end(
                old(self).interactive,
                old(self).last_width,
            ) + log_text(old(self).state.kind, tone, message@),
    {
        self.finish_line();
        let ghost o0 = self.output@;
        match self.state.kind {
            DashboardKind::Translate => {
                if matches!(tone, DashboardLogTone::Error | DashboardLogTone::Warning) {
                    let line = status_line(map_tone(tone), message, self.styled);
                    push_str(&mut self.output, line.as_str());
                    push_str(&mut self.output, "\n");
                    proof {
                        assert(!self.styled ==> self.output@ =~= o0 + log_text(self.state.kind, tone, message@));
                    }
                } else {
                    proof {
                        assert(self.output@ =~= o0 + log_text(self.state.kind, tone, message@));
                    }
                }
            },
            DashboardKind::Annotate => {
                push_str(&mut self.output, message);
                push_str(&mut self.output, "\n");
                proof {
                    assert(self.output@ =~= o0 + log_text(self.state.kind, tone, message@));
                }
            },
        }
    }

    /// Takes what is to be written to the error stream.
    pub fn take_output(&mut self) -> (r: String)
        ensures
            r@ == old(self).output@,
            final(self).output@ == Seq::<char>::empty(),
            final(self).state == old(self).state,
            final(self).interactive == old(self).interactive,
            final(self).styled == old(self).styled,
            final(self).last_width == old(self).last_width,
    {
        let r = self.output.clone();
        self.output = String::new();
        r
    }
}

impl RunReporter for PlainReporter {
    /// Applies the event to the dashboard state and writes what it shows:
    /// a log message (see `log_text`); after an item update or new summary
    /// rows, the status line (see `status_text`); at completion, the end of
    /// the status line.
    fn emit(&mut self, event: DashboardEvent)
        ensures
            final(self).state.items@ == items_after(old(self).state.items@, event),
            final(self).state.logs@ == logs_after(old(self).state.logs@, event),
            final(self).state.kind == old(self).state.kind,
            final(self).interactive == old(self).interactive,
            final(self).styled == old(self).styled,
            !old(self).styled ==> final(self).output@ == old(self).output@ + match event {
                DashboardEvent::Log { tone, message } => line_end(
                    old(self).interactive,
                    old(self).last_width,
                ) + log_text(old(self).state.kind, tone, message@),
                DashboardEvent::Completed => line_end(old(self).interactive, old(self).last_width),
                _ => status_text(
                    progress_text(
                        old(self).state.kind,
                        items_after(old(self).state.items@, event),
                        final(self).state.summary_rows@,
                    ),
                    old(self).interactive,
                    old(self).last_width,
                ),
            },
    {
        let is_log = matches!(event, DashboardEvent::Log { .. });
        let is_completed = matches!(event, DashboardEvent::Completed);
        match &event {
            DashboardEvent::Log { tone, message } => {
                self.print_log(*tone, message.as_str());
            },
            _ => {},
        }
        self.state.apply(event);
        if is_completed {
            self.finish_line();
        } else if !is_log {
            self.update_status_line();
        }
    }

    /// Ends a status line that is showing.
    fn finish(&mut self) -> (r: Result<(), String>)
        ensures
            r is Ok,
            final(self).state == old(self).state,
            final(self).output@ == old(self).output@ + line_end(old(self).interactive, old(self).last_width),
    {
        self.finish_line();
        Ok(())
    }
}

} // verus!
