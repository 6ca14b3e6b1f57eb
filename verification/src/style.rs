//! ANSI styling codes. Every field is empty when color is off.

use vstd::prelude::*;

verus! {

/// The escape sequences a renderer wraps text in.
#[derive(Clone, Copy, Debug, Default)]
pub struct Style {
    pub red: &'static str,
    pub green: &'static str,
    pub yellow: &'static str,
    pub bold: &'static str,
    pub dim: &'static str,
    pub reset: &'static str,
}

impl Style {
    /// The colored style used on an interactive terminal.
    pub fn colored() -> (s: Style)
        ensures
            s.red@ == "\x1b[31m"@,
            s.green@ == "\x1b[32m"@,
            s.yellow@ == "\x1b[33m"@,
            s.bold@ == "\x1b[1m"@,
            s.dim@ == "\x1b[2m"@,
            s.reset@ == "\x1b[0m"@,
    {
        Style {
            red: "\x1b[31m",
            green: "\x1b[32m",
            yellow: "\x1b[33m",
            bold: "\x1b[1m",
            dim: "\x1b[2m",
            reset: "\x1b[0m",
        }
    }

    /// The style with every code empty.
    pub fn plain() -> (s: Style)
        ensures
            s.red@.len() == 0,
            s.green@.len() == 0,
            s.yellow@.len() == 0,
            s.bold@.len() == 0,
            s.dim@.len() == 0,
            s.reset@.len() == 0,
    {
        proof {
            reveal_strlit("");
        }
        Style { red: "", green: "", yellow: "", bold: "", dim: "", reset: "" }
    }

    /// Colors are on only for an interactive stdout, with `NO_COLOR` unset or empty, outside
    /// the document modes.
    pub fn select(document_mode: bool, no_color: bool, stdout_tty: bool) -> (s: Style)
        ensures
            (document_mode || no_color || !stdout_tty) ==> s.red@.len() == 0 && s.green@.len()
                == 0 && s.yellow@.len() == 0 && s.bold@.len() == 0 && s.dim@.len() == 0
                && s.reset@.len() == 0,
            !(document_mode || no_color || !stdout_tty) ==> s.red@ == "\x1b[31m"@ && s.green@
                == "\x1b[32m"@ && s.yellow@ == "\x1b[33m"@ && s.bold@ == "\x1b[1m"@ && s.dim@
                == "\x1b[2m"@ && s.reset@ == "\x1b[0m"@,
    {
        if document_mode || no_color || !stdout_tty {
            Style::plain()
        } else {
            Style::colored()
        }
    }
}

} // verus!
