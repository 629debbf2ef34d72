//! What is settled before anything is shown.

use crate::app::ZoomMode;
use vstd::prelude::*;
use vstd::string::*;

verus! {

/// Why the viewer does not start.
#[derive(Clone, Copy, Debug, PartialEq, Eq, Structural)]
pub enum StartError {
    PageZero,
    ZoomZero,
    UnsupportedTerminal,
}

impl StartError {
    pub open spec fn spec_message(self) -> Seq<char> {
        match self {
            StartError::PageZero => "--page is one-based and must be at least 1"@,
            StartError::ZoomZero => "--zoom must be greater than zero"@,
            StartError::UnsupportedTerminal =>
                "no Kitty graphics capable terminal detected (tpdf is intended for Ghostty; use --force to override)"@,
        }
    }

    pub fn message(self) -> (r: String)
        ensures
            r@ == self.spec_message(),
    {
        match self {
            StartError::PageZero => "--page is one-based and must be at least 1".to_owned(),
            StartError::ZoomZero => "--zoom must be greater than zero".to_owned(),
            StartError::UnsupportedTerminal =>
                "no Kitty graphics capable terminal detected (tpdf is intended for Ghostty; use --force to override)".to_owned(),
        }
    }
}

/// The page that is shown first, counted from zero.
pub open spec fn spec_initial_page(page: usize) -> Result<usize, StartError> {
    if page == 0 {
        Err(StartError::PageZero)
    } else {
        Ok((page - 1) as usize)
    }
}

/// The zoom that is used first.
pub open spec fn spec_initial_zoom(zoom: Option<u16>) -> Result<ZoomMode, StartError> {
    match zoom {
        None => Ok(ZoomMode::Fit),
        Some(percent) => if percent == 0 {
            Err(StartError::ZoomZero)
        } else {
            Ok(ZoomMode::Fixed(percent))
        },
    }
}

/// The page that is shown first, counted from zero.
pub fn initial_page(page: usize) -> (r: Result<usize, StartError>)
    ensures
        match r {
            Ok(index) => index + 1 == page,
            Err(error) => error == StartError::PageZero && page == 0,
        },
        r == spec_initial_page(page),
{
    if page == 0 {
        Err(StartError::PageZero)
    } else {
        Ok(page - 1)
    }
}

/// The zoom that is used first.
pub fn initial_zoom(zoom: Option<u16>) -> (r: Result<ZoomMode, StartError>)
    ensures
        r == match zoom {
            None => Ok(ZoomMode::Fit),
            Some(percent) => if percent == 0 {
                Err(StartError::ZoomZero)
            } else {
                Ok(ZoomMode::Fixed(percent))
            },
        },
        r == spec_initial_zoom(zoom),
{
    match zoom {
        None => Ok(ZoomMode::Fit),
        Some(percent) => if percent == 0 {
            Err(StartError::ZoomZero)
        } else {
            Ok(ZoomMode::Fixed(percent))
        },
    }
}

/// What the environment tells of the terminal.
#[derive(Debug)]
pub struct TerminalEnvironment {
    /// `TERM_PROGRAM`, empty where it is not set.
    pub term_program: String,
    /// `TERM`, empty where it is not set.
    pub term: String,
    /// `KITTY_WINDOW_ID` is set.
    pub kitty_window_id: bool,
    /// `ZELLIJ` is set.
    pub zellij: bool,
}

/// An ASCII letter in lower case.
pub open spec fn lower(c: char) -> char {
    if 'A' <= c && c <= 'Z' {
        (c as int + 32) as char
    } else {
        c
    }
}

/// At `from`, `text` reads `word` once its letters are in lower case.
pub open spec fn reads_at(text: Seq<char>, word: Seq<char>, from: int) -> bool {
    &&& 0 <= from
    &&& from + word.len() <= text.len()
    &&& forall|i: int| 0 <= i < word.len() ==> lower(text[from + i]) == #[trigger] word[i]
}

/// `word` occurs in `text` once its letters are in lower case.
pub open spec fn mentions(text: Seq<char>, word: Seq<char>) -> bool {
    exists|from: int| #[trigger] reads_at(text, word, from)
}

/// The terminal is one of those that show images.
pub open spec fn compatible(
    term_program: Seq<char>,
    term: Seq<char>,
    kitty_window_id: bool,
    zellij: bool,
) -> bool {
    ||| mentions(term_program, "ghostty"@)
    ||| mentions(term_program, "wezterm"@)
    ||| mentions(term, "ghostty"@)
    ||| mentions(term, "kitty"@)
    ||| kitty_window_id
    ||| zellij
}

fn to_lower(c: char) -> (r: char)
    ensures
        r == lower(c),
{
    if 'A' <= c && c <= 'Z' {
        (c as u8 + 32) as char
    } else {
        c
    }
}

fn occurs(text: &str, word: &str) -> (r: bool)
    ensures
        r == mentions(text@, word@),
{
    let length = text.unicode_len();
    let size = word.unicode_len();
    if size > length {
        assert forall|from: int| !#[trigger] reads_at(text@, word@, from) by {}
        return false;
    }
    let mut from: usize = 0;
    while from <= length - size
        invariant
            length == text@.len(),
            size == word@.len(),
            size <= length,
            from <= length - size + 1,
            forall|k: int| k < from ==> !#[trigger] reads_at(text@, word@, k),
        decreases length - size + 1 - from,
    {
        let mut i: usize = 0;
        while i < size && to_lower(text.get_char(from + i)) == word.get_char(i)
            invariant
                length == text@.len(),
                size == word@.len(),
                from + size <= length,
                i <= size,
                forall|k: int| 0 <= k < i ==> lower(text@[from + k]) == #[trigger] word@[k],
            decreases size - i,
        {
            i = i + 1;
        }
        if i == size {
            assert(reads_at(text@, word@, from as int));
            return true;
        }
        assert(lower(text@[from + i]) != word@[i as int]);
        if from == length - size {
            assert forall|k: int| !#[trigger] reads_at(text@, word@, k) by {}
            return false;
        }
        from = from + 1;
    }
    false
}

/// Whether the viewer starts in a terminal of which this is known.
pub open spec fn spec_terminal_support(
    force: bool,
    term_program: Seq<char>,
    term: Seq<char>,
    kitty_window_id: bool,
    zellij: bool,
) -> Result<(), StartError> {
    if force || compatible(term_program, term, kitty_window_id, zellij) {
        Ok(())
    } else {
        Err(StartError::UnsupportedTerminal)
    }
}

/// Rejects a terminal that cannot be told to show images, unless forced.
pub fn ensure_terminal_support(
    force: bool,
    environment: &TerminalEnvironment,
) -> (r: Result<(), StartError>)
    ensures
        r == if force || compatible(
            environment.term_program@,
            environment.term@,
            environment.kitty_window_id,
            environment.zellij,
        ) {
            Ok(())
        } else {
            Err(StartError::UnsupportedTerminal)
        },
        r == spec_terminal_support(
            force,
            environment.term_program@,
            environment.term@,
            environment.kitty_window_id,
            environment.zellij,
        ),
{
    if force || occurs(environment.term_program.as_str(), "ghostty") || occurs(
        environment.term_program.as_str(),
        "wezterm",
    ) || occurs(environment.term.as_str(), "ghostty") || occurs(environment.term.as_str(), "kitty")
        || environment.kitty_window_id || environment.zellij {
        Ok(())
    } else {
        Err(StartError::UnsupportedTerminal)
    }
}

} // verus!
