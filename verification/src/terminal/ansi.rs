//! The escape sequences that move the cursor and set up the screen.

use crate::text::decimal;
use crossterm::Command;
use vstd::prelude::*;

verus! {

/// How text is written.
#[derive(Clone, Copy, Debug, PartialEq, Eq, Structural)]
pub enum Attribute {
    Reset,
    Reverse,
}

/// Moves the cursor; the terminal counts from one.
pub open spec fn move_to_sequence(column: int, row: int) -> Seq<char> {
    "\x1b["@ + decimal((row + 1) as nat) + ";"@ + decimal((column + 1) as nat) + "H"@
}

pub open spec fn attribute_sequence(attribute: Attribute) -> Seq<char> {
    match attribute {
        Attribute::Reset => "\x1b[0m"@,
        Attribute::Reverse => "\x1b[7m"@,
    }
}

/// `crossterm::cursor::MoveTo`: its ANSI sequence names row and column in
/// decimal, each counted from one. Adding one overflows at `u16::MAX`.
#[verifier::external_body]
pub(crate) fn move_to(column: u16, row: u16) -> (r: String)
    requires
        column < u16::MAX,
        row < u16::MAX,
    ensures
        r@ == move_to_sequence(column as int, row as int),
{
    let mut text = String::new();
    let _ = crossterm::cursor::MoveTo(column, row).write_ansi(&mut text);
    text
}

/// `crossterm::style::SetAttribute`: its ANSI sequence is the SGR code of the
/// attribute, 0 to reset and 7 to reverse.
#[verifier::external_body]
pub(crate) fn set_attribute(attribute: Attribute) -> (r: String)
    ensures
        r@ == attribute_sequence(attribute),
{
    let mut text = String::new();
    let attribute = match attribute {
        Attribute::Reset => crossterm::style::Attribute::Reset,
        Attribute::Reverse => crossterm::style::Attribute::Reverse,
    };
    let _ = crossterm::style::SetAttribute(attribute).write_ansi(&mut text);
    text
}

/// `crossterm::terminal::Clear` of the current line: its ANSI sequence erases
/// the whole line.
#[verifier::external_body]
pub(crate) fn clear_line() -> (r: String)
    ensures
        r@ == "\x1b[2K"@,
{
    let mut text = String::new();
    let line = crossterm::terminal::ClearType::CurrentLine;
    let _ = crossterm::terminal::Clear(line).write_ansi(&mut text);
    text
}

/// `crossterm::terminal::EnterAlternateScreen`: its ANSI sequence sets private
/// mode 1049.
#[verifier::external_body]
pub(crate) fn enter_alternate_screen() -> (r: String)
    ensures
        r@ == "\x1b[?1049h"@,
{
    let mut text = String::new();
    let _ = crossterm::terminal::EnterAlternateScreen.write_ansi(&mut text);
    text
}

/// `crossterm::terminal::LeaveAlternateScreen`: its ANSI sequence resets
/// private mode 1049.
#[verifier::external_body]
pub(crate) fn leave_alternate_screen() -> (r: String)
    ensures
        r@ == "\x1b[?1049l"@,
{
    let mut text = String::new();
    let _ = crossterm::terminal::LeaveAlternateScreen.write_ansi(&mut text);
    text
}

/// `crossterm::cursor::Hide`: its ANSI sequence resets private mode 25.
#[verifier::external_body]
pub(crate) fn hide_cursor() -> (r: String)
    ensures
        r@ == "\x1b[?25l"@,
{
    let mut text = String::new();
    let _ = crossterm::cursor::Hide.write_ansi(&mut text);
    text
}

/// `crossterm::cursor::Show`: its ANSI sequence sets private mode 25.
#[verifier::external_body]
pub(crate) fn show_cursor() -> (r: String)
    ensures
        r@ == "\x1b[?25h"@,
{
    let mut text = String::new();
    let _ = crossterm::cursor::Show.write_ansi(&mut text);
    text
}

} // verus!
