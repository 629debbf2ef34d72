//! The status line.

use crate::app::{App, AppState};
use crate::terminal::ansi::{
    attribute_sequence, clear_line, move_to, move_to_sequence, set_attribute, Attribute,
};
use crate::terminal::size::{less, smaller};
use crate::text::{append_decimal, decimal};
use vstd::prelude::*;
use vstd::string::*;
use vstd::utf8::encode_utf8;

verus! {

/// The number under which a page is shown.
pub open spec fn page_number(page: usize) -> nat {
    if page == usize::MAX {
        usize::MAX as nat
    } else {
        (page + 1) as nat
    }
}

/// File name, page, number of pages, zoom and message.
pub open spec fn status_text(app: AppState, filename: Option<Seq<char>>) -> Seq<char> {
    " "@ + (match filename {
        Some(name) => name,
        None => "<pdf>"@,
    }) + "    "@ + decimal(page_number(app.current_page)) + " / "@ + decimal(app.page_count as nat)
        + "    "@ + decimal(app.zoom_label() as nat) + "%    "@ + (match app.status {
        Some(message) => message,
        None => Seq::empty(),
    })
}

/// The first `width` characters, or all where there are fewer.
pub open spec fn truncated(text: Seq<char>, width: int) -> Seq<char> {
    text.take(smaller(width, text.len() as int))
}

/// The last line of the terminal, in reverse, as wide as the terminal at most.
pub open spec fn status_sequence(app: AppState, filename: Option<Seq<char>>) -> Seq<char> {
    move_to_sequence(0, less(app.terminal.rows as int, 1)) + attribute_sequence(Attribute::Reverse)
        + "\x1b[2K"@ + truncated(status_text(app, filename), app.terminal.columns as int)
        + attribute_sequence(Attribute::Reset)
}

fn compose(app: &App, filename: Option<&str>) -> (r: String)
    ensures
        r@ == status_text(
            app@,
            match filename {
                Some(name) => Some(name@),
                None => None,
            },
        ),
{
    let zoom = app.zoom.label(app.render_dimensions().2);
    let mut text = " ".to_owned();
    match filename {
        Some(name) => text.append(name),
        None => text.append("<pdf>"),
    }
    text.append("    ");
    append_decimal(&mut text, app.current_page.saturating_add(1) as u64);
    text.append(" / ");
    append_decimal(&mut text, app.page_count as u64);
    text.append("    ");
    append_decimal(&mut text, zoom as u64);
    text.append("%    ");
    match &app.status {
        Some(message) => text.append(message.as_str()),
        None => {
            assert(text@ + Seq::<char>::empty() =~= text@);
        },
    }
    text
}

/// What to write for the status line.
pub fn draw(app: &App, filename: Option<&str>) -> (r: Vec<u8>)
    ensures
        r@ == encode_utf8(
            status_sequence(
                app@,
                match filename {
                    Some(name) => Some(name@),
                    None => None,
                },
            ),
        ),
{
    let text = compose(app, filename);
    let columns = app.terminal.columns as usize;
    let length = text.as_str().unicode_len();
    let width = if columns < length {
        columns
    } else {
        length
    };
    let mut line = move_to(0, app.terminal.rows.saturating_sub(1));
    line.append(set_attribute(Attribute::Reverse).as_str());
    line.append(clear_line().as_str());
    line.append(text.as_str().substring_char(0, width));
    line.append(set_attribute(Attribute::Reset).as_str());
    line.as_str().as_bytes_vec()
}

} // verus!
