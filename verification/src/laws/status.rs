//! The status line.

use crate::app::AppState;
use crate::laws::keys::percentage;
use crate::laws::reading::{law_decimal_reads_back, reads};
use crate::terminal::ansi::move_to_sequence;
use crate::text::decimal;
use crate::ui::status::{page_number, status_sequence, status_text};
use vstd::prelude::*;

verus! {

/// Rows and columns are counted from one by the terminal, the row first.
pub proof fn law_cursor_moves(column: int, row: int) -> (r: (Seq<char>, Seq<char>))
    requires
        column >= 0,
        row >= 0,
    ensures
        move_to_sequence(column, row) == "\x1b["@ + r.0 + ";"@ + r.1 + "H"@,
        reads(r.0, (row + 1) as nat),
        reads(r.1, (column + 1) as nat),
{
    law_decimal_reads_back((row + 1) as nat);
    law_decimal_reads_back((column + 1) as nat);
    (decimal((row + 1) as nat), decimal((column + 1) as nat))
}

/// The status line has the file name, the page counted from one, the number of
/// pages, the zoom in percent, and the message, where there is one. A file without
/// a name that can be shown is called `<pdf>`.
pub proof fn law_status_line_tells(app: AppState, filename: Option<Seq<char>>) -> (r: (
    Seq<char>,
    Seq<char>,
    Seq<char>,
))
    ensures
        ({
            let (page, count, zoom) = r;
            let name = match filename {
                Some(name) => name,
                None => "<pdf>"@,
            };
            let message = match app.status {
                Some(message) => message,
                None => Seq::empty(),
            };
            &&& status_text(app, filename) == " "@ + name + "    "@ + page + " / "@ + count
                + "    "@ + zoom + "%    "@ + message
            &&& app.current_page < usize::MAX ==> reads(page, (app.current_page + 1) as nat)
            &&& app.current_page == usize::MAX ==> reads(page, usize::MAX as nat)
            &&& reads(count, app.page_count as nat)
            &&& percentage(app) >= 0
            &&& reads(zoom, percentage(app) as nat)
        }),
{
    crate::laws::keys::law_fit_percentage_is_counted(app);
    law_decimal_reads_back(page_number(app.current_page));
    law_decimal_reads_back(app.page_count as nat);
    law_decimal_reads_back(app.zoom_label() as nat);
    (
        decimal(page_number(app.current_page)),
        decimal(app.page_count as nat),
        decimal(app.zoom_label() as nat),
    )
}

/// The status line is written on the last line of the terminal, which is cleared
/// for it, in reverse. As much of it is shown as the terminal has columns for, and
/// the attributes are put back.
pub proof fn law_status_line_is_shown(app: AppState, filename: Option<Seq<char>>) -> (shown: Seq<
    char,
>)
    ensures
        shown.is_prefix_of(status_text(app, filename)),
        shown.len() <= app.terminal.columns,
        shown.len() < app.terminal.columns ==> shown == status_text(app, filename),
        status_sequence(app, filename) == move_to_sequence(
            0,
            if app.terminal.rows == 0 {
                0
            } else {
                app.terminal.rows - 1
            },
        ) + "\x1b[7m"@ + "\x1b[2K"@ + shown + "\x1b[0m"@,
{
    let text = status_text(app, filename);
    let columns = app.terminal.columns as int;
    let n = if columns < text.len() {
        columns
    } else {
        text.len() as int
    };
    let shown = text.take(n);
    assert(shown =~= text.subrange(0, n));
    if n == text.len() {
        assert(shown =~= text);
    }
    shown
}

} // verus!
