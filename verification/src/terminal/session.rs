//! The screen while the viewer has it.

use crate::pdf::renderer::Bitmap;
use crate::terminal::ansi::{
    enter_alternate_screen, hide_cursor, leave_alternate_screen, show_cursor,
};
use crate::terminal::kitty::{delete_sequence, sent_of, Frame, KittyRenderer, KittyState};
use crate::terminal::size::TerminalSize;
use vstd::prelude::*;
use vstd::string::*;
use vstd::utf8::encode_utf8;

verus! {

/// What was drawn on the alternate screen.
pub struct TerminalSession {
    pub kitty: KittyRenderer,
}

/// What is written when the screen is given up. Each part is written whatever
/// became of those before it.
pub struct Closing {
    /// The image goes.
    pub image: Vec<u8>,
    /// The cursor comes back.
    pub cursor: Vec<u8>,
    /// The alternate screen is left.
    pub screen: Vec<u8>,
}

impl TerminalSession {
    /// A session, and what to write at its start: it takes the alternate screen
    /// and hides the cursor.
    pub fn enter() -> (r: (Self, Vec<u8>))
        ensures
            r.0.kitty@ == KittyState::initial(),
            r.1@ == encode_utf8("\x1b[?1049h"@ + "\x1b[?25l"@),
    {
        let mut text = enter_alternate_screen();
        text.append(hide_cursor().as_str());
        (TerminalSession { kitty: KittyRenderer::default() }, text.as_str().as_bytes_vec())
    }

    /// Draws a bitmap.
    pub fn draw_image(
        &mut self,
        bitmap: &Bitmap,
        size: TerminalSize,
        offset_x: u32,
        offset_y: u32,
        force_transmit: bool,
    ) -> (r: Frame)
        ensures
            final(self).kitty@ == old(self).kitty@.draw(bitmap@, force_transmit),
            final(self).kitty@.valid(),
            r.bytes@ == encode_utf8(
                old(self).kitty@.draw_sequence(bitmap@, size, offset_x, offset_y, force_transmit),
            ),
            r.sent == if old(self).kitty@.shows(bitmap@) && !force_transmit {
                None
            } else {
                Some(sent_of(bitmap@))
            },
            r.replaced == old(self).kitty@.replaced(bitmap@, force_transmit),
    {
        self.kitty.draw(bitmap, size, offset_x, offset_y, force_transmit)
    }

    /// What to write at the end.
    pub fn restore(&mut self) -> (r: Closing)
        ensures
            final(self).kitty@ == (KittyState { visible: None, ..old(self).kitty@ }),
            final(self).kitty@ == old(self).kitty@.erase(),
            r.image@ == match old(self).kitty@.visible {
                Some((id, _)) => encode_utf8(delete_sequence(id)),
                None => Seq::empty(),
            },
            r.cursor@ == encode_utf8("\x1b[?25h"@),
            r.screen@ == encode_utf8("\x1b[?1049l"@),
    {
        Closing {
            image: self.kitty.delete_visible(),
            cursor: show_cursor().as_str().as_bytes_vec(),
            screen: leave_alternate_screen().as_str().as_bytes_vec(),
        }
    }
}

} // verus!
