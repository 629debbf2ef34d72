//! Images on the screen.

use crate::terminal::kitty::{
    ceil_div, covered, delete_sequence, format_of, image_sequence, opaque, packed,
    placement_sequence, sent_of, spec_place, Content, KittyState, PixelFormat,
};
use crate::terminal::payload::{
    base64, chunk_sequence, chunked, lemma_base64_len, zlib, CHUNK_SIZE,
};
use crate::terminal::size::{less, TerminalSize};
use vstd::prelude::*;

verus! {

/// Drawing and deleting keep the account of images in order: the image on the
/// screen has a number, which the next image will not have.
pub proof fn law_image_numbers(state: KittyState, content: Content, force: bool)
    requires
        state.valid(),
    ensures
        KittyState::initial().valid(),
        state.draw(content, force).valid(),
        (KittyState { visible: None, ..state }).valid(),
        state.visible matches Some((id, _)) ==> id != 0 && id != state.next_image_id,
{
}

/// What was drawn last is on the screen.
pub proof fn law_drawing_shows(state: KittyState, content: Content, force: bool)
    ensures
        state.draw(content, force).shows(content),
{
}

/// An image that is on the screen is not sent again: it is placed anew, wherever
/// it has been scrolled to and however large the terminal is by now.
pub proof fn law_unchanged_image_is_reused(
    state: KittyState,
    content: Content,
    force: bool,
    terminal: TerminalSize,
    offset_x: u32,
    offset_y: u32,
)
    ensures
        ({
            let drawn = state.draw(content, force);
            let id = (drawn.visible->0).0;
            &&& drawn.draw(content, false) == drawn
            &&& drawn.draw_sequence(content, terminal, offset_x, offset_y, false)
                == delete_sequence(id) + placement_sequence(
                id,
                offset_x,
                offset_y,
                spec_place(content.width, content.height, terminal, offset_x, offset_y),
            )
        }),
{
}

/// A forced drawing, and the drawing of anything else than what is on the
/// screen, sends the image under a new number, places it, and only then takes
/// the image before it off the screen, which has another number.
pub proof fn law_new_image_comes_before_old_goes(
    state: KittyState,
    content: Content,
    force: bool,
    terminal: TerminalSize,
    offset_x: u32,
    offset_y: u32,
)
    requires
        state.valid(),
        force || !state.shows(content),
    ensures
        ({
            let id = state.next_image_id;
            let shown = image_sequence(id, content) + placement_sequence(
                id,
                offset_x,
                offset_y,
                spec_place(content.width, content.height, terminal, offset_x, offset_y),
            );
            let written = state.draw_sequence(content, terminal, offset_x, offset_y, force);
            &&& state.draw(content, force).visible == Some((id, content))
            &&& match state.visible {
                Some((old_id, _)) => old_id != id && written == shown + delete_sequence(old_id),
                None => written == shown,
            }
        }),
{
    let id = state.next_image_id;
    let shown = image_sequence(id, content) + placement_sequence(
        id,
        offset_x,
        offset_y,
        spec_place(content.width, content.height, terminal, offset_x, offset_y),
    );
    assert(shown + Seq::<char>::empty() =~= shown);
}

/// What is placed lies on the screen above the status line, and no pixel is
/// shown that the image does not have.
pub proof fn law_placement_stays_on_screen(
    width: u32,
    height: u32,
    terminal: TerminalSize,
    offset_x: u32,
    offset_y: u32,
)
    ensures
        ({
            let place = spec_place(width, height, terminal, offset_x, offset_y);
            &&& place.column + place.columns <= terminal.columns
            &&& place.row + place.rows <= less(terminal.rows as int, 1)
            &&& offset_x < width ==> offset_x + place.crop_w <= width
            &&& offset_y < height ==> offset_y + place.crop_h <= height
            &&& terminal.spec_viewport_pixels().0 > 0 ==> place.crop_w
                <= terminal.spec_viewport_pixels().0
            &&& terminal.spec_viewport_pixels().1 > 0 ==> place.crop_h
                <= terminal.spec_viewport_pixels().1
        }),
{
    let place = spec_place(width, height, terminal, offset_x, offset_y);
    let (cell_w, cell_h) = terminal.spec_cell_pixels();
    assert((place.crop_w + cell_w - 1) / cell_w >= 0) by (nonlinear_arith)
        requires
            place.crop_w >= 0,
            cell_w >= 1,
    ;
    assert((place.crop_h + cell_h - 1) / cell_h >= 0) by (nonlinear_arith)
        requires
            place.crop_h >= 0,
            cell_h >= 1,
    ;
}

/// From `offset` on, `crop` pixels of an extent are shown in a view: all that are
/// left, or as many as the view takes, and one where there are none.
pub open spec fn shows_part(extent: int, offset: int, view: int, crop: int) -> bool {
    if offset < extent && view > 0 {
        &&& crop >= 1
        &&& offset + crop <= extent
        &&& crop <= view
        &&& offset + crop == extent || crop == view
    } else {
        crop == 1
    }
}

/// So many cells are the fewest that hold the pixels, or all that there are.
pub open spec fn holds_pixels(cells: int, cell: int, pixels: int, available: int) -> bool {
    &&& 0 <= cells <= available
    &&& pixels <= cells * cell || cells == available
    &&& (cells - 1) * cell < pixels
}

/// As many cells are free before as behind, or one more is free behind.
pub open spec fn is_centred(start: int, cells: int, available: int) -> bool {
    0 <= (available - cells - start) - start <= 1
}

proof fn lemma_covered(crop: int, cell: int, available: int)
    requires
        crop >= 1,
        cell >= 1,
        available >= 0,
    ensures
        holds_pixels(covered(crop, cell, available), cell, crop, available),
{
    let q = ceil_div(crop, cell);
    let (x, r) = (crop + cell - 1, (crop + cell - 1) % cell);
    vstd::arithmetic::div_mod::lemma_fundamental_div_mod(x, cell);
    assert(q >= 1 && crop <= q * cell && (q - 1) * cell < crop) by (nonlinear_arith)
        requires
            x == cell * q + r,
            0 <= r < cell,
            x == crop + cell - 1,
            crop >= 1,
            cell >= 1,
    ;
    let c = covered(crop, cell, available);
    assert((c - 1) * cell < crop) by (nonlinear_arith)
        requires
            c <= q,
            (q - 1) * cell < crop,
            cell >= 1,
    ;
}

/// The part of an image that is shown begins at the offsets and goes as far as
/// image and viewport do. It is spread over the fewest cells that hold it, in the
/// middle of those above the status line.
pub proof fn law_placement_shows_what_fits(
    width: u32,
    height: u32,
    terminal: TerminalSize,
    offset_x: u32,
    offset_y: u32,
)
    ensures
        ({
            let place = spec_place(width, height, terminal, offset_x, offset_y);
            let (view_w, view_h) = terminal.spec_viewport_pixels();
            let (cell_w, cell_h) = terminal.spec_cell_pixels();
            let lines = if terminal.rows == 0 {
                0
            } else {
                terminal.rows - 1
            };
            &&& shows_part(width as int, offset_x as int, view_w, place.crop_w as int)
            &&& shows_part(height as int, offset_y as int, view_h, place.crop_h as int)
            &&& holds_pixels(
                place.columns as int,
                cell_w,
                place.crop_w as int,
                terminal.columns as int,
            )
            &&& holds_pixels(place.rows as int, cell_h, place.crop_h as int, lines)
            &&& is_centred(place.column as int, place.columns as int, terminal.columns as int)
            &&& is_centred(place.row as int, place.rows as int, lines)
        }),
{
    let place = spec_place(width, height, terminal, offset_x, offset_y);
    let (view_w, view_h) = terminal.spec_viewport_pixels();
    let (cell_w, cell_h) = terminal.spec_cell_pixels();
    lemma_covered(place.crop_w as int, cell_w, terminal.columns as int);
    lemma_covered(place.crop_h as int, cell_h, less(terminal.rows as int, 1));
}

/// Pixels are sent without their alpha exactly where every pixel is opaque: where
/// there are whole pixels only, and the fourth byte of each is 255. Of a pixel
/// that is sent so, the first three bytes are.
pub proof fn law_alpha_is_dropped_where_it_says_nothing(rgba: Seq<u8>, pixel: int)
    ensures
        format_of(rgba) == PixelFormat::Rgb24 <==> (rgba.len() % 4 == 0 && forall|k: int|
            0 <= k < rgba.len() / 4 ==> #[trigger] rgba[4 * k + 3] == 255),
        format_of(rgba) == PixelFormat::Rgba32 ==> packed(rgba) == rgba,
        format_of(rgba) == PixelFormat::Rgb24 ==> packed(rgba).len() == rgba.len() / 4 * 3,
        format_of(rgba) == PixelFormat::Rgb24 && 0 <= pixel < rgba.len() / 4 ==> {
            &&& packed(rgba)[3 * pixel] == rgba[4 * pixel]
            &&& packed(rgba)[3 * pixel + 1] == rgba[4 * pixel + 1]
            &&& packed(rgba)[3 * pixel + 2] == rgba[4 * pixel + 2]
        },
{
    let whole = rgba.len() % 4 == 0 && forall|k: int|
        0 <= k < rgba.len() / 4 ==> #[trigger] rgba[4 * k + 3] == 255;
    if opaque(rgba) {
        assert forall|k: int| 0 <= k < rgba.len() / 4 implies #[trigger] rgba[4 * k + 3] == 255 by {
            assert((4 * k + 3) % 4 == 3);
        }
        if 0 <= pixel < rgba.len() / 4 {
            assert((3 * pixel) / 3 == pixel && (3 * pixel) % 3 == 0);
            assert((3 * pixel + 1) / 3 == pixel && (3 * pixel + 1) % 3 == 1);
            assert((3 * pixel + 2) / 3 == pixel && (3 * pixel + 2) % 3 == 2);
        }
    }
    if whole {
        assert forall|i: int| 0 <= i < rgba.len() && i % 4 == 3 implies #[trigger] rgba[i]
            == 255 by {
            assert(rgba[4 * (i / 4) + 3] == 255);
        }
    }
}

/// What is told of an image that was sent: its format, the bytes before and after
/// compression, and in base64, where four stand for three.
pub proof fn law_sent_counts(content: Content)
    requires
        packed(content.rgba).len() <= usize::MAX,
        zlib(packed(content.rgba)).len() <= usize::MAX,
    ensures
        sent_of(content).format == format_of(content.rgba),
        sent_of(content).format == PixelFormat::Rgb24 ==> 4 * sent_of(content).raw == 3
            * content.rgba.len(),
        sent_of(content).format == PixelFormat::Rgba32 ==> sent_of(content).raw
            == content.rgba.len(),
        sent_of(content).compressed == zlib(packed(content.rgba)).len(),
        3 * sent_of(content).encoded >= 4 * sent_of(content).compressed,
        3 * sent_of(content).encoded < 4 * sent_of(content).compressed + 12,
        sent_of(content).encoded % 4 == 0,
{
    lemma_base64_len(zlib(packed(content.rgba)));
}

/// An image is on the screen where its width, its height and its bytes are those
/// of the image that was drawn last, and after a deletion none is.
pub proof fn law_screen_shows_the_last_drawing(
    state: KittyState,
    content: Content,
    force: bool,
    other: Content,
)
    ensures
        state.draw(content, force).shows(other) <==> (other.width == content.width && other.height
            == content.height && other.rgba == content.rgba),
        !(KittyState { visible: None, ..state }).shows(other),
{
    if other.width == content.width && other.height == content.height && other.rgba
        == content.rgba {
        assert(other =~= content);
    }
}

/// Taking the image off the screen leaves none there, and keeps the count of
/// numbers, so that no number is given out again.
pub proof fn law_erasing_keeps_the_count(state: KittyState, content: Content)
    requires
        state.valid(),
    ensures
        state.erase().valid(),
        state.erase().visible is None,
        state.erase().next_image_id == state.next_image_id,
        !state.erase().shows(content),
        state.erase().draw(content, false).visible == Some((state.next_image_id, content)),
{
}

/// Numbers are given out one after the other, from one on; behind the largest
/// one comes one again. A drawing that sends nothing takes none.
pub proof fn law_numbers_are_given_in_turn(state: KittyState, content: Content, force: bool)
    ensures
        KittyState::initial().next_image_id == 1,
        KittyState::initial().visible is None,
        ({
            let drawn = state.draw(content, force);
            if force || !state.shows(content) {
                &&& drawn.visible == Some((state.next_image_id, content))
                &&& state.next_image_id < u32::MAX ==> drawn.next_image_id == state.next_image_id
                    + 1
                &&& state.next_image_id == u32::MAX ==> drawn.next_image_id == 1
                &&& state.replaced(content, force) == match state.visible {
                    Some((id, _)) => Some(id),
                    None => None,
                }
            } else {
                drawn == state && state.replaced(content, force) is None
            }
        }),
{
}

/// Opaque pixels are sent in three quarters of the bytes.
pub proof fn law_opaque_pixels_are_packed(rgba: Seq<u8>)
    ensures
        opaque(rgba) ==> 4 * packed(rgba).len() == 3 * rgba.len(),
        !opaque(rgba) ==> packed(rgba) == rgba,
        forall|i: int|
            opaque(rgba) && 0 <= i < packed(rgba).len() ==> #[trigger] packed(rgba)[i] == rgba[i / 3
                * 4 + i % 3],
{
}

/// The payloads of the chunks of a payload.
pub open spec fn pieces(payload: Seq<char>) -> Seq<Seq<char>>
    decreases payload.len(),
{
    if payload.len() == 0 {
        Seq::empty()
    } else if payload.len() <= CHUNK_SIZE {
        seq![payload]
    } else {
        seq![payload.take(CHUNK_SIZE as int)] + pieces(payload.skip(CHUNK_SIZE as int))
    }
}

/// The chunks around those payloads. The first one carries the control keys, and
/// all but the last announce that more follow.
pub open spec fn framed(keys: Seq<char>, payloads: Seq<Seq<char>>) -> Seq<Seq<char>> {
    Seq::new(
        payloads.len(),
        |i: int|
            chunk_sequence(
                if i == 0 {
                    keys
                } else {
                    Seq::empty()
                },
                i + 1 < payloads.len(),
                payloads[i],
            ),
    )
}

/// A payload is sent in chunks of 4096 characters, the last one shorter where
/// it does not come out even, and the chunks taken together hold the payload.
pub proof fn law_chunks_carry_the_payload(keys: Seq<char>, payload: Seq<char>)
    ensures
        chunked(keys, payload) == framed(keys, pieces(payload)).flatten(),
        pieces(payload).flatten() == payload,
        forall|i: int|
            0 <= i < pieces(payload).len() ==> 0 < (#[trigger] pieces(payload)[i]).len()
                <= CHUNK_SIZE,
        forall|i: int|
            0 <= i < pieces(payload).len() - 1 ==> (#[trigger] pieces(payload)[i]).len()
                == CHUNK_SIZE,
    decreases payload.len(),
{
    let all = pieces(payload);
    if payload.len() == 0 {
        assert(framed(keys, all) =~= Seq::empty());
    } else if payload.len() <= CHUNK_SIZE {
        let one = framed(keys, all);
        assert(one =~= seq![chunk_sequence(keys, false, payload)]);
        one.lemma_flatten_one_element();
        all.lemma_flatten_one_element();
    } else {
        let head = payload.take(CHUNK_SIZE as int);
        let tail = payload.skip(CHUNK_SIZE as int);
        law_chunks_carry_the_payload(Seq::empty(), tail);
        let rest = pieces(tail);
        assert(rest.len() > 0);
        assert(all.drop_first() =~= rest);
        assert(framed(keys, all).drop_first() =~= framed(Seq::empty(), rest));
        assert(framed(keys, all).first() == chunk_sequence(keys, true, head));
        assert(head + tail =~= payload);
        assert forall|i: int| 0 <= i < all.len() implies 0 < (#[trigger] all[i]).len()
            <= CHUNK_SIZE && (i < all.len() - 1 ==> all[i].len() == CHUNK_SIZE) by {
            if i > 0 {
                assert(all[i] == rest[i - 1]);
            }
        }
    }
}

/// No chunk of data in base64 splits a group of four characters.
pub proof fn law_chunks_keep_groups_whole(data: Seq<u8>, i: int)
    requires
        0 <= i < pieces(base64(data)).len(),
    ensures
        pieces(base64(data))[i].len() % 4 == 0,
{
    lemma_base64_len(data);
    lemma_piece_groups(base64(data), i);
}

proof fn lemma_piece_groups(payload: Seq<char>, i: int)
    requires
        payload.len() % 4 == 0,
        0 <= i < pieces(payload).len(),
    ensures
        pieces(payload)[i].len() % 4 == 0,
    decreases payload.len(),
{
    if payload.len() > CHUNK_SIZE && i > 0 {
        lemma_piece_groups(payload.skip(CHUNK_SIZE as int), i - 1);
    }
}

} // verus!
