//! Images in the terminal, by the Kitty graphics protocol.

use crate::pdf::renderer::Bitmap;
use crate::terminal::ansi::{move_to, move_to_sequence};
use crate::terminal::payload::{
    base64, chunked, compress, encode_chunks, lemma_base64_len, zlib,
};
use crate::terminal::size::{at_least_one, less, smaller, TerminalSize};
use crate::text::{append_decimal, decimal, same_bytes};
use vstd::prelude::*;
use vstd::string::*;
use vstd::utf8::encode_utf8;

verus! {

/// How pixels are sent.
#[derive(Clone, Copy, Debug, PartialEq, Eq, Structural)]
pub enum PixelFormat {
    /// Three bytes to the pixel.
    Rgb24,
    /// Four bytes to the pixel.
    Rgba32,
}

/// The control keys of a transmission that is not compressed.
pub open spec fn raw_keys(image_id: u32, width: u32, height: u32) -> Seq<char> {
    "a=t,f=32,s="@ + decimal(width as nat) + ",v="@ + decimal(height as nat) + ",i="@ + decimal(
        image_id as nat,
    ) + ",q=2,"@
}

/// The control keys of a compressed transmission.
pub open spec fn compressed_keys(
    image_id: u32,
    width: u32,
    height: u32,
    format: PixelFormat,
) -> Seq<char> {
    (match format {
        PixelFormat::Rgb24 => "a=t,f=24,o=z,s="@,
        PixelFormat::Rgba32 => "a=t,f=32,o=z,s="@,
    }) + decimal(width as nat) + ",v="@ + decimal(height as nat) + ",i="@ + decimal(
        image_id as nat,
    ) + ",q=2,"@
}

pub open spec fn delete_sequence(image_id: u32) -> Seq<char> {
    "\x1b_Ga=d,d=i,i="@ + decimal(image_id as nat) + ",q=2\x1b\\"@
}

fn append_keys(text: &mut String, image_id: u32, width: u32, height: u32)
    ensures
        final(text)@ == old(text)@ + decimal(width as nat) + ",v="@ + decimal(height as nat)
            + ",i="@ + decimal(image_id as nat) + ",q=2,"@,
{
    append_decimal(text, width as u64);
    text.append(",v=");
    append_decimal(text, height as u64);
    text.append(",i=");
    append_decimal(text, image_id as u64);
    text.append(",q=2,");
}

/// Sends an image as it is, four bytes to the pixel.
pub open spec fn raw_sequence(image_id: u32, width: u32, height: u32, rgba: Seq<u8>) -> Seq<char> {
    chunked(raw_keys(image_id, width, height), base64(rgba))
}

/// Sends an image as it is, four bytes to the pixel.
pub fn encode_transmission(image_id: u32, width: u32, height: u32, rgba: &[u8]) -> (r: Vec<u8>)
    ensures
        r@ == encode_utf8(chunked(raw_keys(image_id, width, height), base64(rgba@))),
        r@ == encode_utf8(raw_sequence(image_id, width, height, rgba@)),
{
    let mut keys = "a=t,f=32,s=".to_owned();
    append_keys(&mut keys, image_id, width, height);
    encode_chunks(keys.as_str(), rgba).as_str().as_bytes_vec()
}

/// Takes the image off the screen. The terminal keeps its data.
pub fn encode_delete(image_id: u32) -> (r: Vec<u8>)
    ensures
        r@ == encode_utf8(delete_sequence(image_id)),
{
    delete_text(image_id).as_str().as_bytes_vec()
}

fn delete_text(image_id: u32) -> (r: String)
    ensures
        r@ == delete_sequence(image_id),
{
    let mut text = "\x1b_Ga=d,d=i,i=".to_owned();
    append_decimal(&mut text, image_id as u64);
    text.append(",q=2\x1b\\");
    text
}

/// Every pixel is fully opaque.
pub open spec fn opaque(rgba: Seq<u8>) -> bool {
    &&& rgba.len() % 4 == 0
    &&& forall|i: int| 0 <= i < rgba.len() && i % 4 == 3 ==> #[trigger] rgba[i] == 255
}

/// The pixels without their alpha.
pub open spec fn rgb(rgba: Seq<u8>) -> Seq<u8> {
    Seq::new(rgba.len() / 4 * 3, |i: int| rgba[i / 3 * 4 + i % 3])
}

pub open spec fn format_of(rgba: Seq<u8>) -> PixelFormat {
    if opaque(rgba) {
        PixelFormat::Rgb24
    } else {
        PixelFormat::Rgba32
    }
}

/// The bytes that are sent of the pixels: no alpha where every pixel is opaque.
pub open spec fn packed(rgba: Seq<u8>) -> Seq<u8> {
    if opaque(rgba) {
        rgb(rgba)
    } else {
        rgba
    }
}

fn is_opaque(rgba: &[u8]) -> (r: bool)
    ensures
        r == opaque(rgba@),
{
    if rgba.len() % 4 != 0 {
        return false;
    }
    let mut i: usize = 0;
    while i < rgba.len()
        invariant
            i <= rgba@.len(),
            i % 4 == 0,
            rgba@.len() % 4 == 0,
            forall|j: int| 0 <= j < i && j % 4 == 3 ==> #[trigger] rgba@[j] == 255,
        decreases rgba@.len() - i,
    {
        if rgba[i + 3] != 255 {
            assert(rgba@[i + 3] != 255);
            return false;
        }
        i = i + 4;
    }
    true
}

/// What is sent of the pixels, and in which format.
pub fn pack_pixels(rgba: &[u8]) -> (r: (PixelFormat, Vec<u8>))
    ensures
        r.0 == format_of(rgba@),
        r.1@ == packed(rgba@),
{
    if !is_opaque(rgba) {
        return (PixelFormat::Rgba32, vstd::slice::slice_to_vec(rgba));
    }
    let mut bytes: Vec<u8> = Vec::new();
    let mut i: usize = 0;
    while i < rgba.len()
        invariant
            i <= rgba@.len(),
            i % 4 == 0,
            rgba@.len() % 4 == 0,
            bytes@.len() == i / 4 * 3,
            forall|j: int| 0 <= j < bytes@.len() ==> #[trigger] bytes@[j] == rgba@[j / 3 * 4 + j % 3],
        decreases rgba@.len() - i,
    {
        bytes.push(rgba[i]);
        bytes.push(rgba[i + 1]);
        bytes.push(rgba[i + 2]);
        i = i + 4;
    }
    assert(bytes@ =~= rgb(rgba@));
    (PixelFormat::Rgb24, bytes)
}

/// Sends an image whose pixels have been compressed.
pub fn encode_compressed(
    image_id: u32,
    width: u32,
    height: u32,
    format: PixelFormat,
    compressed: &[u8],
) -> (r: String)
    ensures
        r@ == chunked(compressed_keys(image_id, width, height, format), base64(compressed@)),
{
    let mut keys = match format {
        PixelFormat::Rgb24 => "a=t,f=24,o=z,s=".to_owned(),
        PixelFormat::Rgba32 => "a=t,f=32,o=z,s=".to_owned(),
    };
    append_keys(&mut keys, image_id, width, height);
    encode_chunks(keys.as_str(), compressed)
}

/// Where an image goes: the part of it that is shown, and the cells it covers.
#[derive(Clone, Copy, Debug, PartialEq, Eq, Structural)]
pub struct Placement {
    pub crop_w: u32,
    pub crop_h: u32,
    pub columns: u32,
    pub rows: u32,
    /// The cell of the upper left corner.
    pub column: u16,
    pub row: u16,
}

pub open spec fn ceil_div(a: int, b: int) -> int {
    (a + b - 1) / b
}

/// The part of an extent that is shown from an offset on: what is left of it,
/// as far as the viewport reaches, and at least one pixel.
pub open spec fn crop(extent: u32, offset: u32, view: int) -> int {
    at_least_one(smaller(less(extent as int, offset as int), view))
}

/// The cells that a crop takes, of those that there are.
pub open spec fn covered(crop: int, cell: int, cells: int) -> int {
    smaller(ceil_div(crop, cell), cells)
}

/// The image is centred on the cells above the status line.
pub open spec fn spec_place(
    width: u32,
    height: u32,
    terminal: TerminalSize,
    offset_x: u32,
    offset_y: u32,
) -> Placement {
    let (view_w, view_h) = terminal.spec_viewport_pixels();
    let (cell_w, cell_h) = terminal.spec_cell_pixels();
    let crop_w = crop(width, offset_x, view_w);
    let crop_h = crop(height, offset_y, view_h);
    let lines = less(terminal.rows as int, 1);
    let columns = covered(crop_w, cell_w, terminal.columns as int);
    let rows = covered(crop_h, cell_h, lines);
    Placement {
        crop_w: crop_w as u32,
        crop_h: crop_h as u32,
        columns: columns as u32,
        rows: rows as u32,
        column: ((terminal.columns - columns) / 2) as u16,
        row: ((lines - rows) / 2) as u16,
    }
}

fn crop_extent(extent: u32, offset: u32, view: u32) -> (r: u32)
    ensures
        r == crop(extent, offset, view as int),
{
    let rest = extent.saturating_sub(offset);
    let shown = if rest < view {
        rest
    } else {
        view
    };
    if shown > 1 {
        shown
    } else {
        1
    }
}

fn cover_cells(crop: u32, cell: u32, cells: u32) -> (r: u32)
    requires
        cell >= 1,
        crop >= 1,
    ensures
        r == covered(crop as int, cell as int, cells as int),
{
    let needed: u32 = (crop - 1) / cell + 1;
    assert(needed == ceil_div(crop as int, cell as int)) by {
        vstd::arithmetic::div_mod::lemma_div_plus_one(crop - 1, cell as int);
    }
    if needed < cells {
        needed
    } else {
        cells
    }
}

/// Places an image of this size, scrolled by the offsets.
pub fn place(
    width: u32,
    height: u32,
    terminal: TerminalSize,
    offset_x: u32,
    offset_y: u32,
) -> (r: Placement)
    ensures
        r == spec_place(width, height, terminal, offset_x, offset_y),
        r.column <= 0x7fff,
        r.row <= 0x7fff,
{
    let (view_w, view_h) = terminal.viewport_pixels();
    let crop_w = crop_extent(width, offset_x, view_w);
    let crop_h = crop_extent(height, offset_y, view_h);
    let (cell_w, cell_h) = terminal.cell_pixels();
    let lines: u32 = terminal.rows.saturating_sub(1) as u32;
    let columns = cover_cells(crop_w, cell_w, terminal.columns as u32);
    let rows = cover_cells(crop_h, cell_h, lines);
    Placement {
        crop_w,
        crop_h,
        columns,
        rows,
        column: ((terminal.columns as u32 - columns) / 2) as u16,
        row: ((lines - rows) / 2) as u16,
    }
}

/// Shows an image that the terminal has.
pub open spec fn placement_sequence(
    image_id: u32,
    offset_x: u32,
    offset_y: u32,
    place: Placement,
) -> Seq<char> {
    move_to_sequence(place.column as int, place.row as int) + "\x1b_Ga=p,i="@ + decimal(
        image_id as nat,
    ) + ",x="@ + decimal(offset_x as nat) + ",y="@ + decimal(offset_y as nat) + ",w="@ + decimal(
        place.crop_w as nat,
    ) + ",h="@ + decimal(place.crop_h as nat) + ",c="@ + decimal(place.columns as nat) + ",r="@
        + decimal(place.rows as nat) + ",C=1,q=2\x1b\\"@
}

fn placement_text(image_id: u32, offset_x: u32, offset_y: u32, place: Placement) -> (r: String)
    requires
        place.column < u16::MAX,
        place.row < u16::MAX,
    ensures
        r@ == placement_sequence(image_id, offset_x, offset_y, place),
{
    let mut text = move_to(place.column, place.row);
    text.append("\x1b_Ga=p,i=");
    append_decimal(&mut text, image_id as u64);
    text.append(",x=");
    append_decimal(&mut text, offset_x as u64);
    text.append(",y=");
    append_decimal(&mut text, offset_y as u64);
    text.append(",w=");
    append_decimal(&mut text, place.crop_w as u64);
    text.append(",h=");
    append_decimal(&mut text, place.crop_h as u64);
    text.append(",c=");
    append_decimal(&mut text, place.columns as u64);
    text.append(",r=");
    append_decimal(&mut text, place.rows as u64);
    text.append(",C=1,q=2\x1b\\");
    text
}

/// What an image shows.
#[verifier::ext_equal]
pub struct Content {
    pub width: u32,
    pub height: u32,
    pub rgba: Seq<u8>,
}

impl View for Bitmap {
    type V = Content;

    open spec fn view(&self) -> Content {
        Content { width: self.width, height: self.height, rgba: self.rgba@ }
    }
}

/// The images that the terminal was sent.
#[verifier::ext_equal]
pub struct KittyState {
    pub next_image_id: u32,
    /// The image on the screen.
    pub visible: Option<(u32, Content)>,
}

/// The number behind `image_id`. Zero is no image.
pub open spec fn following_id(image_id: u32) -> u32 {
    if image_id == u32::MAX {
        1
    } else {
        (image_id + 1) as u32
    }
}

impl KittyState {
    pub open spec fn initial() -> Self {
        KittyState { next_image_id: 1, visible: None }
    }

    /// The image on the screen was the last to be numbered, and no image has
    /// the number zero.
    pub open spec fn valid(self) -> bool {
        &&& self.next_image_id != 0
        &&& self.visible matches Some((id, _)) ==> id != 0 && self.next_image_id == following_id(id)
    }

    /// The image on the screen has this content.
    pub open spec fn shows(self, content: Content) -> bool {
        self.visible matches Some((_, shown)) && shown == content
    }

    /// The state after `content` was drawn.
    pub open spec fn draw(self, content: Content, force: bool) -> Self {
        if self.shows(content) && !force {
            self
        } else {
            KittyState {
                next_image_id: following_id(self.next_image_id),
                visible: Some((self.next_image_id, content)),
            }
        }
    }

    /// The state once the image on the screen was taken off.
    pub open spec fn erase(self) -> Self {
        KittyState { visible: None, ..self }
    }

    /// The image that goes when `content` is drawn.
    pub open spec fn replaced(self, content: Content, force: bool) -> Option<u32> {
        match self.visible {
            Some((id, _)) => if self.shows(content) && !force {
                None
            } else {
                Some(id)
            },
            None => None,
        }
    }

    /// What is written to draw `content`.
    ///
    /// An image that is on the screen already is placed anew. Any other is sent
    /// and placed before the one on the screen is taken off.
    pub open spec fn draw_sequence(
        self,
        content: Content,
        terminal: TerminalSize,
        offset_x: u32,
        offset_y: u32,
        force: bool,
    ) -> Seq<char> {
        let place = spec_place(content.width, content.height, terminal, offset_x, offset_y);
        if self.shows(content) && !force {
            let id = (self.visible->0).0;
            delete_sequence(id) + placement_sequence(id, offset_x, offset_y, place)
        } else {
            let id = self.next_image_id;
            image_sequence(id, content) + placement_sequence(id, offset_x, offset_y, place) + (
            match self.visible {
                Some((old_id, _)) => delete_sequence(old_id),
                None => Seq::empty(),
            })
        }
    }
}

/// Sends an image: its pixels packed, compressed, in base64 and in chunks.
pub open spec fn image_sequence(image_id: u32, content: Content) -> Seq<char> {
    chunked(
        compressed_keys(image_id, content.width, content.height, format_of(content.rgba)),
        base64(zlib(packed(content.rgba))),
    )
}

/// How much was sent of an image.
#[derive(Clone, Copy, Debug, PartialEq, Eq, Structural)]
pub struct Sent {
    pub format: PixelFormat,
    /// Bytes before compression.
    pub raw: usize,
    /// Bytes after compression.
    pub compressed: usize,
    /// Bytes in base64.
    pub encoded: u128,
}

pub open spec fn sent_of(content: Content) -> Sent {
    Sent {
        format: format_of(content.rgba),
        raw: packed(content.rgba).len() as usize,
        compressed: zlib(packed(content.rgba)).len() as usize,
        encoded: base64(zlib(packed(content.rgba))).len() as u128,
    }
}

/// What a drawing comes to.
pub struct Frame {
    /// What to write to the terminal.
    pub bytes: Vec<u8>,
    /// The image that is part of it, where one is.
    pub sent: Option<Sent>,
    /// The image that it takes off the screen in favour of another. Where the
    /// writing breaks off, that one may still be there.
    pub replaced: Option<u32>,
}

struct VisibleImage {
    id: u32,
    bitmap: Bitmap,
}

/// Draws images and keeps account of the one on the screen.
pub struct KittyRenderer {
    next_image_id: u32,
    visible: Option<VisibleImage>,
}

impl View for KittyRenderer {
    type V = KittyState;

    closed spec fn view(&self) -> KittyState {
        KittyState {
            next_image_id: self.next_image_id,
            visible: match self.visible {
                Some(image) => Some((image.id, image.bitmap@)),
                None => None,
            },
        }
    }
}

impl Default for KittyRenderer {
    fn default() -> (r: Self)
        ensures
            r@ == KittyState::initial(),
    {
        KittyRenderer { next_image_id: 1, visible: None }
    }
}

impl KittyRenderer {
    #[verifier::type_invariant]
    spec fn numbered(self) -> bool {
        self@.valid()
    }

    fn showing(&self, bitmap: &Bitmap) -> (r: bool)
        ensures
            r == self@.shows(bitmap@),
    {
        match &self.visible {
            Some(image) => image.bitmap.width == bitmap.width && image.bitmap.height
                == bitmap.height && same_bytes(
                image.bitmap.rgba.as_slice(),
                bitmap.rgba.as_slice(),
            ),
            None => false,
        }
    }

    /// Draws the part of the bitmap that the offsets leave.
    ///
    /// The bitmap is sent only where the image on the screen does not show it,
    /// or where `force_transmit` asks for it.
    pub fn draw(
        &mut self,
        bitmap: &Bitmap,
        terminal: TerminalSize,
        offset_x: u32,
        offset_y: u32,
        force_transmit: bool,
    ) -> (r: Frame)
        ensures
            final(self)@ == old(self)@.draw(bitmap@, force_transmit),
            final(self)@.valid(),
            r.bytes@ == encode_utf8(
                old(self)@.draw_sequence(bitmap@, terminal, offset_x, offset_y, force_transmit),
            ),
            r.sent == if old(self)@.shows(bitmap@) && !force_transmit {
                None
            } else {
                Some(sent_of(bitmap@))
            },
            r.replaced == old(self)@.replaced(bitmap@, force_transmit),
    {
        proof {
            use_type_invariant(&*self);
        }
        let place = place(bitmap.width, bitmap.height, terminal, offset_x, offset_y);
        let reuse = self.showing(bitmap) && !force_transmit;
        let old_id: Option<u32> = match &self.visible {
            Some(image) => Some(image.id),
            None => None,
        };
        if let (true, Some(id)) = (reuse, old_id) {
            let mut text = delete_text(id);
            text.append(placement_text(id, offset_x, offset_y, place).as_str());
            return Frame { bytes: text.as_str().as_bytes_vec(), sent: None, replaced: None };
        }
        let image_id = self.next_image_id;
        let (format, pixels) = pack_pixels(bitmap.rgba.as_slice());
        let compressed = compress(pixels.as_slice());
        let mut text = encode_compressed(
            image_id,
            bitmap.width,
            bitmap.height,
            format,
            compressed.as_slice(),
        );
        text.append(placement_text(image_id, offset_x, offset_y, place).as_str());
        if let Some(id) = old_id {
            text.append(delete_text(id).as_str());
        }
        let next_image_id = if image_id == u32::MAX {
            1
        } else {
            image_id + 1
        };
        let shown = Bitmap {
            width: bitmap.width,
            height: bitmap.height,
            rgba: vstd::slice::slice_to_vec(bitmap.rgba.as_slice()),
        };
        let sent = Sent {
            format,
            raw: pixels.len(),
            compressed: compressed.len(),
            encoded: (compressed.len() as u128 + 2) / 3 * 4,
        };
        proof {
            lemma_base64_len(compressed@);
        }
        *self = KittyRenderer {
            next_image_id,
            visible: Some(VisibleImage { id: image_id, bitmap: shown }),
        };
        assert(self@ =~= old(self)@.draw(bitmap@, force_transmit));
        assert(text@ =~= old(self)@.draw_sequence(
            bitmap@,
            terminal,
            offset_x,
            offset_y,
            force_transmit,
        ));
        Frame { bytes: text.as_str().as_bytes_vec(), sent: Some(sent), replaced: old_id }
    }

    /// Takes the image off the screen, where there is one.
    pub fn delete_visible(&mut self) -> (r: Vec<u8>)
        ensures
            final(self)@ == (KittyState { visible: None, ..old(self)@ }),
            final(self)@ == old(self)@.erase(),
            final(self)@.valid(),
            r@ == match old(self)@.visible {
                Some((id, _)) => encode_utf8(delete_sequence(id)),
                None => Seq::empty(),
            },
    {
        proof {
            use_type_invariant(&*self);
        }
        let bytes = match &self.visible {
            Some(image) => encode_delete(image.id),
            None => Vec::new(),
        };
        self.visible = None;
        bytes
    }
}

} // verus!
