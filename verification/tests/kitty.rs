use std::io::Read;
use tpdf::pdf::renderer::Bitmap;
use tpdf::terminal::kitty::{
    encode_compressed, encode_delete, encode_transmission, pack_pixels, place, KittyRenderer,
    PixelFormat, Placement,
};
use tpdf::terminal::session::TerminalSession;
use tpdf::terminal::size::TerminalSize;

use base64::Engine;

fn size() -> TerminalSize {
    TerminalSize::new(100, 41, 800, 820)
}

fn bitmap(fill: u8, alpha: u8) -> Bitmap {
    let mut rgba = Vec::new();
    for _ in 0..16 {
        rgba.extend_from_slice(&[fill, fill, fill, alpha]);
    }
    Bitmap { width: 4, height: 4, rgba }
}

/// The keys of the first chunk, and the payload of all of them.
fn take_apart(text: &str) -> (String, Vec<u8>, Vec<usize>) {
    let mut keys = String::new();
    let mut payload = String::new();
    let mut lengths = Vec::new();
    let chunks: Vec<&str> = text.split("\x1b\\").filter(|chunk| !chunk.is_empty()).collect();
    for (i, chunk) in chunks.iter().enumerate() {
        let chunk = chunk.strip_prefix("\x1b_G").unwrap();
        let (head, data) = chunk.split_once(';').unwrap();
        let more = if i + 1 < chunks.len() { "m=1" } else { "m=0" };
        assert!(head.ends_with(more));
        if i == 0 {
            keys = head.to_string();
        } else {
            assert_eq!(head, more);
        }
        lengths.push(data.len());
        payload.push_str(data);
    }
    let bytes = base64::engine::general_purpose::STANDARD.decode(payload).unwrap();
    (keys, bytes, lengths)
}

fn inflate(bytes: &[u8]) -> Vec<u8> {
    let mut out = Vec::new();
    flate2::read::ZlibDecoder::new(bytes).read_to_end(&mut out).unwrap();
    out
}

#[test]
fn raw_rgba_transmission_has_dimensions_and_chunks() {
    let rgba = vec![255; 4 * 40 * 40];
    let command = encode_transmission(7, 40, 40, &rgba);
    let text = String::from_utf8(command).unwrap();
    assert!(text.starts_with("\x1b_Ga=t,f=32,s=40,v=40,i=7,q=2,m=1;"));
    assert!(text.contains("\x1b_Gm=0;"));
    assert!(text.ends_with("\x1b\\"));
}

#[test]
fn delete_targets_only_our_image_id() {
    assert_eq!(encode_delete(42), b"\x1b_Ga=d,d=i,i=42,q=2\x1b\\".to_vec());
}

#[test]
fn numbers_are_written_in_decimal() {
    assert_eq!(encode_delete(0), b"\x1b_Ga=d,d=i,i=0,q=2\x1b\\".to_vec());
    assert_eq!(encode_delete(10), b"\x1b_Ga=d,d=i,i=10,q=2\x1b\\".to_vec());
    assert_eq!(
        encode_delete(u32::MAX),
        b"\x1b_Ga=d,d=i,i=4294967295,q=2\x1b\\".to_vec(),
    );
}

#[test]
fn transmissions_hold_the_data() {
    for length in [0usize, 1, 2, 3, 4, 100, 3071, 3072, 3073, 6143, 6144, 6145, 10_000] {
        let data: Vec<u8> = (0..length).map(|i| (i * 7 + i / 251) as u8).collect();
        let text = String::from_utf8(encode_transmission(3, 5, 6, &data)).unwrap();
        if length == 0 {
            assert_eq!(text, "");
            continue;
        }
        let (keys, bytes, lengths) = take_apart(&text);
        assert!(keys.starts_with("a=t,f=32,s=5,v=6,i=3,q=2,m="));
        assert_eq!(bytes, data);
        let (last, others) = lengths.split_last().unwrap();
        assert!(*last > 0 && *last <= 4096 && last % 4 == 0);
        assert!(others.iter().all(|length| *length == 4096));
    }
}

#[test]
fn a_short_transmission_reads() {
    assert_eq!(
        encode_transmission(1, 1, 1, &[255, 0, 16, 128]),
        b"\x1b_Ga=t,f=32,s=1,v=1,i=1,q=2,m=0;/wAQgA==\x1b\\".to_vec(),
    );
}

#[test]
fn opaque_pixels_are_packed() {
    assert_eq!(
        pack_pixels(&[1, 2, 3, 255, 4, 5, 6, 255]),
        (PixelFormat::Rgb24, vec![1, 2, 3, 4, 5, 6]),
    );
    assert_eq!(
        pack_pixels(&[1, 2, 3, 255, 4, 5, 6, 254]),
        (PixelFormat::Rgba32, vec![1, 2, 3, 255, 4, 5, 6, 254]),
    );
    assert_eq!(pack_pixels(&[]), (PixelFormat::Rgb24, vec![]));
    assert_eq!(pack_pixels(&[255, 255]), (PixelFormat::Rgba32, vec![255, 255]));
}

#[test]
fn compressed_transmissions_name_their_format() {
    assert_eq!(
        encode_compressed(9, 2, 3, PixelFormat::Rgb24, b"abc"),
        "\x1b_Ga=t,f=24,o=z,s=2,v=3,i=9,q=2,m=0;YWJj\x1b\\",
    );
    assert_eq!(
        encode_compressed(9, 2, 3, PixelFormat::Rgba32, b"ab"),
        "\x1b_Ga=t,f=32,o=z,s=2,v=3,i=9,q=2,m=0;YWI=\x1b\\",
    );
}

#[test]
fn placements_are_centred() {
    // Cells of 8 by 20 pixels, 40 lines of them above the status line.
    assert_eq!(
        place(400, 800, size(), 0, 0),
        Placement { crop_w: 400, crop_h: 800, columns: 50, rows: 40, column: 25, row: 0 },
    );
    assert_eq!(
        place(1000, 101, size(), 0, 0),
        Placement { crop_w: 800, crop_h: 101, columns: 100, rows: 6, column: 0, row: 17 },
    );
    assert_eq!(
        place(1000, 1000, size(), 300, 900),
        Placement { crop_w: 700, crop_h: 100, columns: 88, rows: 5, column: 6, row: 17 },
    );
    assert_eq!(
        place(10, 10, size(), 20, 20),
        Placement { crop_w: 1, crop_h: 1, columns: 1, rows: 1, column: 49, row: 19 },
    );
}

#[test]
fn placements_stay_on_screen() {
    for width in [0u32, 1, 7, 8, 9, 799, 800, 801, 5000, u32::MAX] {
        for offset in [0u32, 1, 100, 799, 6000, u32::MAX] {
            for terminal in [size(), TerminalSize::new(0, 0, 0, 0), TerminalSize::new(3, 1, 2, 2)] {
                let place = place(width, width, terminal, offset, offset);
                assert!(u32::from(place.column) + place.columns <= u32::from(terminal.columns));
                assert!(
                    u32::from(place.row) + place.rows
                        <= u32::from(terminal.rows.saturating_sub(1))
                );
                assert!(offset >= width || offset + place.crop_w <= width);
            }
        }
    }
}

#[test]
fn a_first_drawing_sends_and_places() {
    let mut kitty = KittyRenderer::default();
    let image = bitmap(7, 255);
    let frame = kitty.draw(&image, size(), 0, 0, false);
    let text = String::from_utf8(frame.bytes).unwrap();
    let place = "\x1b[20;50H\x1b_Ga=p,i=1,x=0,y=0,w=4,h=4,c=1,r=1,C=1,q=2\x1b\\";
    let sent = text.strip_suffix(place).unwrap();
    let payload = sent.strip_suffix("\x1b\\").unwrap().split_once(';').unwrap().1;
    let (keys, bytes, _) = take_apart(sent);
    assert_eq!(keys, "a=t,f=24,o=z,s=4,v=4,i=1,q=2,m=0");
    assert_eq!(inflate(&bytes), vec![7; 48]);
    let sent = frame.sent.unwrap();
    assert_eq!(sent.format, PixelFormat::Rgb24);
    assert_eq!(sent.raw, 48);
    assert_eq!(sent.compressed, bytes.len());
    assert_eq!(sent.encoded, payload.len() as u128);
}

#[test]
fn pixels_with_alpha_stay_whole() {
    let mut kitty = KittyRenderer::default();
    let image = bitmap(7, 9);
    let frame = kitty.draw(&image, size(), 0, 0, false);
    let text = String::from_utf8(frame.bytes).unwrap();
    let (sent, _) = text.split_once("\x1b[").unwrap();
    let (keys, bytes, _) = take_apart(sent);
    assert!(keys.starts_with("a=t,f=32,o=z,"));
    assert_eq!(inflate(&bytes), image.rgba);
}

#[test]
fn an_unchanged_image_is_placed_anew() {
    let mut kitty = KittyRenderer::default();
    let image = bitmap(7, 255);
    kitty.draw(&image, size(), 0, 0, false);
    let frame = kitty.draw(&image, size(), 2, 0, false);
    assert!(frame.sent.is_none());
    assert_eq!(
        String::from_utf8(frame.bytes).unwrap(),
        "\x1b_Ga=d,d=i,i=1,q=2\x1b\\\
         \x1b[20;50H\x1b_Ga=p,i=1,x=2,y=0,w=2,h=4,c=1,r=1,C=1,q=2\x1b\\",
    );
}

#[test]
fn a_new_image_is_placed_before_the_old_one_goes() {
    let mut kitty = KittyRenderer::default();
    kitty.draw(&bitmap(7, 255), size(), 0, 0, false);
    let frame = kitty.draw(&bitmap(8, 255), size(), 0, 0, false);
    assert!(frame.sent.is_some());
    let text = String::from_utf8(frame.bytes).unwrap();
    let sent = text.find("a=t,f=24,o=z,s=4,v=4,i=2,").unwrap();
    let placed = text.find("a=p,i=2,").unwrap();
    let deleted = text.find("a=d,d=i,i=1,").unwrap();
    assert!(sent < placed && placed < deleted);
}

#[test]
fn a_forced_drawing_sends_again() {
    let mut kitty = KittyRenderer::default();
    let image = bitmap(7, 255);
    kitty.draw(&image, size(), 0, 0, false);
    let frame = kitty.draw(&image, size(), 0, 0, true);
    assert!(frame.sent.is_some());
    let text = String::from_utf8(frame.bytes).unwrap();
    assert!(text.starts_with("\x1b_Ga=t,f=24,o=z,s=4,v=4,i=2,"));
    assert!(text.ends_with("\x1b_Ga=d,d=i,i=1,q=2\x1b\\"));
}

#[test]
fn an_image_of_another_shape_is_another_image() {
    let mut kitty = KittyRenderer::default();
    kitty.draw(&bitmap(7, 255), size(), 0, 0, false);
    let mut image = bitmap(7, 255);
    image.width = 8;
    image.height = 2;
    assert!(kitty.draw(&image, size(), 0, 0, false).sent.is_some());
}

#[test]
fn the_visible_image_is_deleted_once() {
    let mut kitty = KittyRenderer::default();
    assert!(kitty.delete_visible().is_empty());
    kitty.draw(&bitmap(7, 255), size(), 0, 0, false);
    assert_eq!(kitty.delete_visible(), b"\x1b_Ga=d,d=i,i=1,q=2\x1b\\".to_vec());
    assert!(kitty.delete_visible().is_empty());
    let frame = kitty.draw(&bitmap(7, 255), size(), 0, 0, false);
    assert!(frame.sent.is_some());
    assert!(String::from_utf8(frame.bytes).unwrap().contains("i=2,"));
}

#[test]
fn a_session_takes_the_screen_and_gives_it_back() {
    let (mut session, start) = TerminalSession::enter();
    assert_eq!(start, b"\x1b[?1049h\x1b[?25l".to_vec());
    session.draw_image(&bitmap(7, 255), size(), 0, 0, false);
    let closing = session.restore();
    assert_eq!(closing.image, b"\x1b_Ga=d,d=i,i=1,q=2\x1b\\".to_vec());
    assert_eq!(closing.cursor, b"\x1b[?25h".to_vec());
    assert_eq!(closing.screen, b"\x1b[?1049l".to_vec());
    let again = session.restore();
    assert!(again.image.is_empty());
    assert_eq!((again.cursor, again.screen), (closing.cursor, closing.screen));
}

#[test]
fn a_drawing_names_the_image_that_it_replaces() {
    let mut kitty = KittyRenderer::default();
    assert_eq!(kitty.draw(&bitmap(7, 255), size(), 0, 0, false).replaced, None);
    assert_eq!(kitty.draw(&bitmap(7, 255), size(), 3, 0, false).replaced, None);
    assert_eq!(kitty.draw(&bitmap(8, 255), size(), 0, 0, false).replaced, Some(1));
    assert_eq!(kitty.draw(&bitmap(8, 255), size(), 0, 0, true).replaced, Some(2));
}
