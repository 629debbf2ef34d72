//! What the commands to the terminal say, key by key.

use crate::laws::drawing::{
    framed, holds_pixels, law_chunks_carry_the_payload, law_placement_shows_what_fits, pieces,
    shows_part,
};
use crate::laws::reading::{
    field, gives, law_decimal_reads_back, lemma_decimal_without_comma, lemma_field_alone,
    lemma_field_appended, reads, without_comma,
};
use crate::terminal::ansi::move_to_sequence;
use crate::terminal::kitty::{
    compressed_keys, delete_sequence, format_of, image_sequence, packed, placement_sequence,
    raw_keys, raw_sequence, spec_place, Content, KittyState, Placement, PixelFormat,
};
use crate::terminal::payload::{base64, chunk_sequence, zlib};
use crate::terminal::size::TerminalSize;
use crate::text::decimal;
use vstd::prelude::*;

verus! {

/// A list of items with one more number at its end.
#[verifier::opaque]
spec fn extended(control: Seq<char>, item: char, n: nat) -> Seq<char> {
    control + seq![',', item, '='] + decimal(n)
}

/// A list of items with one more character at its end.
#[verifier::opaque]
spec fn flagged(control: Seq<char>, item: char, flag: char) -> Seq<char> {
    control + seq![',', item, '='] + seq![flag]
}

/// A list of one item, whose value is one character.
#[verifier::opaque]
spec fn started(item: char, flag: char) -> Seq<char> {
    seq![item, '='] + seq![flag]
}

/// What a list gives with one more item at its end.
spec fn appended(
    before: Option<Seq<char>>,
    item: char,
    text: Seq<char>,
    key: char,
) -> Option<Seq<char>> {
    match before {
        Some(found) => Some(found),
        None => if key == item {
            Some(text)
        } else {
            None
        },
    }
}

proof fn lemma_extended(control: Seq<char>, item: char, n: nat)
    requires
        item != ',',
    ensures
        forall|key: char| #[trigger]
            field(extended(control, item, n), key) == appended(
                field(control, key),
                item,
                decimal(n),
                key,
            ),
        reads(decimal(n), n),
{
    reveal(extended);
    law_decimal_reads_back(n);
    lemma_decimal_without_comma(n);
    assert forall|key: char| #[trigger]
        field(extended(control, item, n), key) == appended(
            field(control, key),
            item,
            decimal(n),
            key,
        ) by {
        lemma_field_appended(control, item, decimal(n), key);
    }
}

proof fn lemma_flagged(control: Seq<char>, item: char, flag: char)
    requires
        item != ',',
        flag != ',',
    ensures
        forall|key: char| #[trigger]
            field(flagged(control, item, flag), key) == appended(
                field(control, key),
                item,
                seq![flag],
                key,
            ),
{
    reveal(flagged);
    assert(without_comma(seq![flag]));
    assert forall|key: char| #[trigger]
        field(flagged(control, item, flag), key) == appended(
            field(control, key),
            item,
            seq![flag],
            key,
        ) by {
        lemma_field_appended(control, item, seq![flag], key);
    }
}

proof fn lemma_started(item: char, flag: char)
    requires
        item != ',',
        flag != ',',
    ensures
        forall|key: char| #[trigger]
            field(started(item, flag), key) == appended(None, item, seq![flag], key),
{
    reveal(started);
    assert(without_comma(seq![flag]));
    assert forall|key: char| #[trigger]
        field(started(item, flag), key) == appended(None, item, seq![flag], key) by {
        lemma_field_alone(item, seq![flag], key);
    }
}

proof fn lemma_step(front: Seq<char>, control: Seq<char>, label: Seq<char>, item: char, n: nat)
    requires
        label =~= seq![',', item, '='],
    ensures
        front + control + label + decimal(n) == front + extended(control, item, n),
{
    reveal(extended);
    assert(front + control + label + decimal(n) =~= front + extended(control, item, n));
}

/// The control data of a placement.
spec fn placement_control(image_id: u32, offset_x: u32, offset_y: u32, place: Placement) -> Seq<
    char,
> {
    let c0 = started('a', 'p');
    let c1 = extended(c0, 'i', image_id as nat);
    let c2 = extended(c1, 'x', offset_x as nat);
    let c3 = extended(c2, 'y', offset_y as nat);
    let c4 = extended(c3, 'w', place.crop_w as nat);
    let c5 = extended(c4, 'h', place.crop_h as nat);
    let c6 = extended(c5, 'c', place.columns as nat);
    let c7 = extended(c6, 'r', place.rows as nat);
    flagged(flagged(c7, 'C', '1'), 'q', '2')
}

#[verifier::rlimit(40)]
proof fn lemma_placement_text(image_id: u32, offset_x: u32, offset_y: u32, place: Placement)
    ensures
        placement_sequence(image_id, offset_x, offset_y, place) == move_to_sequence(
            place.column as int,
            place.row as int,
        ) + "\x1b_G"@ + placement_control(image_id, offset_x, offset_y, place) + "\x1b\\"@,
{
    reveal_strlit(",x=");
    reveal_strlit(",y=");
    reveal_strlit(",w=");
    reveal_strlit(",h=");
    reveal_strlit(",c=");
    reveal_strlit(",r=");
    let cursor = move_to_sequence(place.column as int, place.row as int);
    let front = cursor + "\x1b_G"@;
    let c0 = started('a', 'p');
    assert(cursor + "\x1b_Ga=p,i="@ == front + c0 + seq![',', 'i', '=']) by {
        reveal_strlit("\x1b_Ga=p,i=");
        reveal_strlit("\x1b_G");
        reveal(started);
        assert(cursor + "\x1b_Ga=p,i="@ =~= front + c0 + seq![',', 'i', '=']);
    }
    lemma_step(front, c0, seq![',', 'i', '='], 'i', image_id as nat);
    let c1 = extended(c0, 'i', image_id as nat);
    lemma_step(front, c1, ",x="@, 'x', offset_x as nat);
    let c2 = extended(c1, 'x', offset_x as nat);
    lemma_step(front, c2, ",y="@, 'y', offset_y as nat);
    let c3 = extended(c2, 'y', offset_y as nat);
    lemma_step(front, c3, ",w="@, 'w', place.crop_w as nat);
    let c4 = extended(c3, 'w', place.crop_w as nat);
    lemma_step(front, c4, ",h="@, 'h', place.crop_h as nat);
    let c5 = extended(c4, 'h', place.crop_h as nat);
    lemma_step(front, c5, ",c="@, 'c', place.columns as nat);
    let c6 = extended(c5, 'c', place.columns as nat);
    lemma_step(front, c6, ",r="@, 'r', place.rows as nat);
    let c7 = extended(c6, 'r', place.rows as nat);
    let control = placement_control(image_id, offset_x, offset_y, place);
    assert(front + c7 + ",C=1,q=2\x1b\\"@ == front + control + "\x1b\\"@) by {
        lemma_placement_end(front, c7);
    }
}

proof fn lemma_placement_end(front: Seq<char>, control: Seq<char>)
    ensures
        front + control + ",C=1,q=2\x1b\\"@ == front + flagged(
            flagged(control, 'C', '1'),
            'q',
            '2',
        ) + "\x1b\\"@,
{
    reveal_strlit(",C=1,q=2\x1b\\");
    reveal_strlit("\x1b\\");
    reveal(flagged);
    assert(front + control + ",C=1,q=2\x1b\\"@ =~= front + flagged(
        flagged(control, 'C', '1'),
        'q',
        '2',
    ) + "\x1b\\"@);
}

/// A placement moves the cursor to the cell, and then names the image (`i`), the
/// part of it that is shown (from `x`, `y`, `w` wide and `h` high) and the cells
/// that it covers (`c` columns and `r` rows). The cursor stays where it is (`C`),
/// and no answer is asked for (`q`). It says nothing else.
#[verifier::rlimit(40)]
pub proof fn law_placement_command(
    image_id: u32,
    offset_x: u32,
    offset_y: u32,
    place: Placement,
) -> (control: Seq<char>)
    ensures
        placement_sequence(image_id, offset_x, offset_y, place) == move_to_sequence(
            place.column as int,
            place.row as int,
        ) + "\x1b_G"@ + control + "\x1b\\"@,
        field(control, 'a') == Some(seq!['p']),
        gives(control, 'i', image_id as nat),
        gives(control, 'x', offset_x as nat),
        gives(control, 'y', offset_y as nat),
        gives(control, 'w', place.crop_w as nat),
        gives(control, 'h', place.crop_h as nat),
        gives(control, 'c', place.columns as nat),
        gives(control, 'r', place.rows as nat),
        field(control, 'C') == Some(seq!['1']),
        field(control, 'q') == Some(seq!['2']),
        forall|key: char|
            !seq!['a', 'i', 'x', 'y', 'w', 'h', 'c', 'r', 'C', 'q'].contains(key)
                ==> #[trigger] field(control, key) is None,
{
    lemma_placement_text(image_id, offset_x, offset_y, place);
    let c0 = started('a', 'p');
    lemma_started('a', 'p');
    lemma_extended(c0, 'i', image_id as nat);
    let c1 = extended(c0, 'i', image_id as nat);
    lemma_extended(c1, 'x', offset_x as nat);
    let c2 = extended(c1, 'x', offset_x as nat);
    lemma_extended(c2, 'y', offset_y as nat);
    let c3 = extended(c2, 'y', offset_y as nat);
    lemma_extended(c3, 'w', place.crop_w as nat);
    let c4 = extended(c3, 'w', place.crop_w as nat);
    lemma_extended(c4, 'h', place.crop_h as nat);
    let c5 = extended(c4, 'h', place.crop_h as nat);
    lemma_extended(c5, 'c', place.columns as nat);
    let c6 = extended(c5, 'c', place.columns as nat);
    lemma_extended(c6, 'r', place.rows as nat);
    let c7 = extended(c6, 'r', place.rows as nat);
    lemma_flagged(c7, 'C', '1');
    lemma_flagged(flagged(c7, 'C', '1'), 'q', '2');
    let keys = seq!['a', 'i', 'x', 'y', 'w', 'h', 'c', 'r', 'C', 'q'];
    assert(keys[0] == 'a' && keys[1] == 'i' && keys[2] == 'x' && keys[3] == 'y' && keys[4] == 'w'
        && keys[5] == 'h' && keys[6] == 'c' && keys[7] == 'r' && keys[8] == 'C' && keys[9] == 'q');
    placement_control(image_id, offset_x, offset_y, place)
}

/// A deletion takes off the screen (`d=i`) the image with one number (`i`), and
/// asks for no answer. It says nothing else.
#[verifier::rlimit(40)]
pub proof fn law_delete_command(image_id: u32) -> (control: Seq<char>)
    ensures
        delete_sequence(image_id) == "\x1b_G"@ + control + "\x1b\\"@,
        field(control, 'a') == Some(seq!['d']),
        field(control, 'd') == Some(seq!['i']),
        gives(control, 'i', image_id as nat),
        field(control, 'q') == Some(seq!['2']),
        forall|key: char|
            !seq!['a', 'd', 'i', 'q'].contains(key) ==> #[trigger] field(control, key) is None,
{
    reveal(extended);
    reveal(flagged);
    reveal(started);
    reveal_strlit("\x1b_Ga=d,d=i,i=");
    reveal_strlit("\x1b_G");
    reveal_strlit(",q=2\x1b\\");
    reveal_strlit("\x1b\\");
    let front = "\x1b_G"@;
    lemma_started('a', 'd');
    let c0 = started('a', 'd');
    lemma_flagged(c0, 'd', 'i');
    let c1 = flagged(c0, 'd', 'i');
    assert("\x1b_Ga=d,d=i,i="@ =~= front + c1 + seq![',', 'i', '=']);
    lemma_step(front, c1, seq![',', 'i', '='], 'i', image_id as nat);
    lemma_extended(c1, 'i', image_id as nat);
    let c2 = extended(c1, 'i', image_id as nat);
    lemma_flagged(c2, 'q', '2');
    let control = flagged(c2, 'q', '2');
    assert(delete_sequence(image_id) == front + c2 + ",q=2\x1b\\"@);
    assert(front + c2 + ",q=2\x1b\\"@ =~= front + control + "\x1b\\"@);
    let keys = seq!['a', 'd', 'i', 'q'];
    assert(keys[0] == 'a' && keys[1] == 'd' && keys[2] == 'i' && keys[3] == 'q');
    control
}

/// Whether more chunks follow.
pub open spec fn more_flag(more: bool) -> char {
    if more {
        '1'
    } else {
        '0'
    }
}

/// A chunk that goes on with an image says only whether more follow (`m`), and
/// holds its payload behind a semicolon.
pub proof fn law_continuation_command(more: bool, payload: Seq<char>) -> (control: Seq<char>)
    ensures
        chunk_sequence(Seq::empty(), more, payload) == "\x1b_G"@ + control + ";"@ + payload
            + "\x1b\\"@,
        field(control, 'm') == Some(seq![more_flag(more)]),
        forall|key: char| key != 'm' ==> #[trigger] field(control, key) is None,
{
    reveal(extended);
    reveal(flagged);
    reveal(started);
    reveal_strlit("m=1;");
    reveal_strlit("m=0;");
    reveal_strlit(";");
    lemma_started('m', '1');
    lemma_started('m', '0');
    let control = started('m', more_flag(more));
    assert(chunk_sequence(Seq::empty(), more, payload) =~= "\x1b_G"@ + control + ";"@ + payload
        + "\x1b\\"@);
    control
}

/// The keys with the flag that more chunks follow behind them.
proof fn lemma_first_chunk(keys: Seq<char>, control: Seq<char>, more: bool, payload: Seq<char>)
    requires
        keys == control + seq![','],
    ensures
        ({
            let whole = flagged(control, 'm', more_flag(more));
            &&& chunk_sequence(keys, more, payload) == "\x1b_G"@ + whole + ";"@ + payload
                + "\x1b\\"@
            &&& forall|key: char| #[trigger]
                field(whole, key) == appended(field(control, key), 'm', seq![more_flag(more)], key)
        }),
{
    reveal(extended);
    reveal(flagged);
    reveal(started);
    reveal_strlit("m=1;");
    reveal_strlit("m=0;");
    reveal_strlit(";");
    lemma_flagged(control, 'm', '1');
    lemma_flagged(control, 'm', '0');
    let whole = flagged(control, 'm', more_flag(more));
    assert(keys + seq!['m', '=', more_flag(more)] =~= whole);
    assert(chunk_sequence(keys, more, payload) =~= "\x1b_G"@ + whole + ";"@ + payload + "\x1b\\"@);
}

#[verifier::rlimit(40)]
proof fn lemma_sizes(control: Seq<char>, width: u32, height: u32, image_id: u32) -> (whole: Seq<
    char,
>)
    ensures
        control + ",s="@ + decimal(width as nat) + ",v="@ + decimal(height as nat) + ",i="@
            + decimal(image_id as nat) + ",q=2,"@ == whole + seq![','],
        forall|key: char| #[trigger]
            field(whole, key) == appended(
                appended(
                    appended(
                        appended(field(control, key), 's', decimal(width as nat), key),
                        'v',
                        decimal(height as nat),
                        key,
                    ),
                    'i',
                    decimal(image_id as nat),
                    key,
                ),
                'q',
                seq!['2'],
                key,
            ),
        reads(decimal(width as nat), width as nat),
        reads(decimal(height as nat), height as nat),
        reads(decimal(image_id as nat), image_id as nat),
{
    reveal(extended);
    reveal(flagged);
    reveal(started);
    reveal_strlit(",s=");
    reveal_strlit(",v=");
    reveal_strlit(",i=");
    reveal_strlit(",q=2,");
    let none = Seq::<char>::empty();
    assert(none + control =~= control);
    lemma_step(none, control, ",s="@, 's', width as nat);
    lemma_extended(control, 's', width as nat);
    let c1 = extended(control, 's', width as nat);
    assert(none + c1 =~= c1);
    lemma_step(none, c1, ",v="@, 'v', height as nat);
    lemma_extended(c1, 'v', height as nat);
    let c2 = extended(c1, 'v', height as nat);
    assert(none + c2 =~= c2);
    lemma_step(none, c2, ",i="@, 'i', image_id as nat);
    lemma_extended(c2, 'i', image_id as nat);
    let c3 = extended(c2, 'i', image_id as nat);
    assert(none + c3 =~= c3);
    lemma_flagged(c3, 'q', '2');
    let whole = flagged(c3, 'q', '2');
    assert(c3 + ",q=2,"@ =~= whole + seq![',']);
    whole
}

/// The first chunk of a compressed image says that it is sent (`a=t`) as a zlib
/// stream (`o=z`), with three or four bytes to the pixel (`f`), how wide (`s`)
/// and how high (`v`) it is, under which number (`i`), that no answer is asked
/// for (`q`), and whether more follow (`m`). It says nothing else.
#[verifier::rlimit(40)]
pub proof fn law_compressed_command(
    image_id: u32,
    width: u32,
    height: u32,
    format: PixelFormat,
    more: bool,
    payload: Seq<char>,
) -> (control: Seq<char>)
    ensures
        chunk_sequence(compressed_keys(image_id, width, height, format), more, payload)
            == "\x1b_G"@ + control + ";"@ + payload + "\x1b\\"@,
        field(control, 'a') == Some(seq!['t']),
        gives(
            control,
            'f',
            match format {
                PixelFormat::Rgb24 => 24,
                PixelFormat::Rgba32 => 32,
            },
        ),
        field(control, 'o') == Some(seq!['z']),
        gives(control, 's', width as nat),
        gives(control, 'v', height as nat),
        gives(control, 'i', image_id as nat),
        field(control, 'q') == Some(seq!['2']),
        field(control, 'm') == Some(seq![more_flag(more)]),
        forall|key: char|
            !seq!['a', 'f', 'o', 's', 'v', 'i', 'q', 'm'].contains(key) ==> #[trigger] field(
                control,
                key,
            ) is None,
{
    reveal(extended);
    reveal(flagged);
    reveal(started);
    reveal_strlit("a=t,f=24,o=z,s=");
    reveal_strlit("a=t,f=32,o=z,s=");
    reveal_strlit(",s=");
    let bits: nat = match format {
        PixelFormat::Rgb24 => 24,
        PixelFormat::Rgba32 => 32,
    };
    lemma_started('a', 't');
    let c0 = started('a', 't');
    lemma_extended(c0, 'f', bits);
    let c1 = extended(c0, 'f', bits);
    lemma_flagged(c1, 'o', 'z');
    let c2 = flagged(c1, 'o', 'z');
    reveal_with_fuel(decimal, 3);
    assert(decimal(24) =~= seq!['2', '4']);
    assert(decimal(32) =~= seq!['3', '2']);
    let start = match format {
        PixelFormat::Rgb24 => "a=t,f=24,o=z,s="@,
        PixelFormat::Rgba32 => "a=t,f=32,o=z,s="@,
    };
    assert(start =~= c2 + ",s="@);
    let control = lemma_sizes(c2, width, height, image_id);
    let keys = compressed_keys(image_id, width, height, format);
    lemma_first_chunk(keys, control, more, payload);
    let named = seq!['a', 'f', 'o', 's', 'v', 'i', 'q', 'm'];
    assert(named[0] == 'a' && named[1] == 'f' && named[2] == 'o' && named[3] == 's' && named[4]
        == 'v' && named[5] == 'i' && named[6] == 'q' && named[7] == 'm');
    flagged(control, 'm', more_flag(more))
}

/// The first chunk of an image that is not compressed says the same without the
/// zlib stream, and has four bytes to the pixel.
#[verifier::rlimit(40)]
pub proof fn law_raw_command(
    image_id: u32,
    width: u32,
    height: u32,
    more: bool,
    payload: Seq<char>,
) -> (control: Seq<char>)
    ensures
        chunk_sequence(raw_keys(image_id, width, height), more, payload) == "\x1b_G"@ + control
            + ";"@ + payload + "\x1b\\"@,
        field(control, 'a') == Some(seq!['t']),
        gives(control, 'f', 32),
        gives(control, 's', width as nat),
        gives(control, 'v', height as nat),
        gives(control, 'i', image_id as nat),
        field(control, 'q') == Some(seq!['2']),
        field(control, 'm') == Some(seq![more_flag(more)]),
        forall|key: char|
            !seq!['a', 'f', 's', 'v', 'i', 'q', 'm'].contains(key) ==> #[trigger] field(
                control,
                key,
            ) is None,
{
    reveal(extended);
    reveal(flagged);
    reveal(started);
    reveal_strlit("a=t,f=32,s=");
    reveal_strlit(",s=");
    lemma_started('a', 't');
    let c0 = started('a', 't');
    lemma_extended(c0, 'f', 32);
    let c1 = extended(c0, 'f', 32);
    reveal_with_fuel(decimal, 3);
    assert(decimal(32) =~= seq!['3', '2']);
    assert("a=t,f=32,s="@ =~= c1 + ",s="@);
    let control = lemma_sizes(c1, width, height, image_id);
    let keys = raw_keys(image_id, width, height);
    lemma_first_chunk(keys, control, more, payload);
    let named = seq!['a', 'f', 's', 'v', 'i', 'q', 'm'];
    assert(named[0] == 'a' && named[1] == 'f' && named[2] == 's' && named[3] == 'v' && named[4]
        == 'i' && named[5] == 'q' && named[6] == 'm');
    flagged(control, 'm', more_flag(more))
}

/// An image is sent in chunks that taken together hold its pixels, compressed and
/// in base64. The first one says what the image is, and the others go on with it.
pub proof fn law_image_is_sent_whole(image_id: u32, content: Content) -> (chunks: Seq<Seq<char>>)
    ensures
        image_sequence(image_id, content) == chunks.flatten(),
        ({
            let payloads = pieces(base64(zlib(packed(content.rgba))));
            &&& payloads.flatten() == base64(zlib(packed(content.rgba)))
            &&& chunks.len() == payloads.len()
            &&& forall|i: int|
                0 < i < chunks.len() ==> #[trigger] chunks[i] == chunk_sequence(
                    Seq::empty(),
                    i + 1 < chunks.len(),
                    payloads[i],
                )
            &&& chunks.len() > 0 ==> chunks[0] == chunk_sequence(
                compressed_keys(
                    image_id,
                    content.width,
                    content.height,
                    format_of(content.rgba),
                ),
                1 < chunks.len(),
                payloads[0],
            )
        }),
{
    let keys = compressed_keys(image_id, content.width, content.height, format_of(content.rgba));
    let payload = base64(zlib(packed(content.rgba)));
    law_chunks_carry_the_payload(keys, payload);
    framed(keys, pieces(payload))
}

/// An image that is not compressed is sent in the same way, with its bytes as they
/// are.
pub proof fn law_raw_image_is_sent_whole(
    image_id: u32,
    width: u32,
    height: u32,
    rgba: Seq<u8>,
) -> (chunks: Seq<Seq<char>>)
    ensures
        raw_sequence(image_id, width, height, rgba) == chunks.flatten(),
        ({
            let payloads = pieces(base64(rgba));
            &&& payloads.flatten() == base64(rgba)
            &&& chunks.len() == payloads.len()
            &&& forall|i: int|
                0 < i < chunks.len() ==> #[trigger] chunks[i] == chunk_sequence(
                    Seq::empty(),
                    i + 1 < chunks.len(),
                    payloads[i],
                )
            &&& chunks.len() > 0 ==> chunks[0] == chunk_sequence(
                raw_keys(image_id, width, height),
                1 < chunks.len(),
                payloads[0],
            )
        }),
{
    let keys = raw_keys(image_id, width, height);
    law_chunks_carry_the_payload(keys, base64(rgba));
    framed(keys, pieces(base64(rgba)))
}

/// Whatever is drawn, the image on the screen afterwards is placed once: its
/// number, the offsets, the part that is shown and the cells that it covers stand
/// under the keys that the terminal reads them from. Before that an image that was
/// not on the screen is sent, and one that was is taken off; behind it the image
/// that another one replaced is taken off.
#[verifier::rlimit(40)]
pub proof fn law_drawing_places_the_page(
    state: KittyState,
    content: Content,
    terminal: TerminalSize,
    offset_x: u32,
    offset_y: u32,
    force: bool,
) -> (control: Seq<char>)
    requires
        state.valid(),
    ensures
        ({
            let id = (state.draw(content, force).visible->0).0;
            let place = spec_place(content.width, content.height, terminal, offset_x, offset_y);
            let fresh = force || !state.shows(content);
            let before = if fresh {
                image_sequence(id, content)
            } else {
                delete_sequence(id)
            };
            let after = if fresh && state.visible is Some {
                delete_sequence((state.visible->0).0)
            } else {
                Seq::empty()
            };
            &&& state.draw_sequence(content, terminal, offset_x, offset_y, force) == before + (
            move_to_sequence(place.column as int, place.row as int) + "\x1b_G"@ + control
                + "\x1b\\"@) + after
            &&& field(control, 'a') == Some(seq!['p'])
            &&& gives(control, 'i', id as nat)
            &&& gives(control, 'x', offset_x as nat)
            &&& gives(control, 'y', offset_y as nat)
            &&& gives(control, 'w', place.crop_w as nat)
            &&& gives(control, 'h', place.crop_h as nat)
            &&& gives(control, 'c', place.columns as nat)
            &&& gives(control, 'r', place.rows as nat)
            &&& shows_part(
                content.width as int,
                offset_x as int,
                terminal.spec_viewport_pixels().0,
                place.crop_w as int,
            )
            &&& shows_part(
                content.height as int,
                offset_y as int,
                terminal.spec_viewport_pixels().1,
                place.crop_h as int,
            )
            &&& holds_pixels(
                place.columns as int,
                terminal.spec_cell_pixels().0,
                place.crop_w as int,
                terminal.columns as int,
            )
            &&& holds_pixels(
                place.rows as int,
                terminal.spec_cell_pixels().1,
                place.crop_h as int,
                if terminal.rows == 0 {
                    0
                } else {
                    terminal.rows - 1
                },
            )
        }),
{
    let id = (state.draw(content, force).visible->0).0;
    let place = spec_place(content.width, content.height, terminal, offset_x, offset_y);
    law_placement_shows_what_fits(content.width, content.height, terminal, offset_x, offset_y);
    let control = law_placement_command(id, offset_x, offset_y, place);
    let placed = placement_sequence(id, offset_x, offset_y, place);
    if force || !state.shows(content) {
        assert(image_sequence(id, content) + placed + Seq::<char>::empty() =~= image_sequence(
            id,
            content,
        ) + placed);
    } else {
        assert(delete_sequence(id) + placed + Seq::<char>::empty() =~= delete_sequence(id)
            + placed);
    }
    control
}

} // verus!
