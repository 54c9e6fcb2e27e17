use bardecoder::decode::{Decode, QRDecoderWithInfo};
use qrmog::codec::Ecc;
use qrmog::mapper::{
    embed_pattern, fake_code, flip_bit, last_diff, map_from_variants, map_positions, padding_bytes,
    paint_padding, splice_padding,
};
use qrmog::qr::QR;
use qrmog::template::Template;

fn read_mapped(q: &QR) -> Result<(String, u32), String> {
    let grid = bardecoder::util::qr::QRData::new(q.data.clone(), q.version);
    match QRDecoderWithInfo::new().decode(Ok(grid)) {
        Ok((text, info)) => Ok((text, info.errors)),
        Err(e) => Err(e.msg),
    }
}


#[test]
fn flip_bit_toggles_one_bit() {
    let mut pad = vec![0u8, 0u8];
    flip_bit(&mut pad, 0);
    assert_eq!(pad, vec![1, 0]);
    flip_bit(&mut pad, 11);
    assert_eq!(pad, vec![1, 8]);
    flip_bit(&mut pad, 11);
    assert_eq!(pad, vec![1, 0]);
    flip_bit(&mut pad, 0);
    assert_eq!(pad, vec![0, 0]);
}

#[test]
fn last_diff_keeps_last_in_column_scan() {
    // 3x3 grids, row by row
    let base = vec![false; 9];
    let mut other = base.clone();
    assert_eq!(last_diff(&base, &other, 3), None);
    other[1] = true; // x = 1, y = 0
    other[3] = true; // x = 0, y = 1
    // columns are scanned left to right, so (1, 0) comes after (0, 1)
    assert_eq!(last_diff(&base, &other, 3), Some((1, 0, false)));
    other[8] = true; // x = 2, y = 2
    assert_eq!(last_diff(&base, &other, 3), Some((2, 2, false)));
    let lit = vec![true; 9];
    assert_eq!(last_diff(&lit, &base, 3), Some((2, 2, true)));
}

#[test]
fn map_from_variants_per_bit() {
    let base = vec![false; 4];
    let variants = vec![vec![true, false, false, false], vec![false; 4], vec![false, false, false, true]];
    let map = map_from_variants(&base, &variants, 2);
    assert_eq!(map, vec![Some((0, 0, false)), None, Some((1, 1, false))]);
}

#[test]
fn paint_sets_bits_where_colors_disagree() {
    let tpl = Template::mog();
    // (2, 1) wants light, (2, 0) wants dark
    let map = vec![Some((2, 1, false)), Some((2, 1, true)), None, Some((2, 0, true)), Some((2, 0, false))];
    let pad = paint_padding(&map, &tpl, 2);
    assert_eq!(pad, vec![0b0000_1001, 0]);
}

#[test]
fn padding_capacity() {
    assert_eq!(padding_bytes(800, 10), Some(85));
    assert_eq!(padding_bytes(808, 10), Some(86));
    assert_eq!(padding_bytes(799, 10), Some(84));
    assert_eq!(padding_bytes(120, 10), Some(0));
    assert_eq!(padding_bytes(119, 10), None);
    assert_eq!(padding_bytes(70, 10), None);
}

#[test]
fn splice_overwrites_a_window() {
    let raw = vec![1u8, 2, 3, 4, 5];
    assert_eq!(splice_padding(&raw, 1, &vec![9, 8]), vec![1, 9, 8, 0, 2]);
    assert_eq!(splice_padding(&raw, 2, &vec![7, 7, 7]), vec![1, 2, 7, 7, 7]);
    assert_eq!(splice_padding(&raw, 5, &vec![]), raw);
}

#[test]
fn fake_code_is_deterministic_and_decodes() {
    let pad = vec![0u8; 4];
    let a = fake_code(b"HELLO", &pad, 2, Ecc::L).expect("fits");
    let b = fake_code(b"HELLO", &pad, 2, Ecc::L).expect("fits");
    assert_eq!(a.len(), 625);
    assert_eq!(a, b);
    let q = QR::from_colors(2, &a);
    assert_eq!(read_mapped(&q).expect("decodes").0, "HELLO");
    let mut other = pad.clone();
    flip_bit(&mut other, 5);
    let c = fake_code(b"HELLO", &other, 2, Ecc::L).expect("fits");
    assert_ne!(a, c);
    let q = QR::from_colors(2, &c);
    assert_eq!(read_mapped(&q).expect("decodes").0, "HELLO");
}

#[test]
fn fake_code_rejects_overlong_padding() {
    assert!(fake_code(b"HELLO", &vec![0u8; 200], 1, Ecc::L).is_none());
}

#[test]
fn mapped_bits_reproduce_and_restore() {
    let len = 3;
    let map = map_positions(b"HELLO", len, 2, Ecc::L).expect("fits");
    assert_eq!(map.len(), 24);
    let zeros = vec![0u8; len];
    let base = fake_code(b"HELLO", &zeros, 2, Ecc::L).unwrap();
    for (b, entry) in map.iter().enumerate() {
        let mut pad = zeros.clone();
        flip_bit(&mut pad, b);
        let variant = fake_code(b"HELLO", &pad, 2, Ecc::L).unwrap();
        let (x, y, c) = entry.expect("every padding bit changes some cell");
        assert_ne!(variant[x + y * 25], base[x + y * 25]);
        assert_eq!(c, base[x + y * 25]);
        flip_bit(&mut pad, b);
        assert_eq!(pad, zeros);
        assert_eq!(fake_code(b"HELLO", &pad, 2, Ecc::L).unwrap(), base);
    }
}

#[test]
fn eight_bit_padding_map() {
    let map = map_positions(b"HELLO", 1, 2, Ecc::L).expect("fits");
    assert!(map.iter().filter(|e| e.is_some()).count() <= 8);
    assert_eq!(map.len(), 8);
    let base = fake_code(b"HELLO", &vec![0u8], 2, Ecc::L).unwrap();
    for entry in map.iter().flatten() {
        let (x, y, c) = *entry;
        assert_eq!(c, base[x + y * 25]);
    }
}

#[test]
fn embedded_pattern_still_decodes() {
    let tpl = Template::mog();
    let q = embed_pattern(b"HELLO", 3, Ecc::L, &tpl).expect("fits");
    assert_eq!(q.version, 3);
    assert_eq!(read_mapped(&q).expect("decodes").0, "HELLO");
    let plain = QR::from_colors(3, &fake_code(b"HELLO", &vec![0u8; 45], 3, Ecc::L).unwrap());
    assert_ne!(q.data, plain.data);
}

#[test]
fn embed_needs_room() {
    let tpl = Template::mog();
    assert!(embed_pattern(&vec![b'x'; 50], 1, Ecc::L, &tpl).is_none());
}

#[test]
fn no_padding_maps_nothing() {
    assert_eq!(map_positions(b"HELLO", 0, 2, Ecc::L), Some(vec![]));
    // version 2 at level L holds 34 data bytes: 5 of payload, 2 of header and terminator
    assert!(map_positions(b"HELLO", 27, 2, Ecc::L).is_some());
    assert!(map_positions(b"HELLO", 28, 2, Ecc::L).is_none());
}

#[test]
fn padding_stream_ends_with_terminator_and_filler() {
    let raw = vec![0x40u8, 0x20, 0xEC, 0x11, 0xEC, 0x11];
    assert_eq!(splice_padding(&raw, 2, &vec![0xAA]), vec![0x40, 0x20, 0xAA, 0x00, 0xEC, 0x11]);
    assert_eq!(splice_padding(&raw, 2, &vec![1, 2, 3]), vec![0x40, 0x20, 1, 2, 3, 0x00]);
}
