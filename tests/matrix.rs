use bardecoder::decode::{Decode, QRDecoderWithInfo};
use qrmog::qr::QR;
use qrmog::render::hl_diff;

fn read_matrix(q: &QR) -> Result<(String, u32), String> {
    let grid = bardecoder::util::qr::QRData::new(q.data.clone(), q.version);
    match QRDecoderWithInfo::new().decode(Ok(grid)) {
        Ok((text, info)) => Ok((text, info.errors)),
        Err(e) => Err(e.msg),
    }
}


fn sample_modules(version: u32) -> (Vec<bool>, Vec<bool>) {
    let side = (4 * version + 17) as usize;
    let light: Vec<bool> = (0..side * side).map(|i| i % 3 == 0).collect();
    let functional: Vec<bool> = (0..side * side).map(|i| i % 5 == 0).collect();
    (light, functional)
}

#[test]
fn from_modules_maps_colors_and_marks_version_blocks() {
    let (light, functional) = sample_modules(1);
    let q = QR::from_modules(1, &light, &functional);
    assert_eq!(q.side, 21);
    assert_eq!(q.version, 1);
    assert_eq!(q.data.len(), 441);
    assert_eq!(q.get_at(0, 0), 1);
    assert_eq!(q.get_at(1, 0), 0);
    assert_eq!(q.get_at(2, 0), 0);
    assert_eq!(q.get_at(3, 0), 1);
    // (1, 0) is neither flagged nor in a version block
    assert!(!q.is_functional(1, 0));
    // flagged by the caller
    assert!(q.is_functional(5, 0));
    // version block right of the top-left area: columns side-11 .. side-8, rows 0..6
    assert!(q.is_functional(11, 0));
    assert!(q.is_functional(13, 6));
    assert!(!q.is_functional(14, 2));
    // its mirror image
    assert!(q.is_functional(0, 11));
    assert!(q.is_functional(6, 13));
    assert!(!q.is_functional(2, 14));
    // outside the grid
    assert!(!q.is_functional(0, 21));
    assert!(!q.is_functional(usize::MAX, usize::MAX));
}

#[test]
fn make_and_decode_round_trip() {
    let q = QR::make(b"HELLO", 2).expect("fits");
    assert_eq!(q.version, 2);
    assert_eq!(q.side, 25);
    assert_eq!(q.data.len(), 625);
    assert!(q.data.iter().all(|&m| m <= 1));
    // the top-left finder pattern is fixed and its corner is dark
    assert!(q.is_functional(0, 0));
    assert_eq!(q.get_at(0, 0), 0);
    let (text, errors) = read_matrix(&q).expect("decodes");
    assert_eq!(text, "HELLO");
    assert_eq!(errors, 0);
}

#[test]
fn make_rejects_oversized_payload() {
    let big = vec![b'x'; 200];
    assert!(QR::make(&big, 1).is_none());
}

#[test]
fn decode_reports_damage() {
    let mut q = QR::make(b"HELLO", 2).expect("fits");
    for i in 0..q.data.len() {
        q.data[i] = 1 - q.data[i];
    }
    assert!(read_matrix(&q).is_err() || read_matrix(&q).unwrap().0 != "HELLO");
}

#[test]
fn dump_draws_borders_and_rows() {
    let q = QR::make(b"HELLO", 1).expect("fits");
    let s = q.dump();
    let lines: Vec<&str> = s.split('\n').collect();
    assert_eq!(lines.len(), 23);
    assert_eq!(lines[0], "██".repeat(23));
    assert_eq!(lines[22], "██".repeat(23));
    // the first row starts with the dark finder corner
    assert!(lines[1].starts_with("\x1b[0m██\x1b[0m  "));
    assert!(lines[1].ends_with("\x1b[0m██\x1b[0m"));
    assert!(!s.contains("38;5"));
}

#[test]
fn dump_hl_colors_highlighted_cells() {
    let q = QR::make(b"HELLO", 1).expect("fits");
    let mut hl = vec![false; q.data.len()];
    hl[0] = true;
    let s = q.dump_hl(&hl);
    // the corner is dark, so it turns dark green
    assert!(s.contains("\x1b[0m██\x1b[38;5;22m██"));
    assert!(!s.contains("38;5;154"));
}

#[test]
fn hl_diff_marks_differences() {
    let qa = QR::make(b"HELLO", 1).expect("fits");
    let qb = qa.clone();
    assert!(!hl_diff(&qa, &qb).contains("38;5"));
    let mut qc = qa.clone();
    qc.data[0] = 1 - qc.data[0];
    assert_eq!(hl_diff(&qa, &qc).matches("38;5").count(), 1);
}

#[test]
fn functional_cells_depend_on_version_only() {
    let a = QR::make(b"HELLO", 7).expect("fits");
    let b = QR::make(b"another payload", 7).expect("fits");
    assert_eq!(a.side, b.side);
    for y in 0..a.side as usize {
        for x in 0..a.side as usize {
            assert_eq!(a.is_functional(x, y), b.is_functional(x, y));
        }
    }
    // version information blocks
    assert!(a.is_functional(34, 0) && a.is_functional(0, 34));
}
