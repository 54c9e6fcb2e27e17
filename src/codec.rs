//! The calls into the QR encoder and decoder that the library relies on.
use vstd::prelude::*;

verus! {

#[verifier::external_type_specification]
#[verifier::external_body]
pub struct ExQrCode(qrcode::QrCode);

/// Error correction level of a symbol.
#[derive(Clone, Copy, Debug, PartialEq, Eq, Structural)]
pub enum Ecc {
    L,
    M,
    Q,
    H,
}

/// Number of data bits that a normal symbol of `version` holds at `level`.
pub uninterp spec fn data_capacity_bits(version: i16, level: Ecc) -> int;

/// The light flag of each module, row by row, of the symbol that encodes
/// `data` in a normal symbol of `version` at level H; `None` when it does not
/// fit.
pub uninterp spec fn high_symbol(data: Seq<u8>, version: i16) -> Option<Seq<bool>>;

/// Whether module (`x`, `y`) of a normal symbol of `version` belongs to a
/// fixed pattern.
pub uninterp spec fn functional_of(version: i16, x: int, y: int) -> bool;

/// A byte segment holding `payload`, closed and filled up to the capacity:
/// the number of bits before the terminator, and the bytes.
pub uninterp spec fn segment_of(payload: Seq<u8>, version: i16, level: Ecc) -> Option<(int, Seq<u8>)>;

/// The light flag of each module, row by row, of the symbol that carries the
/// full data stream `stream`, masked with the checkerboard pattern.
pub uninterp spec fn checkerboard_symbol(stream: Seq<u8>, version: i16, level: Ecc) -> Seq<bool>;

/// Relies on `qrcode::QrCode::with_version` and `QrCode::to_colors`: the
/// colors of the symbol of `data` at level H; `true` for light.
#[verifier::external_body]
pub(crate) fn encode_high(data: &[u8], version: i16) -> (r: Option<Vec<bool>>)
    requires
        1 <= version <= 40,
    ensures
        match r {
            Some(l) => high_symbol(data@, version) == Some(l@) && l@.len() == (4 * version + 17) * (4
                * version + 17),
            None => high_symbol(data@, version) is None,
        },
{
    let code = qrcode::QrCode::with_version(data, qrcode::Version::Normal(version), qrcode::EcLevel::H);
    code.ok().map(|c| c.to_colors().into_iter().map(|m| m == qrcode::Color::Light).collect())
}

/// Relies on `qrcode::QrCode::version`: the number of a normal symbol's
/// version, `None` for a Micro one.
#[verifier::external_body]
pub(crate) fn code_version(code: &qrcode::QrCode) -> (r: Option<i16>) {
    match code.version() {
        qrcode::Version::Normal(v) => Some(v),
        qrcode::Version::Micro(_) => None,
    }
}

/// Relies on `qrcode::QrCode::to_colors`: the color of each module, row by
/// row; `true` for light.
#[verifier::external_body]
pub(crate) fn code_light(code: &qrcode::QrCode) -> (r: Vec<bool>) {
    code.to_colors().into_iter().map(|c| c == qrcode::Color::Light).collect()
}

/// Relies on `qrcode::canvas::is_functional`: whether module (`x`, `y`) of a
/// normal symbol of `version` belongs to a fixed pattern.
#[verifier::external_body]
pub(crate) fn module_is_functional(version: i16, x: usize, y: usize) -> (r: bool)
    requires
        1 <= version <= 40,
        x < 4 * version + 17,
        y < 4 * version + 17,
    ensures
        r == functional_of(version, x as int, y as int),
{
    let v = qrcode::Version::Normal(version);
    qrcode::canvas::is_functional(v, v.width(), x as i16, y as i16)
}

/// Relies on `qrcode::bits::Bits::max_len`: the data capacity in bits of a
/// normal symbol of `version` at `level`. Its table has an entry for every
/// normal version and level.
#[verifier::external_body]
pub(crate) fn capacity_bits(version: i16, level: Ecc) -> (r: usize)
    requires
        1 <= version <= 40,
    ensures
        r == data_capacity_bits(version, level),
{
    let ec = match level { Ecc::L => qrcode::EcLevel::L, Ecc::M => qrcode::EcLevel::M, Ecc::Q => qrcode::EcLevel::Q, Ecc::H => qrcode::EcLevel::H };
    qrcode::bits::Bits::new(qrcode::Version::Normal(version)).max_len(ec).expect("normal version")
}

/// Relies on `qrcode::bits::Bits`: `push_byte_data`, `len`, `push_terminator`
/// and `into_bytes`, on a stream for a normal symbol of `version`.
#[verifier::external_body]
pub(crate) fn byte_segment(payload: &[u8], version: i16, level: Ecc) -> (r: Option<(usize, Vec<u8>)>)
    requires
        1 <= version <= 40,
    ensures
        match r {
            Some((used, bytes)) => segment_of(payload@, version, level) == Some((used as int, bytes@)),
            None => segment_of(payload@, version, level) is None,
        },
{
    let ec = match level { Ecc::L => qrcode::EcLevel::L, Ecc::M => qrcode::EcLevel::M, Ecc::Q => qrcode::EcLevel::Q, Ecc::H => qrcode::EcLevel::H };
    let mut bits = qrcode::bits::Bits::new(qrcode::Version::Normal(version));
    if bits.push_byte_data(payload).is_err() {
        return None;
    }
    let used = bits.len();
    if bits.push_terminator(ec).is_err() {
        return None;
    }
    Some((used, bits.into_bytes()))
}

/// Relies on `qrcode::ec::construct_codewords` and on `Canvas`'s `new`,
/// `draw_all_functional_patterns`, `draw_data`, `apply_mask` with the
/// checkerboard pattern, and `into_colors`; `true` for light. The codewords
/// are sliced by the block table, so the stream must hold exactly the
/// capacity; the canvas has `width * width` modules.
#[verifier::external_body]
pub(crate) fn checkerboard_light(stream: &[u8], version: i16, level: Ecc) -> (r: Vec<bool>)
    requires
        1 <= version <= 40,
        stream@.len() * 8 == data_capacity_bits(version, level),
    ensures
        r@ == checkerboard_symbol(stream@, version, level),
        r@.len() == (4 * version + 17) * (4 * version + 17),
{
    let ec = match level { Ecc::L => qrcode::EcLevel::L, Ecc::M => qrcode::EcLevel::M, Ecc::Q => qrcode::EcLevel::Q, Ecc::H => qrcode::EcLevel::H };
    let v = qrcode::Version::Normal(version);
    let (data, ecw) = qrcode::ec::construct_codewords(stream, v, ec).expect("normal version");
    let mut canvas = qrcode::canvas::Canvas::new(v, ec);
    canvas.draw_all_functional_patterns();
    canvas.draw_data(&data, &ecw);
    canvas.apply_mask(qrcode::canvas::MaskPattern::Checkerboard);
    canvas.into_colors().into_iter().map(|c| c == qrcode::Color::Light).collect()
}

} // verus!
