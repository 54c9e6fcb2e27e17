use crate::codec::{
    byte_segment, capacity_bits, checkerboard_light, checkerboard_symbol, data_capacity_bits,
    segment_of, Ecc,
};
use crate::qr::{modules_of, side_of, QR};
use crate::template::{Template, WANT_LIGHT};
use vstd::prelude::*;

verus! {

/// Whether padding bit `b` is set; bit `b` is bit `b % 8` (least significant
/// first) of byte `b / 8`.
pub open spec fn bit_set(pad: Seq<u8>, b: int) -> bool {
    (pad[b / 8] >> ((b % 8) as u8)) & 1u8 == 1u8
}

/// The padding with bit `b` toggled.
pub open spec fn flipped(pad: Seq<u8>, b: int) -> Seq<u8> {
    pad.update(b / 8, pad[b / 8] ^ (1u8 << ((b % 8) as u8)))
}

/// Flat index of the `p`-th cell of a `w` x `w` grid in scan order: columns
/// left to right, each column top to bottom.
pub open spec fn scan_index(w: int, p: int) -> int {
    p / w + (p % w) * w
}

/// The last cell, among the first `p` in scan order, where the two grids
/// differ: its column, its row and its color in `base`.
pub open spec fn last_diff_of(base: Seq<bool>, other: Seq<bool>, w: int, p: int) -> Option<
    (usize, usize, bool),
>
    decreases p,
{
    if p <= 0 {
        None
    } else {
        let i = scan_index(w, p - 1);
        if base[i] != other[i] {
            Some((((p - 1) / w) as usize, ((p - 1) % w) as usize, base[i]))
        } else {
            last_diff_of(base, other, w, p - 1)
        }
    }
}

/// Whether the template, tiled over the plane, wants cell (`x`, `y`) light.
pub open spec fn wants_light(tpl: Template, x: int, y: int) -> bool {
    tpl.cells@[(x % tpl.width as int) + (y % tpl.height as int) * tpl.width as int] == WANT_LIGHT
}

/// Whether painting must toggle padding bit `b`: it is mapped to a cell whose
/// baseline color is not the one the template wants there.
pub open spec fn needs_flip(map: Seq<Option<(usize, usize, bool)>>, tpl: Template, b: int) -> bool {
    0 <= b < map.len() && match map[b] {
        Some((x, y, light)) => light != wants_light(tpl, x as int, y as int),
        None => false,
    }
}

proof fn lemma_xor_bit(v: u8, i: u8, j: u8)
    requires
        i < 8,
        j < 8,
    ensures
        (((v ^ (1u8 << i)) >> j) & 1u8 == 1u8) == (((v >> j) & 1u8 == 1u8) != (i == j)),
{
    assert((((v ^ (1u8 << i)) >> j) & 1u8 == 1u8) == (((v >> j) & 1u8 == 1u8) != (i == j)))
        by (bit_vector)
        requires
            i < 8,
            j < 8,
    ;
}

/// Toggling bit `b` toggles that bit and no other.
proof fn lemma_flip_reads(pad: Seq<u8>, b: int, c: int)
    requires
        0 <= b < 8 * pad.len(),
        0 <= c < 8 * pad.len(),
    ensures
        bit_set(flipped(pad, b), c) == (bit_set(pad, c) != (b == c)),
{
    lemma_xor_bit(pad[b / 8], (b % 8) as u8, (c % 8) as u8);
}

/// Toggling a padding bit twice gives back the padding it started from.
pub proof fn lemma_flip_twice(pad: Seq<u8>, b: int)
    requires
        0 <= b < 8 * pad.len(),
    ensures
        flipped(flipped(pad, b), b) == pad,
{
    let v = pad[b / 8];
    let m = 1u8 << ((b % 8) as u8);
    assert((v ^ m) ^ m == v) by (bit_vector);
    assert(flipped(flipped(pad, b), b) =~= pad);
}

/// A mapped bit names a cell inside the grid whose color differs between the
/// baseline and the grid encoded with that bit toggled, and records the
/// baseline color there; every cell after it in scan order is unchanged.
pub proof fn lemma_last_diff_sound(base: Seq<bool>, other: Seq<bool>, w: int, p: int)
    requires
        1 <= w <= usize::MAX,
        0 <= p <= w * w,
        base.len() == w * w,
        other.len() == w * w,
    ensures
        last_diff_of(base, other, w, p) matches Some((x, y, c)) ==> {
            &&& x < w
            &&& y < w
            &&& base[x + y * w] != other[x + y * w]
            &&& c == base[x + y * w]
        },
        last_diff_of(base, other, w, p) is None ==> forall|q: int|
            0 <= q < p ==> base[#[trigger] scan_index(w, q)] == other[scan_index(w, q)],
    decreases p,
{
    if p > 0 {
        lemma_last_diff_sound(base, other, w, p - 1);
        lemma_scan_in_grid(w, p - 1);
        let x = (p - 1) / w;
        let y = (p - 1) % w;
        assert(((x as usize) as int) == x);
        assert(((y as usize) as int) == y);
        assert(scan_index(w, p - 1) == x + y * w);
    }
}

proof fn lemma_scan_in_grid(w: int, p: int)
    requires
        w >= 1,
        0 <= p < w * w,
    ensures
        0 <= p / w < w,
        0 <= p % w < w,
        0 <= scan_index(w, p) < w * w,
{
    assert(0 <= p / w < w) by (nonlinear_arith)
        requires
            w >= 1,
            0 <= p < w * w,
    ;
    let x = p / w;
    let y = p % w;
    assert(0 <= x + y * w < w * w) by (nonlinear_arith)
        requires
            0 <= x < w,
            0 <= y < w,
    ;
}

/// Toggles padding bit `b`.
pub fn flip_bit(pad: &mut Vec<u8>, b: usize)
    requires
        b < 8 * old(pad)@.len(),
    ensures
        final(pad)@ == flipped(old(pad)@, b as int),
{
    let i: usize = b / 8;
    let s: u8 = (b % 8) as u8;
    let v: u8 = pad[i];
    pad.set(i, v ^ (1u8 << s));
}

/// The last cell, in scan order, where two `w` x `w` grids differ, with its
/// color in `base`.
pub fn last_diff(base: &Vec<bool>, other: &Vec<bool>, w: usize) -> (r: Option<(usize, usize, bool)>)
    requires
        w >= 1,
        base@.len() == w * w,
        other@.len() == w * w,
    ensures
        r == last_diff_of(base@, other@, w as int, (w * w) as int),
{
    let n: usize = base.len();
    let mut last: Option<(usize, usize, bool)> = None;
    let mut p: usize = 0;
    while p < n
        invariant
            w >= 1,
            n == w * w,
            base@.len() == n,
            other@.len() == n,
            p <= n,
            last == last_diff_of(base@, other@, w as int, p as int),
        decreases n - p,
    {
        proof {
            lemma_scan_in_grid(w as int, p as int);
        }
        let x: usize = p / w;
        let y: usize = p % w;
        let i: usize = x + y * w;
        if base[i] != other[i] {
            last = Some((x, y, base[i]));
        }
        p = p + 1;
    }
    last
}

/// The bit-cell map from a baseline grid and, for each padding bit, the grid
/// encoded with that bit toggled.
pub fn map_from_variants(base: &Vec<bool>, variants: &Vec<Vec<bool>>, w: usize) -> (r: Vec<
    Option<(usize, usize, bool)>,
>)
    requires
        w >= 1,
        base@.len() == w * w,
        forall|b: int| 0 <= b < variants@.len() ==> #[trigger] variants@[b]@.len() == w * w,
    ensures
        r@.len() == variants@.len(),
        forall|b: int|
            0 <= b < variants@.len() ==> #[trigger] r@[b] == last_diff_of(
                base@,
                variants@[b]@,
                w as int,
                (w * w) as int,
            ),
{
    let mut map: Vec<Option<(usize, usize, bool)>> = Vec::new();
    let mut b: usize = 0;
    while b < variants.len()
        invariant
            w >= 1,
            base@.len() == w * w,
            forall|k: int| 0 <= k < variants@.len() ==> #[trigger] variants@[k]@.len() == w * w,
            b <= variants@.len(),
            map@.len() == b,
            forall|k: int|
                0 <= k < b ==> #[trigger] map@[k] == last_diff_of(
                    base@,
                    variants@[k]@,
                    w as int,
                    (w * w) as int,
                ),
        decreases variants@.len() - b,
    {
        map.push(last_diff(base, &variants[b], w));
        b = b + 1;
    }
    map
}

/// The padding that paints the template: each mapped bit is set exactly when
/// the baseline color of its cell is not the one the template wants there.
pub fn paint_padding(map: &Vec<Option<(usize, usize, bool)>>, tpl: &Template, len: usize) -> (r: Vec<u8>)
    requires
        tpl.wf(),
        map@.len() <= 8 * len,
    ensures
        r@.len() == len,
        forall|b: int| 0 <= b < 8 * len ==> #[trigger] bit_set(r@, b) == needs_flip(map@, *tpl, b),
{
    let mut pad: Vec<u8> = Vec::new();
    while pad.len() < len
        invariant
            pad@.len() <= len,
            forall|k: int| 0 <= k < pad@.len() ==> #[trigger] pad@[k] == 0u8,
        decreases len - pad@.len(),
    {
        pad.push(0u8);
    }
    assert forall|c: int| 0 <= c < 8 * len implies !#[trigger] bit_set(pad@, c) by {
        let s = (c % 8) as u8;
        assert(pad@[c / 8] == 0u8);
        assert((0u8 >> s) & 1u8 == 0u8) by (bit_vector);
    }
    let mut b: usize = 0;
    while b < map.len()
        invariant
            tpl.wf(),
            map@.len() <= 8 * len,
            pad@.len() == len,
            b <= map@.len(),
            forall|c: int|
                0 <= c < 8 * len ==> #[trigger] bit_set(pad@, c) == (c < b && needs_flip(map@, *tpl, c)),
        decreases map@.len() - b,
    {
        if let Some((x, y, light)) = map[b] {
            if light != tpl.wants_light_at(x, y) {
                let ghost before = pad@;
                flip_bit(&mut pad, b);
                assert forall|c: int| 0 <= c < 8 * len implies #[trigger] bit_set(pad@, c) == (c < b
                    + 1 && needs_flip(map@, *tpl, c)) by {
                    lemma_flip_reads(before, b as int, c);
                }
            }
        }
        b = b + 1;
    }
    pad
}

/// The data stream with `pad` written after the segment that ends at byte
/// `start` of `raw`: the segment, the padding, a zero terminator byte where
/// there is room, then the filler of `raw` from its start, up to the
/// capacity.
pub open spec fn padded_stream(raw: Seq<u8>, start: int, pad: Seq<u8>) -> Seq<u8> {
    if start + pad.len() < raw.len() {
        raw.subrange(0, start) + pad + seq![0u8] + raw.subrange(start, raw.len() - pad.len() - 1)
    } else {
        raw.subrange(0, start) + pad
    }
}

/// The symbol that `fake_code` draws, or `None` when the payload and the
/// padding do not fit.
pub open spec fn encoded_light(payload: Seq<u8>, pad: Seq<u8>, version: i16, level: Ecc) -> Option<
    Seq<bool>,
> {
    match segment_of(payload, version, level) {
        None => None,
        Some((used, raw)) => {
            let start = (used + 4) / 8;
            if raw.len() * 8 == data_capacity_bits(version, level) && used + 4 <= raw.len() * 8
                && start + pad.len() <= raw.len() {
                Some(checkerboard_symbol(padded_stream(raw, start, pad), version, level))
            } else {
                None
            }
        },
    }
}

/// `len` zero bytes.
pub open spec fn zeros(len: nat) -> Seq<u8> {
    Seq::new(len, |i: int| 0u8)
}

/// The bit-cell map for `len` bytes of padding, when they fit.
pub open spec fn position_map(payload: Seq<u8>, len: nat, version: i16, level: Ecc) -> Seq<
    Option<(usize, usize, bool)>,
> {
    let side = side_of(version as int);
    Seq::new(
        8 * len,
        |b: int|
            last_diff_of(
                encoded_light(payload, zeros(len), version, level).unwrap(),
                encoded_light(payload, flipped(zeros(len), b), version, level).unwrap(),
                side,
                side * side,
            ),
    )
}

/// Toggling a padding bit twice and encoding gives back the baseline symbol.
pub proof fn lemma_flip_twice_restores(payload: Seq<u8>, pad: Seq<u8>, b: int, version: i16, level: Ecc)
    requires
        0 <= b < 8 * pad.len(),
    ensures
        encoded_light(payload, flipped(flipped(pad, b), b), version, level) == encoded_light(
            payload,
            pad,
            version,
            level,
        ),
{
    lemma_flip_twice(pad, b);
}

/// The data stream with `pad` written after the segment ending at `start`.
pub fn splice_padding(raw: &Vec<u8>, start: usize, pad: &Vec<u8>) -> (r: Vec<u8>)
    requires
        start + pad@.len() <= raw@.len(),
    ensures
        r@ == padded_stream(raw@, start as int, pad@),
        r@.len() == raw@.len(),
{
    let mut out: Vec<u8> = Vec::new();
    let mut i: usize = 0;
    while i < start
        invariant
            start <= raw@.len(),
            i <= start,
            out@ == raw@.subrange(0, i as int),
        decreases start - i,
    {
        out.push(raw[i]);
        i = i + 1;
        assert(out@ =~= raw@.subrange(0, i as int));
    }
    let mut j: usize = 0;
    while j < pad.len()
        invariant
            j <= pad@.len(),
            out@ == raw@.subrange(0, start as int) + pad@.subrange(0, j as int),
        decreases pad@.len() - j,
    {
        out.push(pad[j]);
        j = j + 1;
        assert(out@ =~= raw@.subrange(0, start as int) + pad@.subrange(0, j as int));
    }
    assert(pad@.subrange(0, pad@.len() as int) =~= pad@);
    let ghost front = raw@.subrange(0, start as int) + pad@;
    if pad.len() < raw.len() - start {
        out.push(0u8);
        let end: usize = raw.len() - pad.len() - 1;
        let mut k: usize = start;
        assert(out@ =~= front + seq![0u8] + raw@.subrange(start as int, k as int));
        while k < end
            invariant
                start <= k <= end,
                end == raw@.len() - pad@.len() - 1,
                out@ == front + seq![0u8] + raw@.subrange(start as int, k as int),
            decreases end - k,
        {
            out.push(raw[k]);
            k = k + 1;
            assert(out@ =~= front + seq![0u8] + raw@.subrange(start as int, k as int));
        }
    }
    out
}

/// Number of whole padding bytes that fit after a payload of `real_len` bytes
/// in `capacity` data bits, keeping five bytes in reserve for the segment
/// header and terminator; `None` when there is no room.
pub fn padding_bytes(capacity: usize, real_len: usize) -> (r: Option<usize>)
    ensures
        r == if capacity >= 8 * real_len && (capacity - 8 * real_len) / 8 >= 5 {
            Some(((capacity - 8 * real_len) / 8 - 5) as usize)
        } else {
            None::<usize>
        },
{
    if real_len > capacity / 8 {
        return None;
    }
    let free: usize = capacity - 8 * real_len;
    if free / 8 < 5 {
        None
    } else {
        Some(free / 8 - 5)
    }
}

/// The light flag of each module, row by row, of a normal symbol of `version`
/// that holds `payload` as a byte segment and a terminator, then the raw
/// bytes `pad`, masked with the checkerboard pattern. `None` exactly when the
/// payload and the padding do not fit.
pub fn fake_code(payload: &[u8], pad: &Vec<u8>, version: u32, level: Ecc) -> (r: Option<Vec<bool>>)
    requires
        1 <= version <= 40,
    ensures
        match r {
            Some(light) => encoded_light(payload@, pad@, version as i16, level) == Some(light@)
                && light@.len() == side_of(version as int) * side_of(version as int),
            None => encoded_light(payload@, pad@, version as i16, level) is None,
        },
{
    let v: i16 = version as i16;
    let (used, raw) = match byte_segment(payload, v, level) {
        Some(s) => s,
        None => return None,
    };
    let capacity: usize = capacity_bits(v, level);
    if raw.len() != capacity / 8 || capacity % 8 != 0 || capacity < 4 || used > capacity - 4 {
        return None;
    }
    let start: usize = (used + 4) / 8;
    if pad.len() > raw.len() - start {
        return None;
    }
    let stream = splice_padding(&raw, start, pad);
    Some(checkerboard_light(&stream, v, level))
}

/// For each of the `8 * pad_len` padding bits after `payload`, the last cell
/// (in scan order) whose color changes when that bit alone is toggled in an
/// all-zero padding, with its baseline color. `None` exactly when the padding
/// does not fit.
pub fn map_positions(payload: &[u8], pad_len: usize, version: u32, level: Ecc) -> (r: Option<
    Vec<Option<(usize, usize, bool)>>,
>)
    requires
        1 <= version <= 40,
        8 * pad_len <= usize::MAX,
    ensures
        r is Some <==> encoded_light(payload@, zeros(pad_len as nat), version as i16, level) is Some,
        r matches Some(map) ==> map@ == position_map(payload@, pad_len as nat, version as i16, level),
{
    let side: usize = (4 * version + 17) as usize;
    let mut zero_pad: Vec<u8> = Vec::new();
    while zero_pad.len() < pad_len
        invariant
            zero_pad@.len() <= pad_len,
            forall|k: int| 0 <= k < zero_pad@.len() ==> #[trigger] zero_pad@[k] == 0u8,
        decreases pad_len - zero_pad@.len(),
    {
        zero_pad.push(0u8);
    }
    assert(zero_pad@ =~= zeros(pad_len as nat));
    let base = match fake_code(payload, &zero_pad, version, level) {
        Some(b) => b,
        None => return None,
    };
    let n: usize = 8 * pad_len;
    let mut variants: Vec<Vec<bool>> = Vec::new();
    let mut b: usize = 0;
    while b < n
        invariant
            1 <= version <= 40,
            side == side_of(version as int),
            n == 8 * pad_len,
            zero_pad@ == zeros(pad_len as nat),
            encoded_light(payload@, zeros(pad_len as nat), version as i16, level) is Some,
            b <= n,
            variants@.len() == b,
            forall|k: int| 0 <= k < b ==> #[trigger] variants@[k]@.len() == side * side,
            forall|k: int|
                0 <= k < b ==> Some(#[trigger] variants@[k]@) == encoded_light(
                    payload@,
                    flipped(zeros(pad_len as nat), k),
                    version as i16,
                    level,
                ),
        decreases n - b,
    {
        let mut pad = zero_pad.clone();
        flip_bit(&mut pad, b);
        match fake_code(payload, &pad, version, level) {
            Some(light) => variants.push(light),
            None => {
                // the fit depends on the padding's length alone
                assert(false);
                return None;
            },
        }
        b = b + 1;
    }
    let map = map_from_variants(&base, &variants, side);
    assert(map@ =~= position_map(payload@, pad_len as nat, version as i16, level));
    Some(map)
}

/// Paints the template into the padding after `payload` in a normal symbol
/// of `version`: maps each padding bit to its cell, sets the bits whose
/// cells have the wrong color, and encodes once more. `None` exactly when no
/// padding fits.
pub fn embed_pattern(payload: &[u8], version: u32, level: Ecc, tpl: &Template) -> (r: Option<QR>)
    requires
        1 <= version <= 40,
        tpl.wf(),
    ensures
        ({
            let cap = data_capacity_bits(version as i16, level);
            let room = cap >= 8 * payload@.len() && (cap - 8 * payload@.len()) / 8 >= 5;
            let len = ((cap - 8 * payload@.len()) / 8 - 5) as nat;
            &&& r is Some <==> room && encoded_light(payload@, zeros(len), version as i16, level) is Some
            &&& r matches Some(q) ==> {
                &&& q.wf()
                &&& q.version == version
                &&& exists|pad: Seq<u8>|
                    {
                        &&& pad.len() == len
                        &&& forall|b: int|
                            0 <= b < 8 * len ==> #[trigger] bit_set(pad, b) == needs_flip(
                                position_map(payload@, len, version as i16, level),
                                *tpl,
                                b,
                            )
                        &&& encoded_light(payload@, pad, version as i16, level) matches Some(l)
                            && q.data@ == modules_of(l)
                    }
            }
        }),
{
    let capacity = capacity_bits(version as i16, level);
    let len = match padding_bytes(capacity, payload.len()) {
        Some(n) => n,
        None => return None,
    };
    let map = match map_positions(payload, len, version, level) {
        Some(m) => m,
        None => return None,
    };
    let pad = paint_padding(&map, tpl, len);
    match fake_code(payload, &pad, version, level) {
        Some(light) => {
            let q = QR::from_colors(version, &light);
            assert(q.data@ =~= modules_of(light@));
            Some(q)
        },
        None => {
            assert(false);
            None
        },
    }
}

} // verus!
