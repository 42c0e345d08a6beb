//! Canonical tile ids as MapLibre names them (`"z/x/y"`), and the tile
//! neighbourhoods built from them.
use vstd::arithmetic::power2::pow2;
use vstd::prelude::*;
use vstd::string::{StringExecFns, StringSliceAdditionalSpecFns};
use vstd::utf8::{encode_utf8, is_ascii_chars, is_ascii_chars_encode_utf8};
use crate::decimal::{
    all_digits, decimal_bytes, decimal_chars, decimal_string, digits_value, is_digit, lemma_decimal_text,
    parse_u32, u32_from_decimal,
};

verus! {

/// A tile of the MapLibre pyramid.
#[derive(Debug, Clone, Copy, PartialEq, Eq, Structural, Hash, Default)]
pub struct CanonicalTileId {
    pub z: u32,
    pub x: u32,
    pub y: u32,
}

impl View for CanonicalTileId {
    type V = CanonicalTileId;

    open spec fn view(&self) -> CanonicalTileId {
        *self
    }
}

/// One of the three coordinates of a tile id.
#[derive(Debug, Clone, Copy, PartialEq, Eq, Structural)]
pub enum TileCoordinate {
    Z,
    X,
    Y,
}

/// Why a serialized tile id was rejected.
#[derive(Debug, Clone, Copy, PartialEq, Eq, Structural)]
pub enum TileKeyError {
    /// The text has fewer `/`-separated fields than this coordinate needs.
    Missing(TileCoordinate),
    /// The field of this coordinate is not a decimal `u32`.
    Invalid(TileCoordinate),
}

/// The end of the field that starts at `start`: the index of the next `/`
/// at or after `start`, or the length of `s` if there is none.
pub open spec fn field_end(s: Seq<u8>, start: int) -> int
    decreases s.len() - start,
{
    if start >= s.len() {
        s.len() as int
    } else if s[start] == 47 {
        start
    } else {
        field_end(s, start + 1)
    }
}

/// The `/`-separated fields of `s` from `start` on, as `str::split('/')`
/// yields them: there is always at least one, possibly empty.
pub open spec fn fields_from(s: Seq<u8>, start: int) -> Seq<Seq<u8>>
    decreases s.len() - start,
{
    let end = field_end(s, start);
    if start > s.len() || end >= s.len() {
        seq![s.subrange(start, s.len() as int)]
    } else {
        if end < start {
            seq![s.subrange(start, s.len() as int)]
        } else {
            seq![s.subrange(start, end)] + fields_from(s, end + 1)
        }
    }
}

/// What [`parse_serialized_canonical_tile_id`] returns for the bytes `s`.
pub open spec fn tile_key_spec(s: Seq<u8>) -> Result<CanonicalTileId, TileKeyError> {
    let f = fields_from(s, 0);
    match u32_from_decimal(f[0]) {
        None => Err(TileKeyError::Invalid(TileCoordinate::Z)),
        Some(z) => if f.len() < 2 {
            Err(TileKeyError::Missing(TileCoordinate::X))
        } else {
            match u32_from_decimal(f[1]) {
                None => Err(TileKeyError::Invalid(TileCoordinate::X)),
                Some(x) => if f.len() < 3 {
                    Err(TileKeyError::Missing(TileCoordinate::Y))
                } else {
                    match u32_from_decimal(f[2]) {
                        None => Err(TileKeyError::Invalid(TileCoordinate::Y)),
                        Some(y) => Ok(CanonicalTileId { z, x, y }),
                    }
                },
            }
        },
    }
}

proof fn lemma_field_end_bounds(s: Seq<u8>, start: int)
    requires
        0 <= start <= s.len(),
    ensures
        start <= field_end(s, start) <= s.len(),
        field_end(s, start) < s.len() ==> s[field_end(s, start)] == 47,
    decreases s.len() - start,
{
    if start < s.len() && s[start] != 47 {
        lemma_field_end_bounds(s, start + 1);
    }
}

proof fn lemma_field_end_skip(s: Seq<u8>, start: int, i: int)
    requires
        0 <= start <= i <= s.len(),
        forall|j: int| start <= j < i ==> s[j] != 47,
    ensures
        field_end(s, start) == field_end(s, i),
    decreases i - start,
{
    if start < i {
        lemma_field_end_skip(s, start + 1, i);
    }
}

proof fn lemma_fields_from_first(s: Seq<u8>, start: int)
    requires
        0 <= start <= s.len(),
    ensures
        fields_from(s, start).len() >= 1,
        fields_from(s, start)[0] == s.subrange(start, field_end(s, start)),
        field_end(s, start) < s.len() ==> fields_from(s, start) == seq![s.subrange(start, field_end(s, start))] + fields_from(s, field_end(s, start) + 1),
        field_end(s, start) >= s.len() ==> fields_from(s, start).len() == 1,
{
    lemma_field_end_bounds(s, start);
}

/// Index of the next `/` at or after `start`, or the length of `s`.
fn next_separator(s: &[u8], start: usize) -> (end: usize)
    requires
        start <= s@.len(),
    ensures
        end == field_end(s@, start as int),
{
    let mut i = start;
    while i < s.len() && s[i] != 47
        invariant
            start <= i <= s@.len(),
            forall|j: int| start <= j < i ==> s@[j] != 47,
        decreases s@.len() - i,
    {
        i = i + 1;
    }
    proof {
        lemma_field_end_skip(s@, start as int, i as int);
    }
    i
}

/// Reads a tile id serialized as `"z/x/y"`: the first three `/`-separated
/// fields are the decimal coordinates, and fields after the third are ignored.
pub fn parse_serialized_canonical_tile_id(tile_id: &str) -> (result: Result<CanonicalTileId, TileKeyError>)
    ensures
        result == tile_key_spec(tile_id.spec_bytes()),
{
    let s = tile_id.as_bytes();
    let ghost b = s@;
    proof {
        lemma_field_end_bounds(b, 0);
    }
    let end_z = next_separator(s, 0);
    proof {
        lemma_fields_from_first(b, 0);
        assert(s@.subrange(0, end_z as int) == b.subrange(0, field_end(b, 0)));
    }
    let z = match parse_u32(&s[0..end_z]) {
        Some(v) => v,
        None => {
            return Err(TileKeyError::Invalid(TileCoordinate::Z));
        },
    };
    if end_z == s.len() {
        return Err(TileKeyError::Missing(TileCoordinate::X));
    }
    proof {
        lemma_field_end_bounds(b, end_z + 1);
    }
    let end_x = next_separator(s, end_z + 1);
    proof {
        lemma_fields_from_first(b, end_z + 1);
    }
    let x = match parse_u32(&s[end_z + 1..end_x]) {
        Some(v) => v,
        None => {
            return Err(TileKeyError::Invalid(TileCoordinate::X));
        },
    };
    if end_x == s.len() {
        return Err(TileKeyError::Missing(TileCoordinate::Y));
    }
    proof {
        lemma_field_end_bounds(b, end_x + 1);
    }
    let end_y = next_separator(s, end_x + 1);
    proof {
        lemma_fields_from_first(b, end_x + 1);
    }
    let y = match parse_u32(&s[end_x + 1..end_y]) {
        Some(v) => v,
        None => {
            return Err(TileKeyError::Invalid(TileCoordinate::Y));
        },
    };
    Ok(CanonicalTileId { z, x, y })
}

/// What [`parse_serialized_canonical_tile_ids`] returns for the first `n`
/// texts: their tile ids in order, or the error of the first one that is
/// rejected.
pub open spec fn tile_keys_spec(ids: Seq<Seq<u8>>, n: int) -> Result<Seq<CanonicalTileId>, TileKeyError>
    decreases n,
{
    if n <= 0 {
        Ok(Seq::empty())
    } else {
        match tile_keys_spec(ids, n - 1) {
            Err(e) => Err(e),
            Ok(parsed) => match tile_key_spec(ids[n - 1]) {
                Err(e) => Err(e),
                Ok(tile_id) => Ok(parsed.push(tile_id)),
            },
        }
    }
}

/// The bytes of each text.
pub open spec fn texts_bytes(ids: Seq<String>) -> Seq<Seq<u8>> {
    Seq::new(ids.len(), |i: int| encode_utf8(ids[i]@))
}

/// Reads a list of serialized tile ids, in order; the first one rejected
/// rejects the list.
pub fn parse_serialized_canonical_tile_ids(ids: &[String]) -> (result: Result<Vec<CanonicalTileId>, TileKeyError>)
    ensures
        match result {
            Ok(v) => tile_keys_spec(texts_bytes(ids@), ids@.len() as int) == Ok::<Seq<CanonicalTileId>, TileKeyError>(v@),
            Err(e) => tile_keys_spec(texts_bytes(ids@), ids@.len() as int) == Err::<Seq<CanonicalTileId>, TileKeyError>(e),
        },
{
    let ghost texts = texts_bytes(ids@);
    let mut parsed: Vec<CanonicalTileId> = Vec::new();
    let mut i: usize = 0;
    while i < ids.len()
        invariant
            i <= ids@.len(),
            texts == texts_bytes(ids@),
            tile_keys_spec(texts, i as int) == Ok::<Seq<CanonicalTileId>, TileKeyError>(parsed@),
        decreases ids@.len() - i,
    {
        match parse_serialized_canonical_tile_id(ids[i].as_str()) {
            Ok(tile_id) => {
                parsed.push(tile_id);
            },
            Err(e) => {
                proof {
                    lemma_first_error_stays(texts, i as int + 1, ids@.len() as int);
                }
                return Err(e);
            },
        }
        i = i + 1;
    }
    Ok(parsed)
}

/// Once a text is rejected, the longer lists are rejected with its error.
proof fn lemma_first_error_stays(ids: Seq<Seq<u8>>, m: int, n: int)
    requires
        0 < m <= n,
        tile_keys_spec(ids, m) is Err,
    ensures
        tile_keys_spec(ids, n) == tile_keys_spec(ids, m),
    decreases n - m,
{
    if m < n {
        lemma_first_error_stays(ids, m, n - 1);
    }
}

/// `"{z}/{x}/{y}"` in decimal.
pub open spec fn tile_label_text(tile_id: CanonicalTileId) -> Seq<char> {
    decimal_chars(tile_id.z as nat) + seq!['/'] + decimal_chars(tile_id.x as nat) + seq!['/']
        + decimal_chars(tile_id.y as nat)
}

/// The tile's label, `"{z}/{x}/{y}"`.
pub fn tile_label(tile_id: CanonicalTileId) -> (label: String)
    ensures
        label@ == tile_label_text(tile_id),
{
    let mut label = decimal_string(tile_id.z);
    proof {
        reveal_strlit("/");
    }
    label.append("/");
    label.append(decimal_string(tile_id.x).as_str());
    label.append("/");
    label.append(decimal_string(tile_id.y).as_str());
    label
}

/// The bytes of a label: the three decimal fields joined by `/`.
proof fn lemma_label_bytes(tile_id: CanonicalTileId)
    ensures
        encode_utf8(tile_label_text(tile_id)) =~= decimal_bytes(tile_id.z as nat) + seq![47u8]
            + decimal_bytes(tile_id.x as nat) + seq![47u8] + decimal_bytes(tile_id.y as nat),
{
    let (z, x, y) = (tile_id.z as nat, tile_id.x as nat, tile_id.y as nat);
    lemma_decimal_text(z);
    lemma_decimal_text(x);
    lemma_decimal_text(y);
    let label = tile_label_text(tile_id);
    let b = decimal_bytes(z) + seq![47u8] + decimal_bytes(x) + seq![47u8] + decimal_bytes(y);
    let (lz, lx) = (decimal_chars(z).len() as int, decimal_chars(x).len() as int);
    assert forall|i: int| 0 <= i < label.len() implies {
        &&& '\0' <= #[trigger] label[i] <= '\u{7f}'
        &&& label[i] as u8 == b[i]
    } by {
        if i < lz {
            assert(label[i] == decimal_chars(z)[i]);
        } else if i == lz {
            assert(label[i] == '/');
        } else if i < lz + 1 + lx {
            assert(label[i] == decimal_chars(x)[i - lz - 1]);
        } else if i == lz + 1 + lx {
            assert(label[i] == '/');
        } else {
            assert(label[i] == decimal_chars(y)[i - lz - lx - 2]);
        }
    }
    assert(is_ascii_chars(label));
    is_ascii_chars_encode_utf8(label);
}

/// The first field of `prefix + [/] + rest`, where `prefix` is all digits.
proof fn lemma_digit_field(s: Seq<u8>, start: int, digits: Seq<u8>)
    requires
        0 <= start,
        start + digits.len() < s.len(),
        s.subrange(start, start + digits.len()) == digits,
        all_digits(digits),
        s[start + digits.len()] == 47,
    ensures
        field_end(s, start) == start + digits.len(),
        fields_from(s, start)[0] == digits,
        fields_from(s, start) == seq![digits] + fields_from(s, start + digits.len() + 1),
{
    let end = start + digits.len();
    assert forall|j: int| start <= j < end implies s[j] != 47 by {
        assert(s[j] == digits[j - start]);
        assert(is_digit(digits[j - start]));
    }
    lemma_field_end_skip(s, start, end);
    lemma_fields_from_first(s, start);
}

/// Digits spelling a `u32` read back as that number.
proof fn lemma_digits_read_back(digits: Seq<u8>, n: u32)
    requires
        digits.len() >= 1,
        all_digits(digits),
        digits_value(digits) == n,
    ensures
        u32_from_decimal(digits) == Some(n),
{
    assert(is_digit(digits[0]));
}

/// A tile's label, read back as a serialized tile id, gives the same tile.
pub proof fn lemma_label_reads_back(tile_id: CanonicalTileId)
    ensures
        tile_key_spec(encode_utf8(tile_label_text(tile_id))) == Ok::<CanonicalTileId, TileKeyError>(tile_id),
{
    let (dz, dx, dy) = (
        decimal_bytes(tile_id.z as nat),
        decimal_bytes(tile_id.x as nat),
        decimal_bytes(tile_id.y as nat),
    );
    lemma_decimal_text(tile_id.z as nat);
    lemma_decimal_text(tile_id.x as nat);
    lemma_decimal_text(tile_id.y as nat);
    lemma_label_bytes(tile_id);
    let b = encode_utf8(tile_label_text(tile_id));
    let ex: int = dz.len() as int + 1;
    let ey: int = ex + dx.len() + 1;
    assert(b.subrange(0, dz.len() as int) =~= dz);
    assert(b.subrange(ex, ex + dx.len()) =~= dx);
    assert(b.subrange(ey, b.len() as int) =~= dy);
    lemma_digit_field(b, 0, dz);
    lemma_digit_field(b, ex, dx);
    assert forall|j: int| ey <= j < b.len() implies b[j] != 47 by {
        assert(b[j] == dy[j - ey]);
        assert(is_digit(dy[j - ey]));
    }
    lemma_field_end_skip(b, ey, b.len() as int);
    lemma_fields_from_first(b, ey);
    let f = fields_from(b, 0);
    assert(f[0] == dz);
    assert(f[1] == dx);
    assert(f[2] == dy);
    lemma_digits_read_back(dz, tile_id.z);
    lemma_digits_read_back(dx, tile_id.x);
    lemma_digits_read_back(dy, tile_id.y);
}

/// The `k`-th cell (0 to 8) of the 3 by 3 block around `center`, row by row.
pub open spec fn neighbour_xy(center: CanonicalTileId, k: int) -> (int, int) {
    (center.x + k % 3 - 1, center.y + k / 3 - 1)
}

/// Whether column `x` and row `y` exist at zoom `z`; no tile is taken at
/// zoom 63 or more.
pub open spec fn tile_in_pyramid(z: u32, x: int, y: int) -> bool {
    z < 63 && 0 <= x < pow2(z as nat) && 0 <= y < pow2(z as nat)
}

/// The tiles among the first `k` cells of the block around `center`.
pub open spec fn neighbourhood(center: CanonicalTileId, k: nat) -> Seq<CanonicalTileId>
    decreases k,
{
    if k == 0 {
        seq![]
    } else {
        let prev = neighbourhood(center, (k - 1) as nat);
        let (x, y) = neighbour_xy(center, k - 1);
        if tile_in_pyramid(center.z, x, y) {
            prev.push(CanonicalTileId { z: center.z, x: x as u32, y: y as u32 })
        } else {
            prev
        }
    }
}

proof fn lemma_no_neighbours_at_deep_zoom(center: CanonicalTileId, k: nat)
    requires
        center.z >= 63,
    ensures
        neighbourhood(center, k) == Seq::<CanonicalTileId>::empty(),
    decreases k,
{
    if k > 0 {
        lemma_no_neighbours_at_deep_zoom(center, (k - 1) as nat);
    }
}

/// `2^e` for `e < 63`.
fn pow2_u64(e: u32) -> (p: u64)
    requires
        e < 63,
    ensures
        p == pow2(e as nat),
{
    let mut p: u64 = 1;
    let mut i: u32 = 0;
    proof {
        vstd::arithmetic::power2::lemma2_to64();
    }
    while i < e
        invariant
            i <= e,
            e < 63,
            p == pow2(i as nat),
        decreases e - i,
    {
        proof {
            vstd::arithmetic::power2::lemma_pow2_unfold((i + 1) as nat);
            vstd::arithmetic::power2::lemma_pow2_strictly_increases((i + 1) as nat, 63);
            vstd::arithmetic::power2::lemma2_to64();
            vstd::arithmetic::power2::lemma2_to64_rest();
        }
        p = p * 2;
        i = i + 1;
    }
    p
}

/// The tiles of the 3 by 3 block around `center` (itself included) that
/// exist at its zoom, row by row from the top.
pub fn experiment_tile_ids(center: CanonicalTileId) -> (tile_ids: Vec<CanonicalTileId>)
    ensures
        tile_ids@ == neighbourhood(center, 9),
{
    let mut tile_ids: Vec<CanonicalTileId> = Vec::new();
    if center.z >= 63 {
        proof {
            lemma_no_neighbours_at_deep_zoom(center, 9);
        }
        assert(tile_ids@ =~= Seq::<CanonicalTileId>::empty());
        return tile_ids;
    }
    let tile_count = pow2_u64(center.z);
    proof {
        vstd::arithmetic::power2::lemma_pow2_strictly_increases(center.z as nat, 63);
        vstd::arithmetic::power2::lemma2_to64_rest();
    }
    assert(tile_count < 0x8000_0000_0000_0000u64);
    let cx = center.x as i64;
    let cy = center.y as i64;
    let mut dy: i64 = 0;
    while dy < 3
        invariant
            0 <= dy <= 3,
            center.z < 63,
            tile_count == pow2(center.z as nat),
            tile_count < 0x8000_0000_0000_0000u64,
            cx == center.x,
            cy == center.y,
            tile_ids@ == neighbourhood(center, (3 * dy) as nat),
        decreases 3 - dy,
    {
        let mut dx: i64 = 0;
        while dx < 3
            invariant
                0 <= dy < 3,
                0 <= dx <= 3,
                center.z < 63,
                tile_count == pow2(center.z as nat),
                tile_count < 0x8000_0000_0000_0000u64,
                cx == center.x,
                cy == center.y,
                tile_ids@ == neighbourhood(center, (3 * dy + dx) as nat),
            decreases 3 - dx,
        {
            let x = cx - 1 + dx;
            let y = cy - 1 + dy;
            proof {
                let k = 3 * dy + dx;
                assert(k % 3 == dx && k / 3 == dy);
                assert(neighbour_xy(center, k) == (x as int, y as int));
            }
            if 0 <= x && x < tile_count as i64 && 0 <= y && y < tile_count as i64 {
                tile_ids.push(CanonicalTileId { z: center.z, x: x as u32, y: y as u32 });
            }
            dx = dx + 1;
        }
        dy = dy + 1;
    }
    tile_ids
}

} // verus!
