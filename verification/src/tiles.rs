//! Slippy-map tiles of the ingestion pipeline: naming, enumerating the tiles
//! of a range, and mapping a chunk tile to the tiles of another zoom level.
use vstd::arithmetic::power2::{lemma_pow2_unfold, pow2};
use vstd::prelude::*;
use vstd::arithmetic::div_mod::{lemma_fundamental_div_mod, lemma_fundamental_div_mod_converse};
use vstd::string::StringExecFns;
use crate::decimal::{decimal_chars, decimal_string};
use crate::key_sort::{key_lt, keys_sorted, sort_keys, SortKey};

verus! {

/// The highest zoom level vector tiles are written for.
pub const MAX_MVT_ZOOM: u8 = 24;

/// A tile of the web-mercator pyramid: zoom `z`, column `x`, row `y`.
#[derive(Debug, Clone, Copy, PartialEq, Eq, Structural, Hash, PartialOrd, Ord)]
pub struct SlippyTile {
    pub z: u8,
    pub x: u32,
    pub y: u32,
}

/// `"{z}-{x}-{y}"` in decimal.
pub open spec fn tile_id_text(z: nat, x: nat, y: nat) -> Seq<char> {
    decimal_chars(z) + seq!['-'] + decimal_chars(x) + seq!['-'] + decimal_chars(y)
}

impl SlippyTile {
    /// The tile's name, `"{z}-{x}-{y}"`.
    pub fn id(self) -> (name: String)
        ensures
            name@ == tile_id_text(self.z as nat, self.x as nat, self.y as nat),
    {
        let mut name = decimal_string(self.z as u32);
        proof {
            reveal_strlit("-");
        }
        name.append("-");
        name.append(decimal_string(self.x).as_str());
        name.append("-");
        name.append(decimal_string(self.y).as_str());
        name
    }
}

/// The tiles of zoom `z` with `min_x <= x <= max_x` and `min_y <= y <= max_y`.
#[derive(Debug, Clone, Copy, PartialEq, Eq, Structural)]
pub struct TileRange {
    pub z: u8,
    pub min_x: u32,
    pub max_x: u32,
    pub min_y: u32,
    pub max_y: u32,
}

impl TileRange {
    pub open spec fn width(self) -> nat {
        if self.max_x >= self.min_x { (self.max_x - self.min_x + 1) as nat } else { 0 }
    }

    pub open spec fn height(self) -> nat {
        if self.max_y >= self.min_y { (self.max_y - self.min_y + 1) as nat } else { 0 }
    }

    /// `tile` lies in the range.
    pub open spec fn holds(self, tile: SlippyTile) -> bool {
        tile.z == self.z && self.min_x <= tile.x <= self.max_x && self.min_y <= tile.y <= self.max_y
    }

    /// The `i`-th tile of the range, column by column, top to bottom in each column.
    pub open spec fn nth(self, i: int) -> SlippyTile {
        SlippyTile {
            z: self.z,
            x: (self.min_x + i / (self.height() as int)) as u32,
            y: (self.min_y + i % (self.height() as int)) as u32,
        }
    }

    /// Number of tiles in the range.
    pub fn tile_count(&self) -> (count: u128)
        ensures
            count == self.width() * self.height(),
    {
        let w: u128 = if self.max_x >= self.min_x { (self.max_x - self.min_x) as u128 + 1 } else { 0 };
        let h: u128 = if self.max_y >= self.min_y { (self.max_y - self.min_y) as u128 + 1 } else { 0 };
        assert(w * h <= 0x1_0000_0000u128 * 0x1_0000_0000u128) by (nonlinear_arith)
            requires
                w <= 0x1_0000_0000u128,
                h <= 0x1_0000_0000u128,
        ;
        w * h
    }

    /// Every tile of the range, column by column, each column top to bottom.
    pub fn tiles(&self) -> (tiles: Vec<SlippyTile>)
        ensures
            tiles@.len() == self.width() * self.height(),
            forall|i: int| 0 <= i < tiles@.len() ==> #[trigger] tiles@[i] == self.nth(i),
    {
        let mut tiles: Vec<SlippyTile> = Vec::new();
        if self.max_x < self.min_x || self.max_y < self.min_y {
            assert(self.width() * self.height() == 0) by (nonlinear_arith)
                requires
                    self.width() == 0 || self.height() == 0,
            ;
            return tiles;
        }
        let ghost h = self.height() as int;
        let mut x = self.min_x;
        loop
            invariant_except_break
                tiles@.len() == (x - self.min_x) * h,
            invariant
                self.min_x <= x <= self.max_x,
                self.min_y <= self.max_y,
                h == self.height(),
                h >= 1,
                forall|i: int| 0 <= i < tiles@.len() ==> #[trigger] tiles@[i] == self.nth(i),
            ensures
                tiles@.len() == self.width() * h,
                forall|i: int| 0 <= i < tiles@.len() ==> #[trigger] tiles@[i] == self.nth(i),
            decreases self.max_x - x,
        {
            let mut y = self.min_y;
            loop
                invariant_except_break
                    tiles@.len() == (x - self.min_x) * h + (y - self.min_y),
                invariant
                    self.min_x <= x <= self.max_x,
                    self.min_y <= y <= self.max_y,
                    h == self.height(),
                    h >= 1,
                    forall|i: int| 0 <= i < tiles@.len() ==> #[trigger] tiles@[i] == self.nth(i),
                ensures
                    tiles@.len() == (x - self.min_x) * h + h,
                    forall|i: int| 0 <= i < tiles@.len() ==> #[trigger] tiles@[i] == self.nth(i),
                decreases self.max_y - y,
            {
                let ghost k = tiles@.len() as int;
                proof {
                    let c = (x - self.min_x) as int;
                    let r = (y - self.min_y) as int;
                    assert(k / h == c && k % h == r) by (nonlinear_arith)
                        requires
                            k == c * h + r,
                            0 <= r < h,
                            c >= 0,
                    ;
                }
                tiles.push(SlippyTile { z: self.z, x, y });
                if y == self.max_y {
                    break;
                }
                y = y + 1;
            }
            if x == self.max_x {
                proof {
                    assert((x - self.min_x) * h + h == self.width() * h) by (nonlinear_arith)
                        requires
                            self.width() == x - self.min_x + 1,
                    ;
                }
                break;
            }
            proof {
                assert((x - self.min_x) * h + h == (x + 1 - self.min_x) * h) by (nonlinear_arith);
            }
            x = x + 1;
        }
        tiles
    }
}

/// `2^e` for `e < 32`.
pub fn pow2_u32(e: u32) -> (p: u32)
    requires
        e < 32,
    ensures
        p == pow2(e as nat),
{
    let mut p: u32 = 1;
    let mut i: u32 = 0;
    proof {
        vstd::arithmetic::power2::lemma2_to64();
    }
    while i < e
        invariant
            i <= e,
            e < 32,
            p == pow2(i as nat),
        decreases e - i,
    {
        proof {
            lemma_pow2_unfold((i + 1) as nat);
            vstd::arithmetic::power2::lemma_pow2_strictly_increases((i + 1) as nat, 32);
            vstd::arithmetic::power2::lemma2_to64();
        }
        p = p * 2;
        i = i + 1;
    }
    p
}

/// Why a chunk cannot be mapped onto the tiles of another zoom level.
#[derive(Debug, Clone, Copy, PartialEq, Eq, Structural)]
pub enum TileSplitError {
    /// The chunk's zoom is above [`MAX_MVT_ZOOM`].
    ChunkZoomTooLarge,
    /// The target zoom is 32 or more levels above the chunk's.
    ZoomDeltaTooLarge,
    /// The first column at the target zoom does not fit in a `u32`.
    XOverflow,
    /// The first row at the target zoom does not fit in a `u32`.
    YOverflow,
}

/// The outcome of [`target_tiles_for_chunk`], tile by tile.
pub open spec fn target_tiles_spec(chunk: SlippyTile, zoom: u8) -> Result<Seq<SlippyTile>, TileSplitError> {
    if chunk.z > MAX_MVT_ZOOM {
        Err(TileSplitError::ChunkZoomTooLarge)
    } else if zoom == chunk.z {
        Ok(seq![chunk])
    } else if zoom < chunk.z {
        let scale = pow2((chunk.z - zoom) as nat);
        Ok(seq![SlippyTile { z: zoom, x: (chunk.x as nat / scale) as u32, y: (chunk.y as nat / scale) as u32 }])
    } else if zoom - chunk.z >= 32 {
        Err(TileSplitError::ZoomDeltaTooLarge)
    } else {
        let scale = pow2((zoom - chunk.z) as nat);
        if chunk.x * scale > u32::MAX {
            Err(TileSplitError::XOverflow)
        } else if chunk.y * scale > u32::MAX {
            Err(TileSplitError::YOverflow)
        } else {
            Ok(Seq::new(
                scale * scale,
                |i: int|
                    SlippyTile {
                        z: zoom,
                        x: (chunk.x * scale + i / (scale as int)) as u32,
                        y: (chunk.y * scale + i % (scale as int)) as u32,
                    },
            ))
        }
    }
}

/// The tile at offset `i` of the `scale` by `scale` block whose first tile is
/// (`min_x`, `min_y`), column by column.
pub open spec fn block_tile(zoom: u8, min_x: nat, min_y: nat, scale: nat, i: int) -> SlippyTile {
    SlippyTile {
        z: zoom,
        x: (min_x + i / (scale as int)) as u32,
        y: (min_y + i % (scale as int)) as u32,
    }
}

/// `x * 2^delta + 2^delta - 1` fits in a `u32` whenever `x * 2^delta` does.
proof fn lemma_block_fits(x: nat, delta: nat)
    requires
        delta < 32,
        x * pow2(delta) <= u32::MAX,
    ensures
        x * pow2(delta) + pow2(delta) - 1 <= u32::MAX,
{
    let scale = pow2(delta);
    let q = pow2((32 - delta) as nat);
    vstd::arithmetic::power2::lemma_pow2_adds(delta, (32 - delta) as nat);
    vstd::arithmetic::power2::lemma2_to64();
    vstd::arithmetic::power2::lemma_pow2_pos(delta);
    assert(scale * q == 0x1_0000_0000);
    assert(x < q) by (nonlinear_arith)
        requires
            x * scale < scale * q,
            scale > 0,
    ;
    assert(x * scale + scale <= scale * q) by (nonlinear_arith)
        requires
            x + 1 <= q,
            scale > 0,
    ;
}

/// The tiles at `zoom` that cover `chunk`: the chunk itself at its own zoom,
/// its ancestor at a lower zoom, and every descendant, column by column, at a
/// higher zoom.
pub fn target_tiles_for_chunk(chunk: SlippyTile, zoom: u8) -> (result: Result<Vec<SlippyTile>, TileSplitError>)
    ensures
        result matches Ok(tiles) ==> target_tiles_spec(chunk, zoom) == Ok::<Seq<SlippyTile>, TileSplitError>(tiles@),
        result matches Err(e) ==> target_tiles_spec(chunk, zoom) == Err::<Seq<SlippyTile>, TileSplitError>(e),
{
    if chunk.z > MAX_MVT_ZOOM {
        return Err(TileSplitError::ChunkZoomTooLarge);
    }
    if zoom == chunk.z {
        let mut tiles = Vec::new();
        tiles.push(chunk);
        assert(tiles@ =~= seq![chunk]);
        return Ok(tiles);
    }
    if zoom < chunk.z {
        let delta = chunk.z - zoom;
        let scale = pow2_u32(delta as u32);
        proof {
            vstd::arithmetic::power2::lemma_pow2_pos(delta as nat);
        }
        let mut tiles = Vec::new();
        tiles.push(SlippyTile { z: zoom, x: chunk.x / scale, y: chunk.y / scale });
        assert(tiles@ =~= seq![SlippyTile { z: zoom, x: (chunk.x as nat / scale as nat) as u32, y: (chunk.y as nat / scale as nat) as u32 }]);
        return Ok(tiles);
    }
    let delta = zoom - chunk.z;
    if delta >= 32 {
        return Err(TileSplitError::ZoomDeltaTooLarge);
    }
    let scale = pow2_u32(delta as u32);
    let min_x = match chunk.x.checked_mul(scale) {
        Some(v) => v,
        None => {
            return Err(TileSplitError::XOverflow);
        },
    };
    let min_y = match chunk.y.checked_mul(scale) {
        Some(v) => v,
        None => {
            return Err(TileSplitError::YOverflow);
        },
    };
    proof {
        vstd::arithmetic::power2::lemma_pow2_pos(delta as nat);
        lemma_block_fits(chunk.x as nat, delta as nat);
        lemma_block_fits(chunk.y as nat, delta as nat);
    }
    let ghost n = scale as int;
    let mut tiles: Vec<SlippyTile> = Vec::new();
    let mut x_offset: u32 = 0;
    while x_offset < scale
        invariant
            x_offset <= scale,
            n == scale,
            scale >= 1,
            min_x + scale - 1 <= u32::MAX,
            min_y + scale - 1 <= u32::MAX,
            tiles@.len() == x_offset * n,
            forall|i: int| 0 <= i < tiles@.len() ==> #[trigger] tiles@[i] == block_tile(zoom, min_x as nat, min_y as nat, scale as nat, i),
        decreases scale - x_offset,
    {
        let mut y_offset: u32 = 0;
        while y_offset < scale
            invariant
                x_offset < scale,
                y_offset <= scale,
                n == scale,
                scale >= 1,
                min_x + scale - 1 <= u32::MAX,
                min_y + scale - 1 <= u32::MAX,
                tiles@.len() == x_offset * n + y_offset,
                forall|i: int| 0 <= i < tiles@.len() ==> #[trigger] tiles@[i] == block_tile(zoom, min_x as nat, min_y as nat, scale as nat, i),
            decreases scale - y_offset,
        {
            proof {
                let k = tiles@.len() as int;
                let c = x_offset as int;
                let r = y_offset as int;
                assert(k / n == c && k % n == r) by (nonlinear_arith)
                    requires
                        k == c * n + r,
                        0 <= r < n,
                        c >= 0,
                ;
            }
            tiles.push(SlippyTile { z: zoom, x: min_x + x_offset, y: min_y + y_offset });
            y_offset = y_offset + 1;
        }
        proof {
            assert(x_offset * n + n == (x_offset + 1) * n) by (nonlinear_arith);
        }
        x_offset = x_offset + 1;
    }
    proof {
        let f = |i: int| SlippyTile {
            z: zoom,
            x: (chunk.x * (scale as nat) + i / (scale as int)) as u32,
            y: (chunk.y * (scale as nat) + i % (scale as int)) as u32,
        };
        assert(tiles@ =~= Seq::new((scale as nat) * (scale as nat), f));
    }
    Ok(tiles)
}

/// The default vector tile extent, in tile units.
pub const DEFAULT_MVT_EXTENT: u16 = 4096;

/// The default vector tile buffer, in tile units.
pub const DEFAULT_MVT_BUFFER: u16 = 64;

/// Why vector tile options are refused.
#[derive(Debug, Clone, Copy, PartialEq, Eq, Structural)]
pub enum TileOptionsError {
    /// The extent is 0.
    ZeroExtent,
    /// The simplification tolerance is not a finite number at least 0.
    InvalidTolerance,
    /// The buffer is not smaller than the extent.
    BufferNotBelowExtent,
}

/// Checks vector tile options in this order: the extent must be positive,
/// the tolerance valid (`tolerance_valid`: finite and at least 0), and the
/// buffer smaller than the extent.
pub fn validate_tile_options(extent: u16, buffer: u16, tolerance_valid: bool) -> (checked: Result<(), TileOptionsError>)
    ensures
        checked is Ok <==> extent > 0 && tolerance_valid && buffer < extent,
        checked == Err::<(), TileOptionsError>(TileOptionsError::ZeroExtent) <==> extent == 0,
        checked == Err::<(), TileOptionsError>(TileOptionsError::InvalidTolerance) <==> extent > 0 && !tolerance_valid,
        checked == Err::<(), TileOptionsError>(TileOptionsError::BufferNotBelowExtent) <==> extent > 0 && tolerance_valid && buffer >= extent,
{
    if extent == 0 {
        return Err(TileOptionsError::ZeroExtent);
    }
    if !tolerance_valid {
        return Err(TileOptionsError::InvalidTolerance);
    }
    if buffer >= extent {
        return Err(TileOptionsError::BufferNotBelowExtent);
    }
    Ok(())
}

/// The place of `tile` among the tiles of its zoom: by column, then by row.
pub open spec fn column_row_key(tile: SlippyTile) -> int {
    tile.x * 0x1_0000_0000 + tile.y
}

/// `tile` is one of the tiles at `zoom` that some chunk of `chunks` maps to.
pub open spec fn covered_by(chunks: Seq<SlippyTile>, zoom: u8, tile: SlippyTile) -> bool {
    exists|c: int|
        0 <= c < chunks.len() && match #[trigger] target_tiles_spec(chunks[c], zoom) {
            Ok(tiles) => tiles.contains(tile),
            Err(_) => false,
        }
}

proof fn lemma_target_tiles_zoom(chunk: SlippyTile, zoom: u8, i: int)
    requires
        target_tiles_spec(chunk, zoom) is Ok,
        0 <= i < target_tiles_spec(chunk, zoom)->Ok_0.len(),
    ensures
        target_tiles_spec(chunk, zoom)->Ok_0[i].z == zoom,
{
}

proof fn lemma_column_row_key_injective(a: SlippyTile, b: SlippyTile)
    requires
        column_row_key(a) == column_row_key(b),
    ensures
        a.x == b.x,
        a.y == b.y,
{
    assert(a.x == b.x) by (nonlinear_arith)
        requires
            a.x * 0x1_0000_0000 + a.y == b.x * 0x1_0000_0000 + b.y,
            0 <= a.y < 0x1_0000_0000,
            0 <= b.y < 0x1_0000_0000,
            0 <= a.x,
            0 <= b.x,
    ;
}

/// The tiles at `zoom` that the chunks map to, each once, by column and
/// then row; the error of the first chunk that cannot be mapped.
pub fn target_tiles_for_chunks(chunks: &[SlippyTile], zoom: u8) -> (result: Result<Vec<SlippyTile>, TileSplitError>)
    ensures
        result is Ok <==> forall|c: int| 0 <= c < chunks@.len() ==> #[trigger] target_tiles_spec(chunks@[c], zoom) is Ok,
        result matches Err(e) ==> exists|c: int|
            0 <= c < chunks@.len() && #[trigger] target_tiles_spec(chunks@[c], zoom) == Err::<Seq<SlippyTile>, TileSplitError>(e)
                && forall|d: int| 0 <= d < c ==> #[trigger] target_tiles_spec(chunks@[d], zoom) is Ok,
        result matches Ok(tiles) ==> {
            &&& forall|i: int, j: int| 0 <= i < j < tiles@.len() ==> column_row_key(#[trigger] tiles@[i]) < column_row_key(#[trigger] tiles@[j])
            &&& forall|i: int| 0 <= i < tiles@.len() ==> (#[trigger] tiles@[i]).z == zoom && covered_by(chunks@, zoom, tiles@[i])
            &&& forall|t: SlippyTile| covered_by(chunks@, zoom, t) ==> #[trigger] tiles@.contains(t)
        },
{
    broadcast use vstd::seq_lib::group_to_multiset_ensures;

    let mut all: Vec<SlippyTile> = Vec::new();
    let mut c: usize = 0;
    while c < chunks.len()
        invariant
            c <= chunks@.len(),
            forall|d: int| 0 <= d < c ==> #[trigger] target_tiles_spec(chunks@[d], zoom) is Ok,
            forall|k: int| 0 <= k < all@.len() ==> (#[trigger] all@[k]).z == zoom && covered_by(chunks@, zoom, all@[k]),
            forall|t: SlippyTile| covered_by(chunks@.take(c as int), zoom, t) ==> #[trigger] all@.contains(t),
        decreases chunks@.len() - c,
    {
        match target_tiles_for_chunk(chunks[c], zoom) {
            Err(e) => {
                return Err(e);
            },
            Ok(mut tiles) => {
                let ghost before = all@;
                let ghost added = tiles@;
                all.append(&mut tiles);
                proof {
                    assert forall|k: int| 0 <= k < all@.len() implies (#[trigger] all@[k]).z == zoom && covered_by(chunks@, zoom, all@[k]) by {
                        if k >= before.len() {
                            let j = k - before.len();
                            assert(all@[k] == added[j]);
                            lemma_target_tiles_zoom(chunks@[c as int], zoom, j);
                            assert(added.contains(all@[k]));
                            assert(target_tiles_spec(chunks@[c as int], zoom) == Ok::<Seq<SlippyTile>, TileSplitError>(added));
                        } else {
                            assert(all@[k] == before[k]);
                        }
                    }
                    assert forall|t: SlippyTile| covered_by(chunks@.take(c + 1), zoom, t) implies #[trigger] all@.contains(t) by {
                        let d = choose|d: int|
                            0 <= d < chunks@.take(c + 1).len() && match #[trigger] target_tiles_spec(chunks@.take(c + 1)[d], zoom) {
                                Ok(tiles) => tiles.contains(t),
                                Err(_) => false,
                            };
                        if d < c {
                            assert(chunks@.take(c as int)[d] == chunks@.take(c + 1)[d]);
                            assert(covered_by(chunks@.take(c as int), zoom, t));
                            assert(before.contains(t));
                            let k = choose|k: int| 0 <= k < before.len() && before[k] == t;
                            assert(all@[k] == t);
                        } else {
                            assert(chunks@.take(c + 1)[d] == chunks@[c as int]);
                            let j = choose|j: int| 0 <= j < added.len() && added[j] == t;
                            assert(all@[before.len() + j] == t);
                        }
                    }
                }
            },
        }
        c = c + 1;
    }
    proof {
        assert(chunks@.take(chunks@.len() as int) == chunks@);
    }
    let n = all.len();
    let mut keys: Vec<SortKey> = Vec::new();
    let mut i: usize = 0;
    while i < n
        invariant
            n == all@.len(),
            i <= n,
            keys@.len() == i,
            forall|k: int| 0 <= k < i ==> (#[trigger] keys@[k]) == (column_row_key(all@[k]) as u64, k as usize),
        decreases n - i,
    {
        let t = all[i];
        keys.push(((t.x as u64) * 0x1_0000_0000 + (t.y as u64), i));
        i = i + 1;
    }
    let sorted = sort_keys(&keys, 0, n);
    proof {
        assert(keys@.subrange(0, n as int) == keys@);
        assert(sorted@.len() == sorted@.to_multiset().len());
        assert(keys@.len() == keys@.to_multiset().len());
        assert forall|p: int| 0 <= p < sorted@.len() implies (#[trigger] sorted@[p]).1 < n && sorted@[p].0 == column_row_key(all@[sorted@[p].1 as int]) by {
            assert(sorted@.contains(sorted@[p]));
            assert(sorted@.to_multiset().count(sorted@[p]) > 0);
            assert(keys@.to_multiset().count(sorted@[p]) > 0);
            assert(keys@.contains(sorted@[p]));
        }
        assert forall|k: int| 0 <= k < n implies sorted@.contains(#[trigger] keys@[k]) by {
            assert(keys@.contains(keys@[k]));
            assert(keys@.to_multiset().count(keys@[k]) > 0);
            assert(sorted@.to_multiset().count(keys@[k]) > 0);
            assert(sorted@.contains(keys@[k]));
        }
    }
    let mut out: Vec<SlippyTile> = Vec::new();
    let mut p: usize = 0;
    while p < n
        invariant
            n == all@.len(),
            sorted@.len() == n,
            p <= n,
            keys_sorted(sorted@),
            forall|q: int| 0 <= q < sorted@.len() ==> (#[trigger] sorted@[q]).1 < n && sorted@[q].0 == column_row_key(all@[sorted@[q].1 as int]),
            forall|k: int| 0 <= k < all@.len() ==> (#[trigger] all@[k]).z == zoom && covered_by(chunks@, zoom, all@[k]),
            forall|i: int, j: int| 0 <= i < j < out@.len() ==> column_row_key(#[trigger] out@[i]) < column_row_key(#[trigger] out@[j]),
            forall|i: int| 0 <= i < out@.len() ==> (#[trigger] out@[i]).z == zoom && covered_by(chunks@, zoom, out@[i]),
            forall|q: int| 0 <= q < p ==> out@.contains(#[trigger] all@[sorted@[q].1 as int]),
            p > 0 ==> out@.len() > 0 && column_row_key(out@.last()) == sorted@[p - 1].0,
            p == 0 ==> out@.len() == 0,
        decreases n - p,
    {
        let k = sorted[p];
        let t = all[k.1];
        let fresh = if out.len() == 0 {
            true
        } else {
            let last = out[out.len() - 1];
            (last.x as u64) * 0x1_0000_0000 + (last.y as u64) != k.0
        };
        let ghost before = out@;
        if fresh {
            out.push(t);
            proof {
                if p > 0 {
                    assert(key_lt(sorted@[p - 1], sorted@[p as int]));
                }
                assert forall|i: int, j: int| 0 <= i < j < out@.len() implies column_row_key(#[trigger] out@[i]) < column_row_key(#[trigger] out@[j]) by {
                    if j == out@.len() - 1 && i < before.len() - 1 {
                        assert(column_row_key(before[i]) < column_row_key(before.last()));
                    }
                }
                assert forall|q: int| 0 <= q < p + 1 implies out@.contains(#[trigger] all@[sorted@[q].1 as int]) by {
                    if q < p {
                        assert(before.contains(all@[sorted@[q].1 as int]));
                        let m = choose|m: int| 0 <= m < before.len() && before[m] == all@[sorted@[q].1 as int];
                        assert(out@[m] == before[m]);
                    } else {
                        assert(out@[out@.len() - 1] == t);
                    }
                }
            }
        } else {
            proof {
                assert(column_row_key(out@.last()) == column_row_key(t));
                lemma_column_row_key_injective(out@.last(), t);
                assert(out@.last() == t);
                assert(out@[out@.len() - 1] == t);
            }
        }
        p = p + 1;
    }
    proof {
        assert forall|t: SlippyTile| covered_by(chunks@, zoom, t) implies #[trigger] out@.contains(t) by {
            assert(covered_by(chunks@.take(chunks@.len() as int), zoom, t));
            assert(all@.contains(t));
            let k = choose|k: int| 0 <= k < all@.len() && all@[k] == t;
            assert(keys@[k] == (column_row_key(all@[k]) as u64, k as usize));
            assert(sorted@.contains(keys@[k]));
            let q = choose|q: int| 0 <= q < sorted@.len() && sorted@[q] == keys@[k];
            assert(out@.contains(all@[sorted@[q].1 as int]));
        }
    }
    Ok(out)
}

/// Positions `i < j` of a column-by-column listing with columns `h` long:
/// `j` is in a later column, or lower in the same one.
proof fn lemma_column_order(i: int, j: int, h: int)
    requires
        0 <= i < j,
        h > 0,
    ensures
        i / h < j / h || (i / h == j / h && i % h < j % h),
{
    lemma_fundamental_div_mod(i, h);
    lemma_fundamental_div_mod(j, h);
    let (qi, ri, qj, rj) = (i / h, i % h, j / h, j % h);
    assert(0 <= ri < h && 0 <= rj < h);
    assert(qi < qj || (qi == qj && ri < rj)) by (nonlinear_arith)
        requires
            i == h * qi + ri,
            j == h * qj + rj,
            0 <= ri < h,
            0 <= rj < h,
            i < j,
    ;
}

/// A range's tiles come in ascending (`x`, `y`) order, so none occurs twice,
/// and every tile of the range is among them.
pub proof fn lemma_range_tiles_ordered(range: TileRange)
    ensures
        forall|i: int, j: int|
            0 <= i < j < range.width() * range.height() ==> {
                let (a, b) = (#[trigger] range.nth(i), #[trigger] range.nth(j));
                a.x < b.x || (a.x == b.x && a.y < b.y)
            },
        forall|t: SlippyTile| #[trigger] range.holds(t) ==> exists|i: int|
            0 <= i < range.width() * range.height() && #[trigger] range.nth(i) == t,
{
    let h = range.height() as int;
    let w = range.width() as int;
    assert forall|i: int, j: int| 0 <= i < j < range.width() * range.height() implies {
        let (a, b) = (#[trigger] range.nth(i), #[trigger] range.nth(j));
        a.x < b.x || (a.x == b.x && a.y < b.y)
    } by {
        assert(h > 0) by (nonlinear_arith)
            requires
                0 < j,
                j < w * h,
                w >= 0,
                h >= 0,
        ;
        assert(j / h < w) by {
            lemma_fundamental_div_mod(j, h);
            assert(j / h < w) by (nonlinear_arith)
                requires
                    j == h * (j / h) + j % h,
                    0 <= j % h,
                    j < w * h,
                    h > 0,
            ;
        }
        lemma_column_order(i, j, h);
        assert(0 <= i / h) by (nonlinear_arith)
            requires
                0 <= i,
                h > 0,
        ;
    }
    assert forall|t: SlippyTile| #[trigger] range.holds(t) implies exists|i: int|
        0 <= i < range.width() * range.height() && #[trigger] range.nth(i) == t by {
        let q = t.x - range.min_x;
        let r = t.y - range.min_y;
        let i = q * h + r;
        lemma_fundamental_div_mod_converse(i, h, q, r);
        assert(i < w * h) by (nonlinear_arith)
            requires
                i == q * h + r,
                0 <= q < w,
                0 <= r < h,
        ;
        assert(range.nth(i) == t);
    }
}

/// Each tile a chunk maps to lies over the chunk, and at a higher zoom every
/// tile under the chunk is among them: at the chunk's zoom or above, a target
/// tile's ancestor at the chunk's zoom is the chunk; below it, the target
/// tile is the chunk's ancestor.
pub proof fn lemma_target_tiles_cover_chunk(chunk: SlippyTile, zoom: u8)
    requires
        target_tiles_spec(chunk, zoom) is Ok,
    ensures
        forall|i: int|
            0 <= i < target_tiles_spec(chunk, zoom)->Ok_0.len() ==> {
                let t = #[trigger] target_tiles_spec(chunk, zoom)->Ok_0[i];
                &&& t.z == zoom
                &&& zoom >= chunk.z ==> t.x as nat / pow2((zoom - chunk.z) as nat) == chunk.x
                    && t.y as nat / pow2((zoom - chunk.z) as nat) == chunk.y
                &&& zoom < chunk.z ==> chunk.x as nat / pow2((chunk.z - zoom) as nat) == t.x
                    && chunk.y as nat / pow2((chunk.z - zoom) as nat) == t.y
            },
        zoom >= chunk.z ==> forall|x: u32, y: u32|
            x as nat / pow2((zoom - chunk.z) as nat) == chunk.x && y as nat / pow2((zoom - chunk.z) as nat) == chunk.y
                ==> #[trigger] target_tiles_spec(chunk, zoom)->Ok_0.contains(SlippyTile { z: zoom, x, y }),
{
    let tiles = target_tiles_spec(chunk, zoom)->Ok_0;
    if zoom == chunk.z {
        vstd::arithmetic::power2::lemma2_to64();
        assert(pow2(0) == 1);
        assert(tiles.len() == 1 && tiles[0] == chunk);
        assert(chunk.x as nat / 1 == chunk.x && chunk.y as nat / 1 == chunk.y);
        assert forall|x: u32, y: u32|
            x as nat / pow2((zoom - chunk.z) as nat) == chunk.x && y as nat / pow2((zoom - chunk.z) as nat) == chunk.y
                implies #[trigger] tiles.contains(SlippyTile { z: zoom, x, y }) by {
            assert(tiles[0] == SlippyTile { z: zoom, x, y });
        }
    } else if zoom < chunk.z {
        let delta = (chunk.z - zoom) as nat;
        vstd::arithmetic::power2::lemma_pow2_pos(delta);
        assert(chunk.x as nat / pow2(delta) <= chunk.x) by (nonlinear_arith)
            requires
                pow2(delta) > 0,
        ;
        assert(chunk.y as nat / pow2(delta) <= chunk.y) by (nonlinear_arith)
            requires
                pow2(delta) > 0,
        ;
        assert(tiles.len() == 1);
        assert(tiles[0].x == chunk.x as nat / pow2(delta));
        assert(tiles[0].y == chunk.y as nat / pow2(delta));
    } else {
        let delta = (zoom - chunk.z) as nat;
        let scale = pow2(delta);
        vstd::arithmetic::power2::lemma_pow2_pos(delta);
        lemma_block_fits(chunk.x as nat, delta);
        lemma_block_fits(chunk.y as nat, delta);
        assert forall|i: int| 0 <= i < tiles.len() implies {
            let t = #[trigger] tiles[i];
            &&& t.z == zoom
            &&& t.x as nat / scale == chunk.x && t.y as nat / scale == chunk.y
        } by {
            let q = i / (scale as int);
            let r = i % (scale as int);
            assert(0 <= q < scale && 0 <= r < scale && i == q * scale + r) by (nonlinear_arith)
                requires
                    0 <= i < scale * scale,
                    scale > 0,
                    q == i / (scale as int),
                    r == i % (scale as int),
            ;
            assert((chunk.x * scale + q) / (scale as int) == chunk.x) by (nonlinear_arith)
                requires
                    0 <= q < scale,
                    scale > 0,
                    chunk.x >= 0,
            ;
            assert((chunk.y * scale + r) / (scale as int) == chunk.y) by (nonlinear_arith)
                requires
                    0 <= r < scale,
                    scale > 0,
                    chunk.y >= 0,
            ;
            assert(tiles[i].x as int == chunk.x * scale + q);
            assert(tiles[i].y as int == chunk.y * scale + r);
        }
        assert forall|x: u32, y: u32|
            x as nat / scale == chunk.x && y as nat / scale == chunk.y implies #[trigger] tiles.contains(SlippyTile { z: zoom, x, y }) by {
            let a = x as int - chunk.x * scale;
            let b = y as int - chunk.y * scale;
            assert(0 <= a < scale) by (nonlinear_arith)
                requires
                    x as int / (scale as int) == chunk.x,
                    scale > 0,
                    a == x as int - chunk.x * scale,
                    x >= 0,
            ;
            assert(0 <= b < scale) by (nonlinear_arith)
                requires
                    y as int / (scale as int) == chunk.y,
                    scale > 0,
                    b == y as int - chunk.y * scale,
                    y >= 0,
            ;
            let i = a * scale + b;
            assert(0 <= i < scale * scale && i / (scale as int) == a && i % (scale as int) == b) by (nonlinear_arith)
                requires
                    0 <= a < scale,
                    0 <= b < scale,
                    i == a * scale + b,
            ;
            assert(tiles[i] == SlippyTile { z: zoom, x, y });
        }
    }
}

} // verus!
