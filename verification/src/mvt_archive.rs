//! The tiles of a `{z}/{x}/{y}.mvt` directory tree on their way into a
//! PMTiles archive. Walking the directories happens outside; this module
//! reads the directory and file names, checks each coordinate against the
//! PMTiles format, orders the tiles by their PMTiles tile id and refuses a
//! tree that holds a tile twice.
use vstd::arithmetic::power2::pow2;
use vstd::prelude::*;
use crate::key_sort::{key_lt, keys_sorted, sort_keys, SortKey};
use crate::tiles::SlippyTile;
use pmtiles::{PmtError, TileCoord, TileId};

verus! {

#[verifier::external_type_specification]
#[verifier::external_body]
pub struct ExTileCoord(pmtiles::TileCoord);

#[verifier::external_type_specification]
#[verifier::external_body]
pub struct ExPmtError(pmtiles::PmtError);

/// Whether the PMTiles format has tile `z`/`x`/`y`: zoom at most 31 and both
/// coordinates below `2^z`.
pub open spec fn valid_tile_coord(z: u8, x: u32, y: u32) -> bool {
    z <= 31 && (x as int) < pow2(z as nat) && (y as int) < pow2(z as nat)
}

/// The PMTiles tile id of `z`/`x`/`y`: the number of tiles on the zoom
/// levels above `z` plus the tile's position on the Hilbert curve of zoom `z`.
pub uninterp spec fn pmtiles_tile_id(z: u8, x: u32, y: u32) -> u64;

/// The coordinate value that `pmtiles::TileCoord::new` builds from
/// `z`/`x`/`y` where they are valid.
pub uninterp spec fn pmtiles_tile_coord(z: u8, x: u32, y: u32) -> TileCoord;

/// `pmtiles::TileCoord::new`: the coordinate of `z`/`x`/`y` where PMTiles
/// accepts it (zoom at most 31, both coordinates below `2^z`), an error
/// otherwise. The coordinate depends on `z`, `x` and `y` alone (the crate
/// stores the three numbers).
#[verifier::external_body]
fn new_tile_coord(z: u8, x: u32, y: u32) -> (coord: Result<TileCoord, PmtError>)
    ensures
        coord is Ok <==> valid_tile_coord(z, x, y),
        coord matches Ok(c) ==> c == pmtiles_tile_coord(z, x, y),
{
    TileCoord::new(z, x, y)
}

/// `TileId::from(TileCoord)` and `TileId::value` for a valid `z`/`x`/`y`:
/// the tile's PMTiles id. The id of the zoom-0 tile is 0, and no other valid
/// coordinate has the same id (`TileCoord::from(TileId)` is its inverse).
#[verifier::external_body]
fn tile_id_of(z: u8, x: u32, y: u32) -> (id: u64)
    requires
        valid_tile_coord(z, x, y),
    ensures
        id == pmtiles_tile_id(z, x, y),
        z == 0 ==> id == 0,
        forall|z2: u8, x2: u32, y2: u32|
            valid_tile_coord(z2, x2, y2) && #[trigger] pmtiles_tile_id(z2, x2, y2) == id ==> z2 == z
                && x2 == x && y2 == y,
{
    TileId::from(TileCoord::new(z, x, y).expect("coordinate checked by the caller")).value()
}

/// Why a tile tree cannot become an archive.
#[derive(Debug, Clone, Copy, PartialEq, Eq, Structural)]
pub enum MvtTilesError {
    /// PMTiles has no tile `z`/`x`/`y`.
    InvalidCoordinate { z: u8, x: u32, y: u32 },
    /// `tile` was found twice: at the entries that `first` and `second` name.
    DuplicateTile { tile: SlippyTile, first: usize, second: usize },
}

/// A tile found in the tree: its coordinate, its PMTiles coordinate and id,
/// and `source`, the caller's number for the file it came from.
#[derive(Clone, Copy)]
pub struct MvtInput {
    tile: SlippyTile,
    coord: TileCoord,
    tile_id: u64,
    source: usize,
}

impl MvtInput {
    /// The coordinate is one PMTiles has, `coord` is its PMTiles coordinate,
    /// `tile_id` is its id, and no other valid coordinate has that id.
    #[verifier::type_invariant]
    closed spec fn inv(&self) -> bool {
        &&& valid_tile_coord(self.tile.z, self.tile.x, self.tile.y)
        &&& self.coord == pmtiles_tile_coord(self.tile.z, self.tile.x, self.tile.y)
        &&& self.tile_id == pmtiles_tile_id(self.tile.z, self.tile.x, self.tile.y)
        &&& forall|z2: u8, x2: u32, y2: u32|
            valid_tile_coord(z2, x2, y2) && #[trigger] pmtiles_tile_id(z2, x2, y2) == self.tile_id ==> z2
                == self.tile.z && x2 == self.tile.x && y2 == self.tile.y
    }

    pub closed spec fn spec_tile(&self) -> SlippyTile {
        self.tile
    }

    pub closed spec fn spec_tile_id(&self) -> u64 {
        self.tile_id
    }

    pub closed spec fn spec_source(&self) -> usize {
        self.source
    }

    /// Checks `z`/`x`/`y` against the PMTiles format and, where PMTiles has
    /// that tile, records it with its id and `source`.
    pub fn new(z: u8, x: u32, y: u32, source: usize) -> (input: Result<MvtInput, MvtTilesError>)
        ensures
            input is Err <==> !valid_tile_coord(z, x, y),
            input matches Err(e) ==> e == (MvtTilesError::InvalidCoordinate { z, x, y }),
            input matches Ok(t) ==> {
                &&& t.spec_tile() == (SlippyTile { z, x, y })
                &&& t.spec_tile_id() == pmtiles_tile_id(z, x, y)
                &&& t.spec_source() == source
            },
    {
        match new_tile_coord(z, x, y) {
            Ok(coord) => {
                let tile_id = tile_id_of(z, x, y);
                Ok(MvtInput { tile: SlippyTile { z, x, y }, coord, tile_id, source })
            },
            Err(_) => Err(MvtTilesError::InvalidCoordinate { z, x, y }),
        }
    }

    pub fn tile(&self) -> (tile: SlippyTile)
        ensures
            tile == self.spec_tile(),
    {
        self.tile
    }

    pub fn tile_id(&self) -> (tile_id: u64)
        ensures
            tile_id == self.spec_tile_id(),
    {
        self.tile_id
    }

    pub fn source(&self) -> (source: usize)
        ensures
            source == self.spec_source(),
    {
        self.source
    }

    /// The PMTiles coordinate of the tile.
    pub fn coord(&self) -> (coord: &TileCoord)
        ensures
            *coord == pmtiles_tile_coord(self.spec_tile().z, self.spec_tile().x, self.spec_tile().y),
    {
        proof {
            use_type_invariant(self);
        }
        &self.coord
    }

    /// Two valid tiles are the same tile exactly when their ids agree.
    proof fn lemma_same_tile_iff_same_id(a: MvtInput, b: MvtInput)
        requires
            a.inv(),
            b.inv(),
        ensures
            (a.tile == b.tile) <==> (a.tile_id == b.tile_id),
    {
        if a.tile_id == b.tile_id {
            assert(pmtiles_tile_id(b.tile.z, b.tile.x, b.tile.y) == a.tile_id);
        }
    }
}

/// Entries `i < j` of `tiles` name the same tile.
pub open spec fn duplicated(tiles: Seq<MvtInput>, i: int, j: int) -> bool {
    0 <= i < j < tiles.len() && tiles[i].spec_tile() == tiles[j].spec_tile()
}

/// Some tile occurs twice in `tiles`.
pub open spec fn has_duplicate_tile(tiles: Seq<MvtInput>) -> bool {
    exists|i: int, j: int| #[trigger] duplicated(tiles, i, j)
}

/// `ordered` holds the entries of `tiles`, each once, by strictly ascending
/// tile id.
pub open spec fn ordered_by_tile_id(tiles: Seq<MvtInput>, ordered: Seq<MvtInput>) -> bool {
    &&& ordered.len() == tiles.len()
    &&& forall|p: int, q: int| 0 <= p < q < ordered.len() ==> (#[trigger] ordered[p]).spec_tile_id() < (#[trigger] ordered[q]).spec_tile_id()
    &&& forall|p: int| 0 <= p < ordered.len() ==> tiles.contains(#[trigger] ordered[p])
    &&& forall|i: int| 0 <= i < tiles.len() ==> ordered.contains(#[trigger] tiles[i])
}

/// `error` names a tile that occurs twice in `tiles`, at its first two
/// entries `a < b`, whose sources it reports in that order, and no tile with
/// a smaller id occurs twice.
pub open spec fn reports_first_duplicate(tiles: Seq<MvtInput>, error: MvtTilesError) -> bool {
    exists|a: int, b: int| {
        &&& #[trigger] duplicated(tiles, a, b)
        &&& error == (MvtTilesError::DuplicateTile { tile: tiles[a].spec_tile(), first: tiles[a].spec_source(), second: tiles[b].spec_source() })
        &&& forall|i: int, j: int| #[trigger] duplicated(tiles, i, j) ==> tiles[a].spec_tile_id() <= tiles[i].spec_tile_id()
        &&& forall|i: int| 0 <= i < b && i != a ==> (#[trigger] tiles[i]).spec_tile() != tiles[a].spec_tile()
    }
}

/// What sorting the keys of `tiles` gave: every key is a tile's id and
/// position, every position occurs, and the keys ascend.
spec fn keys_of(tiles: Seq<MvtInput>, sorted: Seq<SortKey>) -> bool {
    &&& sorted.len() == tiles.len()
    &&& keys_sorted(sorted)
    &&& forall|p: int| 0 <= p < sorted.len() ==> 0 <= (#[trigger] sorted[p]).1 < tiles.len() && sorted[p].0 == tiles[sorted[p].1 as int].spec_tile_id()
    &&& forall|i: int| 0 <= i < tiles.len() ==> #[trigger] key_placed(sorted, i)
}

/// Two entries name the same tile exactly when their ids agree.
spec fn ids_match_tiles(tiles: Seq<MvtInput>) -> bool {
    forall|a: int, b: int|
        0 <= a < tiles.len() && 0 <= b < tiles.len() ==> ((#[trigger] tiles[a].spec_tile() == #[trigger] tiles[b].spec_tile()) == (tiles[a].spec_tile_id() == tiles[b].spec_tile_id()))
}

/// Some key in `sorted` carries position `i`.
spec fn key_placed(sorted: Seq<SortKey>, i: int) -> bool {
    exists|p: int| 0 <= p < sorted.len() && (#[trigger] sorted[p]).1 == i
}

/// The tiles of `tiles` ordered by PMTiles tile id, as the archive stores
/// them; an error naming the first tile (by id) that occurs twice.
pub fn order_mvt_inputs(tiles: Vec<MvtInput>) -> (ordered: Result<Vec<MvtInput>, MvtTilesError>)
    ensures
        ordered is Ok <==> !has_duplicate_tile(tiles@),
        ordered matches Ok(out) ==> ordered_by_tile_id(tiles@, out@),
        ordered matches Err(e) ==> reports_first_duplicate(tiles@, e),
{
    broadcast use vstd::seq_lib::group_to_multiset_ensures;

    let n = tiles.len();
    let mut keys: Vec<SortKey> = Vec::new();
    let mut i: usize = 0;
    while i < n
        invariant
            n == tiles@.len(),
            i <= n,
            keys@.len() == i,
            forall|k: int| 0 <= k < i ==> (#[trigger] keys@[k]) == (tiles@[k].spec_tile_id(), k as usize),
            forall|k: int| 0 <= k < i ==> (#[trigger] tiles@[k]).inv(),
        decreases n - i,
    {
        let t = &tiles[i];
        proof {
            use_type_invariant(t);
        }
        keys.push((t.tile_id, i));
        i = i + 1;
    }
    let sorted = sort_keys(&keys, 0, n);
    proof {
        assert(keys@.subrange(0, n as int) == keys@);
        assert forall|p: int| 0 <= p < sorted@.len() implies 0 <= (#[trigger] sorted@[p]).1 < n && sorted@[p].0 == tiles@[sorted@[p].1 as int].spec_tile_id() by {
            assert(sorted@.contains(sorted@[p]));
            assert(sorted@.to_multiset().count(sorted@[p]) > 0);
            assert(keys@.to_multiset().count(sorted@[p]) > 0);
            assert(keys@.contains(sorted@[p]));
        }
        assert forall|i: int| 0 <= i < n implies #[trigger] key_placed(sorted@, i) by {
            assert(keys@[i] == (tiles@[i].spec_tile_id(), i as usize));
            assert(keys@.contains(keys@[i]));
            assert(keys@.to_multiset().count(keys@[i]) > 0);
            assert(sorted@.to_multiset().count(keys@[i]) > 0);
            assert(sorted@.contains(keys@[i]));
        }
        assert forall|a: int, b: int| 0 <= a < n && 0 <= b < n implies ((#[trigger] tiles@[a].spec_tile() == #[trigger] tiles@[b].spec_tile()) == (tiles@[a].spec_tile_id() == tiles@[b].spec_tile_id())) by {
            assert(tiles@[a].inv());
            assert(tiles@[b].inv());
            MvtInput::lemma_same_tile_iff_same_id(tiles@[a], tiles@[b]);
        }
        assert(sorted@.len() == sorted@.to_multiset().len());
        assert(keys@.len() == keys@.to_multiset().len());
        assert(keys_sorted(sorted@));
        assert(keys_of(tiles@, sorted@));
    }
    let mut p: usize = 0;
    while p < n && p + 1 < n
        invariant
            p <= n,
            n == tiles@.len(),
            keys_of(tiles@, sorted@),
            ids_match_tiles(tiles@),
            forall|q: int| 0 <= q < p ==> tiles@[(#[trigger] sorted@[q]).1 as int].spec_tile() != tiles@[sorted@[q + 1].1 as int].spec_tile(),
        decreases n - p,
    {
        let a = sorted[p].1;
        let b = sorted[p + 1].1;
        let tile_a = tiles[a].tile;
        if tile_a == tiles[b].tile {
            let error = MvtTilesError::DuplicateTile { tile: tile_a, first: tiles[a].source, second: tiles[b].source };
            proof {
                assert(key_lt(sorted@[p as int], sorted@[p + 1]));
                assert(tiles@[a as int].spec_tile() == tiles@[b as int].spec_tile());
                assert(duplicated(tiles@, a as int, b as int));
                assert forall|i: int, j: int| #[trigger] duplicated(tiles@, i, j) implies tiles@[a as int].spec_tile_id() <= tiles@[i].spec_tile_id() by {
                    assert(key_placed(sorted@, i) && key_placed(sorted@, j));
                    let pi = choose|pi: int| 0 <= pi < sorted@.len() && (#[trigger] sorted@[pi]).1 == i;
                    let pj = choose|pj: int| 0 <= pj < sorted@.len() && (#[trigger] sorted@[pj]).1 == j;
                    let lo = if pi < pj { pi } else { pj };
                    let hi = if pi < pj { pj } else { pi };
                    assert(lo < hi);
                    assert(key_lt(sorted@[lo], sorted@[lo + 1]));
                    if lo + 1 < hi {
                        assert(key_lt(sorted@[lo + 1], sorted@[hi]));
                    }
                    assert(sorted@[lo + 1].0 == sorted@[lo].0);
                    assert(tiles@[sorted@[lo].1 as int].spec_tile() == tiles@[sorted@[lo + 1].1 as int].spec_tile());
                    if lo < p {
                        assert(tiles@[(sorted@[lo]).1 as int].spec_tile() != tiles@[sorted@[lo + 1].1 as int].spec_tile());
                    }
                    if lo > p {
                        assert(key_lt(sorted@[p as int], sorted@[lo]));
                    }
                }
                assert forall|i: int| 0 <= i < b && i != a implies (#[trigger] tiles@[i]).spec_tile() != tiles@[a as int].spec_tile() by {
                    if tiles@[i].spec_tile() == tiles@[a as int].spec_tile() {
                        assert(tiles@[i].spec_tile_id() == tiles@[a as int].spec_tile_id());
                        assert(key_placed(sorted@, i));
                        let pi = choose|pi: int| 0 <= pi < sorted@.len() && (#[trigger] sorted@[pi]).1 == i;
                        if pi < p {
                            if pi < p - 1 {
                                assert(key_lt(sorted@[pi], sorted@[p - 1]));
                            }
                            assert(key_lt(sorted@[p - 1], sorted@[p as int]));
                            assert(sorted@[p - 1].0 == sorted@[p as int].0);
                            assert(tiles@[sorted@[p - 1].1 as int].spec_tile() == tiles@[sorted@[p as int].1 as int].spec_tile());
                        } else if pi > p + 1 {
                            assert(key_lt(sorted@[p + 1], sorted@[pi]));
                        }
                    }
                }
                assert(reports_first_duplicate(tiles@, error));
            }
            return Err(error);
        }
        p = p + 1;
    }
    proof {
        assert forall|i: int, j: int| !#[trigger] duplicated(tiles@, i, j) by {
            if duplicated(tiles@, i, j) {
                assert(key_placed(sorted@, i) && key_placed(sorted@, j));
                let pi = choose|pi: int| 0 <= pi < sorted@.len() && (#[trigger] sorted@[pi]).1 == i;
                let pj = choose|pj: int| 0 <= pj < sorted@.len() && (#[trigger] sorted@[pj]).1 == j;
                let lo = if pi < pj { pi } else { pj };
                let hi = if pi < pj { pj } else { pi };
                assert(lo < hi);
                assert(key_lt(sorted@[lo], sorted@[lo + 1]));
                if lo + 1 < hi {
                    assert(key_lt(sorted@[lo + 1], sorted@[hi]));
                }
                assert(tiles@[(sorted@[lo]).1 as int].spec_tile() != tiles@[sorted@[lo + 1].1 as int].spec_tile());
            }
        }
    }
    let mut out: Vec<MvtInput> = Vec::new();
    let mut p: usize = 0;
    while p < n
        invariant
            n == tiles@.len(),
            keys_of(tiles@, sorted@),
            !has_duplicate_tile(tiles@),
            ids_match_tiles(tiles@),
            p <= n,
            out@.len() == p,
            forall|q: int| 0 <= q < p ==> #[trigger] out@[q] == tiles@[sorted@[q].1 as int],
        decreases n - p,
    {
        out.push(tiles[sorted[p].1]);
        p = p + 1;
    }
    proof {
        assert forall|q: int, r: int| 0 <= q < r < out@.len() implies (#[trigger] out@[q]).spec_tile_id() < (#[trigger] out@[r]).spec_tile_id() by {
            assert(key_lt(sorted@[q], sorted@[r]));
            let a = sorted@[q].1 as int;
            let b = sorted@[r].1 as int;
            assert(out@[q].spec_tile_id() == sorted@[q].0);
            assert(out@[r].spec_tile_id() == sorted@[r].0);
            if sorted@[q].0 == sorted@[r].0 {
                assert(tiles@[a].spec_tile() == tiles@[b].spec_tile());
                assert(duplicated(tiles@, a, b));
            }
        }
        assert forall|q: int| 0 <= q < out@.len() implies tiles@.contains(#[trigger] out@[q]) by {
            assert(out@[q] == tiles@[sorted@[q].1 as int]);
        }
        assert forall|i: int| 0 <= i < tiles@.len() implies out@.contains(#[trigger] tiles@[i]) by {
            assert(key_placed(sorted@, i));
            let q = choose|q: int| 0 <= q < sorted@.len() && (#[trigger] sorted@[q]).1 == i;
            assert(out@[q] == tiles@[i]);
        }
        assert(ordered_by_tile_id(tiles@, out@));
    }
    Ok(out)
}

/// The lowest and the highest zoom among `tiles`; `None` for no tiles.
pub fn zoom_range_for_tiles(tiles: &[MvtInput]) -> (range: Option<(u8, u8)>)
    ensures
        range is None <==> tiles@.len() == 0,
        range matches Some((lo, hi)) ==> {
            &&& exists|i: int| 0 <= i < tiles@.len() && (#[trigger] tiles@[i]).spec_tile().z == lo
            &&& exists|i: int| 0 <= i < tiles@.len() && (#[trigger] tiles@[i]).spec_tile().z == hi
            &&& forall|i: int| 0 <= i < tiles@.len() ==> lo <= (#[trigger] tiles@[i]).spec_tile().z <= hi
        },
{
    if tiles.len() == 0 {
        return None;
    }
    let mut lo = tiles[0].tile.z;
    let mut hi = lo;
    let mut i: usize = 1;
    while i < tiles.len()
        invariant
            1 <= i <= tiles@.len(),
            exists|k: int| 0 <= k < i && (#[trigger] tiles@[k]).spec_tile().z == lo,
            exists|k: int| 0 <= k < i && (#[trigger] tiles@[k]).spec_tile().z == hi,
            forall|k: int| 0 <= k < i ==> lo <= (#[trigger] tiles@[k]).spec_tile().z <= hi,
        decreases tiles@.len() - i,
    {
        let z = tiles[i].tile.z;
        if z < lo {
            lo = z;
        }
        if z > hi {
            hi = z;
        }
        i = i + 1;
    }
    Some((lo, hi))
}

} // verus!
