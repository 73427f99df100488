use vstd::prelude::*;
use vstd::arithmetic::power2::{pow2, lemma2_to64, lemma2_to64_rest, lemma_pow2_unfold};

use crate::error::ParseError;

verus! {

/// The highest zoom level that tile addressing supports.
pub const MAX_Z: u8 = 32;

/// Number of tiles at zoom level `z`: `4^z`.
pub open spec fn zoom_tiles(z: nat) -> nat {
    pow2(2 * z)
}

/// Number of tiles on all zoom levels below `z`, which is the id of the first tile at `z`.
pub open spec fn tile_base(z: nat) -> nat
    decreases z,
{
    if z == 0 {
        0
    } else {
        tile_base((z - 1) as nat) + zoom_tiles((z - 1) as nat)
    }
}

/// The zoom level that `find_z` settles on, searching upwards from `z`.
pub open spec fn zoom_from(id: nat, z: nat) -> nat
    decreases MAX_Z - z,
{
    if z >= MAX_Z || id < tile_base(z + 1) {
        z
    } else {
        zoom_from(id, z + 1)
    }
}

proof fn lemma_zoom_tiles_step(z: nat)
    ensures
        zoom_tiles(z + 1) == 4 * zoom_tiles(z),
{
    lemma_pow2_unfold(2 * z + 2);
    lemma_pow2_unfold(2 * z + 1);
}

/// `3 * tile_base(z) + 1 == 4^z`.
proof fn lemma_tile_base_closed(z: nat)
    ensures
        3 * tile_base(z) + 1 == zoom_tiles(z),
    decreases z,
{
    if z == 0 {
        lemma2_to64();
    } else {
        lemma_tile_base_closed((z - 1) as nat);
        lemma_zoom_tiles_step((z - 1) as nat);
    }
}

proof fn lemma_tile_base_values()
    ensures
        zoom_tiles(31) == 0x4000_0000_0000_0000,
        zoom_tiles(32) == 0x1_0000_0000_0000_0000,
        tile_base(32) == 0x5555_5555_5555_5555,
        tile_base(33) > u64::MAX,
{
    lemma2_to64();
    lemma2_to64_rest();
    assert(zoom_tiles(31) == pow2(62));
    assert(zoom_tiles(32) == pow2(64));
    lemma_tile_base_closed(32);
    lemma_tile_base_closed(33);
    lemma_zoom_tiles_step(32);
}

proof fn lemma_tile_base_monotonic(a: nat, b: nat)
    requires
        a <= b,
    ensures
        tile_base(a) <= tile_base(b),
    decreases b - a,
{
    if a < b {
        lemma_tile_base_monotonic(a, (b - 1) as nat);
    }
}

/// Finds the zoom level of a non-zero tile id: the smallest `z` from 1 up
/// whose cumulative tile count exceeds `id`.
pub fn find_z(id: u64) -> (r: Result<u8, ParseError>)
    ensures
        r == Ok::<u8, ParseError>(zoom_from(id as nat, 1) as u8),
        1 <= zoom_from(id as nat, 1) <= MAX_Z,
        id < tile_base(zoom_from(id as nat, 1) + 1),
        id >= 1 ==> id >= tile_base(zoom_from(id as nat, 1)),
{
    let mut z: u8 = 1;
    let mut count: u64 = 4;
    let mut next: u64 = 5;
    proof {
        lemma2_to64();
        lemma_tile_base_values();
        reveal_with_fuel(tile_base, 3);
    }
    while z < MAX_Z
        invariant
            1 <= z <= MAX_Z,
            zoom_from(id as nat, 1) == zoom_from(id as nat, z as nat),
            z < MAX_Z ==> count == zoom_tiles(z as nat),
            z < MAX_Z ==> next == tile_base(z as nat + 1),
            id >= 1 ==> id >= tile_base(z as nat),
        decreases MAX_Z - z,
    {
        if id < next {
            return Ok(z);
        }
        if z + 1 < MAX_Z {
            proof {
                lemma_zoom_tiles_step(z as nat);
                lemma_tile_base_monotonic(z as nat + 2, 32);
                lemma_tile_base_values();
            }
            count = count * 4;
            next = next + count;
        }
        z = z + 1;
    }
    proof {
        lemma_tile_base_values();
    }
    Ok(z)
}

/// A tile-grid address: column `x`, row `y` at zoom level `z`.
#[derive(Debug, Clone, Copy, PartialEq, Eq, Structural)]
pub struct TileCoord {
    pub x: u32,
    pub y: u32,
    pub z: u8,
}

/// A global tile identifier, ordering the tiles of all zoom levels.
#[derive(Debug, Clone, Copy, PartialEq, Eq, Structural)]
pub struct TileId(pub u64);

/// Position of `(x, y)` along the Hilbert curve of order `z`.
pub uninterp spec fn hilbert_index(x: u32, y: u32, z: u8) -> u64;

/// The point at position `h` along the Hilbert curve of order `z`.
pub uninterp spec fn hilbert_point(h: u64, z: u8) -> (u32, u32);

/// Relies on `fast_hilbert::xy2h`: the position of `(x, y)` on the Hilbert curve of
/// order `z`; for coordinates below `2^z` it is below `4^z` and `h2xy` gives the point back.
#[verifier::external_body]
fn hilbert_xy2h(x: u32, y: u32, z: u8) -> (r: u64)
    requires
        z <= MAX_Z,
    ensures
        r == hilbert_index(x, y, z),
        (x as nat) < pow2(z as nat) && (y as nat) < pow2(z as nat) ==> (r as nat) < zoom_tiles(
            z as nat,
        ) && hilbert_point(r, z) == (x, y),
{
    fast_hilbert::xy2h(x, y, z)
}

/// Relies on `fast_hilbert::h2xy`: the point at position `h` on the Hilbert curve of
/// order `z`; for positions below `4^z` its coordinates are below `2^z` and `xy2h` gives
/// the position back.
#[verifier::external_body]
fn hilbert_h2xy(h: u64, z: u8) -> (r: (u32, u32))
    requires
        z <= MAX_Z,
    ensures
        r == hilbert_point(h, z),
        (h as nat) < zoom_tiles(z as nat) ==> (r.0 as nat) < pow2(z as nat) && (r.1 as nat) < pow2(
            z as nat,
        ) && hilbert_index(r.0, r.1, z) == h,
{
    fast_hilbert::h2xy::<u32>(h, z)
}

/// The id of a tile: the first id of its zoom level plus its Hilbert position.
pub open spec fn coord_to_id(c: TileCoord) -> Result<TileId, ParseError> {
    if c.z > MAX_Z || tile_base(c.z as nat) + hilbert_index(c.x, c.y, c.z) > u64::MAX {
        Err(ParseError::TooHighZIndex)
    } else {
        Ok(TileId((tile_base(c.z as nat) + hilbert_index(c.x, c.y, c.z)) as u64))
    }
}

/// The tile that an id names.
pub open spec fn id_to_coord(id: u64) -> TileCoord {
    if id == 0 {
        TileCoord { x: 0, y: 0, z: 0 }
    } else {
        let z = zoom_from(id as nat, 1);
        let p = hilbert_point((id - tile_base(z)) as u64, z as u8);
        TileCoord { x: p.0, y: p.1, z: z as u8 }
    }
}

/// First id of zoom level `z`: the number of tiles on all lower levels.
pub fn base_id(z: u8) -> (r: u64)
    requires
        z <= MAX_Z,
    ensures
        r == tile_base(z as nat),
{
    let mut base: u64 = 0;
    let mut count: u64 = 1;
    let mut i: u8 = 0;
    proof {
        lemma2_to64();
    }
    while i < z
        invariant
            i <= z <= MAX_Z,
            base == tile_base(i as nat),
            i < MAX_Z ==> count == zoom_tiles(i as nat),
        decreases z - i,
    {
        proof {
            lemma_tile_base_monotonic(i as nat + 1, 32);
            lemma_tile_base_values();
            lemma_zoom_tiles_step(i as nat);
            if i + 1 < MAX_Z {
                lemma_tile_base_monotonic(i as nat + 2, 32);
            }
        }
        base = base + count;
        if i + 1 < MAX_Z {
            count = count * 4;
        }
        i = i + 1;
    }
    base
}

/// The id of the tile at Hilbert position `h` on zoom level `z`: the first id of
/// the level plus `h`. Fails with `TooHighZIndex` above zoom 32 or where the id
/// would not fit in 64 bits.
pub fn id_from_hilbert(z: u8, h: u64) -> (r: Result<TileId, ParseError>)
    ensures
        z > MAX_Z || tile_base(z as nat) + h > u64::MAX ==> r == Err::<TileId, ParseError>(
            ParseError::TooHighZIndex,
        ),
        z <= MAX_Z && tile_base(z as nat) + h <= u64::MAX ==> r == Ok::<TileId, ParseError>(
            TileId((tile_base(z as nat) + h) as u64),
        ),
{
    if z > MAX_Z {
        return Err(ParseError::TooHighZIndex);
    }
    let base = base_id(z);
    if h > u64::MAX - base {
        return Err(ParseError::TooHighZIndex);
    }
    Ok(TileId(base + h))
}

/// Every 64-bit id lies below the cumulative tile count through zoom 32, so no
/// id is beyond the supported zoom levels.
pub proof fn every_id_within_zoom_limit(id: u64)
    ensures
        (id as nat) < tile_base(MAX_Z as nat + 1),
{
    lemma_tile_base_values();
}

impl TileCoord {
    /// The global id of this tile. Fails with `TooHighZIndex` above zoom 32, or
    /// where the id would not fit in 64 bits (only possible at zoom 32).
    pub fn to_id(self) -> (r: Result<TileId, ParseError>)
        ensures
            r == coord_to_id(self),
            self.z > MAX_Z ==> r == Err::<TileId, ParseError>(ParseError::TooHighZIndex),
            self.z < MAX_Z && (self.x as nat) < pow2(self.z as nat) && (self.y as nat) < pow2(
                self.z as nat,
            ) ==> r is Ok,
            r is Ok && (self.x as nat) < pow2(self.z as nat) && (self.y as nat) < pow2(
                self.z as nat,
            ) ==> id_to_coord(r->Ok_0.0) == self,
    {
        if self.z > MAX_Z {
            return Err(ParseError::TooHighZIndex);
        }
        let h = hilbert_xy2h(self.x, self.y, self.z);
        let r = id_from_hilbert(self.z, h);
        proof {
            lemma2_to64();
            if self.z < MAX_Z {
                lemma_tile_base_monotonic(self.z as nat + 1, 32);
                lemma_tile_base_values();
            }
            if r is Ok && (self.x as nat) < pow2(self.z as nat) && (self.y as nat) < pow2(
                self.z as nat,
            ) && self.z >= 1 {
                reveal_with_fuel(tile_base, 2);
                lemma_tile_base_monotonic(1, self.z as nat);
                lemma_zoom_of_range(r->Ok_0.0 as nat, self.z as nat);
            }
        }
        r
    }

    /// The tile that `id` names; id 0 is the single tile of zoom 0.
    pub fn from_id(id: TileId) -> (r: Result<TileCoord, ParseError>)
        ensures
            r == Ok::<TileCoord, ParseError>(id_to_coord(id.0)),
            id.0 != 0 ==> coord_to_id(id_to_coord(id.0)) == Ok::<TileId, ParseError>(id),
            id_to_coord(id.0).z <= MAX_Z,
            (id_to_coord(id.0).x as nat) < pow2(id_to_coord(id.0).z as nat),
            (id_to_coord(id.0).y as nat) < pow2(id_to_coord(id.0).z as nat),
    {
        if id.0 == 0 {
            proof {
                lemma2_to64();
            }
            return Ok(TileCoord { x: 0, y: 0, z: 0 });
        }
        let z = match find_z(id.0) {
            Ok(z) => z,
            Err(e) => return Err(e),
        };
        let base = base_id(z);
        proof {
            lemma_tile_base_values();
            lemma_zoom_tiles_step(z as nat);
        }
        let (x, y) = hilbert_h2xy(id.0 - base, z);
        Ok(TileCoord { x, y, z })
    }
}

/// Ids from `tile_base(z)` up to the next level's base belong to zoom `z`.
proof fn lemma_zoom_of_range(id: nat, z: nat)
    requires
        1 <= id,
        1 <= z <= MAX_Z,
        tile_base(z) <= id < tile_base(z + 1),
    ensures
        zoom_from(id, 1) == z,
{
    assert forall|k: nat| 1 < k <= z implies id >= #[trigger] tile_base(k) by {
        lemma_tile_base_monotonic(k, z);
    }
    lemma_zoom_from_walk(id, 1, z);
}

proof fn lemma_zoom_from_walk(id: nat, k: nat, z: nat)
    requires
        1 <= k <= z <= MAX_Z,
        id < tile_base(z + 1),
        forall|j: nat| k < j <= z ==> id >= #[trigger] tile_base(j),
    ensures
        zoom_from(id, k) == z,
    decreases z - k,
{
    if k < z {
        lemma_zoom_from_walk(id, k + 1, z);
    }
}

impl TryFrom<TileCoord> for TileId {
    type Error = ParseError;

    fn try_from(value: TileCoord) -> (r: Result<TileId, ParseError>) {
        value.to_id()
    }
}

impl vstd::std_specs::convert::TryFromSpecImpl<TileCoord> for TileId {
    open spec fn obeys_try_from_spec() -> bool {
        true
    }

    open spec fn try_from_spec(v: TileCoord) -> Result<TileId, ParseError> {
        coord_to_id(v)
    }
}

impl TryFrom<TileId> for TileCoord {
    type Error = ParseError;

    fn try_from(id: TileId) -> (r: Result<TileCoord, ParseError>) {
        TileCoord::from_id(id)
    }
}

impl vstd::std_specs::convert::TryFromSpecImpl<TileId> for TileCoord {
    open spec fn obeys_try_from_spec() -> bool {
        true
    }

    open spec fn try_from_spec(id: TileId) -> Result<TileCoord, ParseError> {
        Ok(id_to_coord(id.0))
    }
}

} // verus!
