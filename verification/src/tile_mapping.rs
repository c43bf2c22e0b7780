//! Tile ids and the hexagonal coordinate system of the board.
//!
//! Tile ids start at zero and spiral counter clockwise outwards from the
//! origin: ring `r` (for `r >= 1`) holds the `6 * r` ids from
//! `3 * r * (r - 1) + 1` to `3 * r * (r + 1)`, starting at the tile directly
//! beneath the origin. A `HexVector2d` names a tile by two axial coordinates:
//! `a` counts steps to the north, `b` counts steps to the north east.
use vstd::prelude::*;

use crate::world::BOARD_TILE_LIMIT;
use crate::InvalidIdErr;

verus! {

/// The largest ring that the conversions between ids and vectors handle
/// without leaving the range of `i32`.
pub const MAX_RING: i32 = 26754;

/// The largest tile id that can be turned into a vector: the last id on
/// ring `MAX_RING`.
pub const MAX_TILE_INDEX: u32 = 2147409810;

/// The first id on ring `ring` (ring zero holds only the id zero).
pub open spec fn first_id_on_ring(ring: int) -> int {
    3 * ring * (ring - 1) + 1
}

/// The last id on ring `ring`.
pub open spec fn last_id_on_ring(ring: int) -> int {
    3 * ring * (ring + 1)
}

/// `ring` is the ring (at least one) that holds `id`.
pub open spec fn is_ring_of(id: int, ring: int) -> bool {
    &&& ring >= 1
    &&& first_id_on_ring(ring) <= id <= last_id_on_ring(ring)
}

/// The ring that holds a non zero id.
pub open spec fn ring_of(id: int) -> int {
    choose|ring: int| is_ring_of(id, ring)
}

/// The axial coordinates of the tile `step` steps (counter clockwise) from
/// the first tile of ring `ring`: the ring is walked edge by edge, each edge
/// `ring` steps long, starting directly beneath the origin.
pub open spec fn position_on_ring(ring: int, step: int) -> (int, int) {
    if step < ring {
        // south * ring + north east * step
        (-ring, step)
    } else if step < 2 * ring {
        // south east * ring + north * (step - ring)
        (step - 2 * ring, ring)
    } else if step < 3 * ring {
        // north east * ring + north west * (step - 2 ring)
        (step - 2 * ring, 3 * ring - step)
    } else if step < 4 * ring {
        // north * ring + south west * (step - 3 ring)
        (ring, 3 * ring - step)
    } else if step < 5 * ring {
        // north west * ring + south * (step - 4 ring)
        (5 * ring - step, -ring)
    } else {
        // south west * ring + south east * (step - 5 ring)
        (5 * ring - step, step - 6 * ring)
    }
}

/// The axial coordinates of the tile with id `id`.
pub open spec fn hex_of_id(id: int) -> (int, int) {
    if id == 0 {
        (0, 0)
    } else {
        position_on_ring(ring_of(id), id - first_id_on_ring(ring_of(id)))
    }
}

/// The id of the tile at the axial coordinates `v`: the id whose coordinates
/// are `v`.
pub open spec fn id_of_hex(v: (int, int)) -> int {
    choose|id: int| id >= 0 && hex_of_id(id) == v
}

pub open spec fn abs_int(x: int) -> int {
    if x < 0 {
        -x
    } else {
        x
    }
}

pub open spec fn max_int(x: int, y: int) -> int {
    if x >= y {
        x
    } else {
        y
    }
}

/// The number of steps between the origin and the tile at `v`, which is
/// the ring that holds it.
pub open spec fn hex_distance(v: (int, int)) -> int {
    max_int(max_int(abs_int(v.0), abs_int(v.1)), abs_int(v.0 + v.1))
}

// ---------------------------------------------------------------------------
// Arithmetic facts about rings.
// ---------------------------------------------------------------------------
proof fn lemma_ring_span(ring: int)
    requires
        ring >= 1,
    ensures
        last_id_on_ring(ring) == first_id_on_ring(ring) + 6 * ring - 1,
        first_id_on_ring(ring) >= 1,
        first_id_on_ring(ring + 1) == last_id_on_ring(ring) + 1,
        last_id_on_ring(ring) >= ring,
{
    assert(3 * ring * (ring + 1) == 3 * ring * (ring - 1) + 6 * ring) by (nonlinear_arith);
    assert(3 * ring * (ring - 1) >= 0) by (nonlinear_arith)
        requires
            ring >= 1,
    ;
    assert(3 * (ring + 1) * (ring + 1 - 1) == 3 * ring * (ring + 1)) by (nonlinear_arith);
    assert(3 * ring * (ring + 1) >= ring) by (nonlinear_arith)
        requires
            ring >= 1,
    ;
}

proof fn lemma_rings_ordered(r1: int, r2: int)
    requires
        1 <= r1 < r2,
    ensures
        last_id_on_ring(r1) < first_id_on_ring(r2),
{
    assert(3 * r1 * (r1 + 1) <= 3 * (r2 - 1) * r2) by (nonlinear_arith)
        requires
            1 <= r1,
            r1 + 1 <= r2,
    ;
    assert(3 * (r2 - 1) * r2 == 3 * r2 * (r2 - 1)) by (nonlinear_arith);
}

proof fn lemma_ring_unique(id: int, r1: int, r2: int)
    requires
        is_ring_of(id, r1),
        is_ring_of(id, r2),
    ensures
        r1 == r2,
{
    if r1 < r2 {
        lemma_rings_ordered(r1, r2);
    } else if r2 < r1 {
        lemma_rings_ordered(r2, r1);
    }
}

proof fn lemma_ring_of(id: int, ring: int)
    requires
        is_ring_of(id, ring),
    ensures
        ring_of(id) == ring,
{
    let r = ring_of(id);
    assert(is_ring_of(id, r));
    lemma_ring_unique(id, r, ring);
}

proof fn lemma_ring_exists_from(id: int, ring: int)
    requires
        ring >= 1,
        id >= first_id_on_ring(ring),
    ensures
        is_ring_of(id, ring_of(id)),
    decreases id - ring,
{
    lemma_ring_span(ring);
    if id <= last_id_on_ring(ring) {
        assert(is_ring_of(id, ring));
    } else {
        lemma_ring_exists_from(id, ring + 1);
    }
}

/// Every non zero id lies on exactly one ring.
proof fn lemma_ring_exists(id: int)
    requires
        id >= 1,
    ensures
        is_ring_of(id, ring_of(id)),
{
    lemma_ring_span(1);
    lemma_ring_exists_from(id, 1);
}

proof fn lemma_position_distance(ring: int, step: int)
    requires
        ring >= 1,
        0 <= step < 6 * ring,
    ensures
        hex_distance(position_on_ring(ring, step)) == ring,
{
}

proof fn lemma_position_injective(ring: int, s1: int, s2: int)
    requires
        ring >= 1,
        0 <= s1 < 6 * ring,
        0 <= s2 < 6 * ring,
        position_on_ring(ring, s1) == position_on_ring(ring, s2),
    ensures
        s1 == s2,
{
}

/// The id `first_id_on_ring(ring) + step` has the coordinates of the
/// `step`th position on `ring`.
proof fn lemma_hex_of_ring_step(ring: int, step: int)
    requires
        ring >= 1,
        0 <= step < 6 * ring,
    ensures
        hex_of_id(first_id_on_ring(ring) + step) == position_on_ring(ring, step),
        first_id_on_ring(ring) + step >= 1,
{
    lemma_ring_span(ring);
    lemma_ring_of(first_id_on_ring(ring) + step, ring);
}

/// The ring of a non zero id is the distance of its tile from the origin.
proof fn lemma_distance_of_id(id: int)
    requires
        id >= 0,
    ensures
        id == 0 ==> hex_distance(hex_of_id(id)) == 0,
        id >= 1 ==> hex_distance(hex_of_id(id)) == ring_of(id),
        id >= 1 ==> is_ring_of(id, ring_of(id)),
{
    if id >= 1 {
        lemma_ring_exists(id);
        let r = ring_of(id);
        lemma_ring_span(r);
        lemma_position_distance(r, id - first_id_on_ring(r));
    }
}

/// Distinct ids have distinct coordinates.
pub proof fn lemma_hex_of_id_injective(x: int, y: int)
    requires
        x >= 0,
        y >= 0,
        hex_of_id(x) == hex_of_id(y),
    ensures
        x == y,
{
    lemma_distance_of_id(x);
    lemma_distance_of_id(y);
    if x >= 1 && y >= 1 {
        let r = ring_of(x);
        assert(ring_of(y) == r);
        lemma_ring_span(r);
        lemma_position_injective(r, x - first_id_on_ring(r), y - first_id_on_ring(r));
    }
}

/// The id that the spiral gives to the tile at `v`, written as the
/// conversion from coordinates computes it.
spec fn spiral_index(v: (int, int)) -> int {
    let a = v.0;
    let b = v.1;
    if (a > 0) != (b > 0) || (a < 0) != (b < 0) {
        let ring = max_int(abs_int(a), abs_int(b));
        if abs_int(a) >= abs_int(b) {
            if a > 0 {
                first_id_on_ring(ring) + 3 * ring + abs_int(b)
            } else {
                first_id_on_ring(ring) + b
            }
        } else if b > 0 {
            first_id_on_ring(ring) + 2 * ring + a
        } else {
            first_id_on_ring(ring) + 5 * ring - abs_int(a)
        }
    } else {
        let ring = abs_int(a + b);
        if ring == 0 {
            0
        } else if a + b > 0 {
            first_id_on_ring(ring) + 3 * ring - b
        } else {
            last_id_on_ring(ring) + 1 + b
        }
    }
}

/// The spiral index of `v` is an id whose coordinates are `v`, on the ring
/// `hex_distance(v)`.
proof fn lemma_spiral_index(v: (int, int))
    ensures
        spiral_index(v) >= 0,
        hex_of_id(spiral_index(v)) == v,
        v != (0int, 0int) ==> is_ring_of(spiral_index(v), hex_distance(v)),
        v == (0int, 0int) ==> spiral_index(v) == 0,
{
    let a = v.0;
    let b = v.1;
    if v != (0int, 0int) {
        let r = hex_distance(v);
        assert(r >= 1);
        lemma_ring_span(r);
        let step = spiral_index(v) - first_id_on_ring(r);
        assert(0 <= step < 6 * r && position_on_ring(r, step) == v);
        lemma_hex_of_ring_step(r, step);
    }
}

/// Converting an id to coordinates and back gives the id.
pub proof fn lemma_id_round_trip(id: int)
    requires
        id >= 0,
    ensures
        id_of_hex(hex_of_id(id)) == id,
{
    let v = hex_of_id(id);
    assert(id >= 0 && hex_of_id(id) == v);
    let other = id_of_hex(v);
    lemma_hex_of_id_injective(other, id);
}

/// Converting coordinates to an id and back gives the coordinates.
pub proof fn lemma_hex_round_trip(v: (int, int))
    ensures
        id_of_hex(v) >= 0,
        hex_of_id(id_of_hex(v)) == v,
{
    lemma_spiral_index(v);
}

/// The id of the tile at `v` is its spiral index; it lies on the ring
/// `hex_distance(v)`.
proof fn lemma_id_of_hex_is_spiral_index(v: (int, int))
    ensures
        id_of_hex(v) == spiral_index(v),
        v != (0int, 0int) ==> is_ring_of(id_of_hex(v), hex_distance(v)),
        v == (0int, 0int) ==> id_of_hex(v) == 0,
{
    lemma_spiral_index(v);
    lemma_hex_round_trip(v);
    lemma_hex_of_id_injective(id_of_hex(v), spiral_index(v));
}

/// Ring `ring` ends within the range of `i32` and of `u32`.
proof fn lemma_last_id_bounded(ring: int)
    requires
        1 <= ring <= MAX_RING,
    ensures
        last_id_on_ring(ring) <= MAX_TILE_INDEX,
        0 < first_id_on_ring(ring) <= last_id_on_ring(ring),
        3 * (ring + 1) * ring == last_id_on_ring(ring),
{
    assert(3 * (ring + 1) * ring <= 3 * (26754 + 1) * 26754) by (nonlinear_arith)
        requires
            1 <= ring <= 26754,
    ;
    assert(3 * (ring + 1) * ring == 3 * ring * (ring + 1)) by (nonlinear_arith);
    lemma_ring_span(ring);
}

// ---------------------------------------------------------------------------
// Executable items.
// ---------------------------------------------------------------------------
/// Tile ids start at zero and work counter clockwise from the origin,
/// starting at the tile directly beneath the origin.
#[derive(Debug, PartialEq, Eq, Structural, PartialOrd, Ord, Clone, Copy, Hash)]
pub struct TileId(pub u32);

impl TileId {
    pub fn id(&self) -> (r: u32)
        ensures
            r == self.0,
    {
        self.0
    }
}

/// Some entry of `list` is the tile with id `i`.
pub open spec fn listed(list: Seq<TileId>, i: int) -> bool {
    exists|m: int| #![trigger list[m]] 0 <= m < list.len() && list[m].0 == i
}

/// Hands out tile ids that lie on the board.
#[derive(Debug, Clone, Copy)]
pub struct TileIdServer {
    /// the number of tiles on the board, as one would count them. (so, if
    /// the maximum id is 59, this number is 60.)
    pub total_tiles_on_board: u32,
}

impl TileIdServer {
    pub fn construct_tile_id(&self, id: u32) -> (r: Result<TileId, InvalidIdErr<TileId>>)
        ensures
            id < self.total_tiles_on_board ==> r == Ok::<TileId, InvalidIdErr<TileId>>(TileId(id)),
            id >= self.total_tiles_on_board ==> r == Err::<TileId, InvalidIdErr<TileId>>(
                InvalidIdErr(TileId(id)),
            ),
    {
        if id < self.total_tiles_on_board {
            Ok(TileId(id))
        } else {
            Err(InvalidIdErr::new(TileId(id)))
        }
    }
}

/// The number of tiles on a board with `rings` rings, counting the tile with
/// id zero as ring zero.
pub open spec fn spec_tiles_on_board(rings: int) -> int {
    3 * (rings + 1) * rings + 1
}

/// A board of `rings` rings holds exactly the tiles that lie within `rings`
/// steps of tile zero: an id is on the board if and only if its tile is at
/// most `rings` steps from the origin.
pub proof fn lemma_board_holds_tiles_within_rings(rings: int, id: int)
    requires
        rings >= 0,
        id >= 0,
    ensures
        id < spec_tiles_on_board(rings) <==> hex_distance(hex_of_id(id)) <= rings,
{
    lemma_distance_of_id(id);
    assert(spec_tiles_on_board(rings) == last_id_on_ring(rings) + 1) by (nonlinear_arith);
    assert(last_id_on_ring(rings) >= 0) by (nonlinear_arith)
        requires
            rings >= 0,
    ;
    if id >= 1 {
        let k = ring_of(id);
        if rings >= 1 {
            lemma_ring_span(rings);
        }
        if k < rings {
            lemma_rings_ordered(k, rings);
        } else if k > rings && rings >= 1 {
            lemma_rings_ordered(rings, k);
        }
    }
}

/// The total number of tiles on the board, including the tile with id zero.
/// This is based on the number of rings the board was created with, with
/// tile zero counted as ring zero. (ie. the first ring to actually look like
/// a ring is ring 1.)
pub fn tiles_on_board(rings_on_board: u32) -> (r: u32)
    requires
        spec_tiles_on_board(rings_on_board as int) <= u32::MAX,
    ensures
        r == spec_tiles_on_board(rings_on_board as int),
{
    assert(3 * (rings_on_board + 1) * rings_on_board >= 0) by (nonlinear_arith);
    assert(3 * (rings_on_board + 1) <= 3 * (rings_on_board + 1) * rings_on_board
        || rings_on_board == 0) by (nonlinear_arith);
    (3 * (rings_on_board + 1) * rings_on_board) + 1
}

/// A step on the board in axial coordinates.
#[derive(Debug, Clone, Copy)]
pub struct HexVector2d {
    a: i32,
    b: i32,
}

impl View for HexVector2d {
    type V = (int, int);

    closed spec fn view(&self) -> (int, int) {
        (self.a as int, self.b as int)
    }
}

/// A vector whose components stay within `i32` when one step is added.
pub open spec fn steppable(v: (int, int)) -> bool {
    &&& i32::MIN + 1 <= v.0 <= i32::MAX - 1
    &&& i32::MIN + 1 <= v.1 <= i32::MAX - 1
}

impl HexVector2d {
    pub fn new(a: i32, b: i32) -> (r: Self)
        ensures
            r@ == (a as int, b as int),
    {
        HexVector2d { a, b }
    }

    pub fn north() -> (r: Self)
        ensures
            r@ == (1int, 0int),
    {
        HexVector2d { a: 1, b: 0 }
    }

    pub fn north_east() -> (r: Self)
        ensures
            r@ == (0int, 1int),
    {
        HexVector2d { a: 0, b: 1 }
    }

    pub fn north_west() -> (r: Self)
        ensures
            r@ == (1int, -1int),
    {
        HexVector2d { a: 1, b: -1 }
    }

    pub fn south() -> (r: Self)
        ensures
            r@ == (-1int, 0int),
    {
        HexVector2d { a: -1, b: 0 }
    }

    pub fn south_east() -> (r: Self)
        ensures
            r@ == (-1int, 1int),
    {
        HexVector2d { a: -1, b: 1 }
    }

    pub fn south_west() -> (r: Self)
        ensures
            r@ == (0int, -1int),
    {
        HexVector2d { a: 0, b: -1 }
    }

    /// Component wise sum.
    pub fn plus(self, rhs: Self) -> (r: Self)
        requires
            i32::MIN <= self@.0 + rhs@.0 <= i32::MAX,
            i32::MIN <= self@.1 + rhs@.1 <= i32::MAX,
        ensures
            r@ == (self@.0 + rhs@.0, self@.1 + rhs@.1),
    {
        HexVector2d { a: self.a + rhs.a, b: self.b + rhs.b }
    }

    /// Component wise difference.
    pub fn minus(self, rhs: Self) -> (r: Self)
        requires
            i32::MIN <= self@.0 - rhs@.0 <= i32::MAX,
            i32::MIN <= self@.1 - rhs@.1 <= i32::MAX,
        ensures
            r@ == (self@.0 - rhs@.0, self@.1 - rhs@.1),
    {
        HexVector2d { a: self.a - rhs.a, b: self.b - rhs.b }
    }

    /// Both components multiplied by `factor`.
    pub fn scaled(self, factor: i32) -> (r: Self)
        requires
            i32::MIN <= self@.0 * factor <= i32::MAX,
            i32::MIN <= self@.1 * factor <= i32::MAX,
        ensures
            r@ == (self@.0 * factor, self@.1 * factor),
    {
        HexVector2d { a: self.a * factor, b: self.b * factor }
    }

    /// The coordinates of the tile with id `id`.
    pub fn from_tile_index(id: u32) -> (v: Self)
        requires
            id <= MAX_TILE_INDEX,
        ensures
            v@ == hex_of_id(id as int),
            hex_distance(v@) <= MAX_RING,
    {
        proof {
            lemma_distance_of_id(id as int);
        }
        if id == 0 {
            return HexVector2d { a: 0, b: 0 };
        }
        let id: i32 = id as i32;
        let mut ring: i32 = 1;
        proof {
            lemma_ring_span(1);
        }
        // this loop can be avoided using floating points and square roots,
        // but then precision suffers and becomes per-platform.
        loop
            invariant
                1 <= ring <= MAX_RING,
                1 <= id <= MAX_TILE_INDEX,
                first_id_on_ring(ring as int) <= id,
            ensures
                1 <= ring <= MAX_RING,
                is_ring_of(id as int, ring as int),
            decreases MAX_RING - ring,
        {
            proof {
                lemma_last_id_bounded(ring as int);
            }
            if id <= 3 * (ring + 1) * ring {
                break ;
            }
            proof {
                lemma_ring_span(ring as int);
                lemma_last_id_bounded(MAX_RING as int);
            }
            ring = ring + 1;
        }
        proof {
            lemma_ring_of(id as int, ring as int);
            lemma_ring_span(ring as int);
            lemma_last_id_bounded(ring as int);
            assert(3 * ring * (ring - 1) <= 3 * (ring + 1) * ring) by (nonlinear_arith)
                requires
                    ring >= 1,
            ;
        }
        let steps_on_ring: i32 = id - (3 * ring * (ring - 1) + 1);
        proof {
            assert(0 <= steps_on_ring < 6 * ring);
            assert(hex_of_id(id as int) == position_on_ring(ring as int, steps_on_ring as int));
        }
        // The ring is walked edge by edge, each edge `ring` steps long.
        if steps_on_ring < ring {
            // south * ring + north east * steps
            HexVector2d::new(-ring, steps_on_ring)
        } else if steps_on_ring < 2 * ring {
            // south east * ring + north * (steps - ring)
            HexVector2d::new(steps_on_ring - 2 * ring, ring)
        } else if steps_on_ring < 3 * ring {
            // north east * ring + north west * (steps - 2 ring)
            HexVector2d::new(steps_on_ring - 2 * ring, 3 * ring - steps_on_ring)
        } else if steps_on_ring < 4 * ring {
            // north * ring + south west * (steps - 3 ring)
            HexVector2d::new(ring, 3 * ring - steps_on_ring)
        } else if steps_on_ring < 5 * ring {
            // north west * ring + south * (steps - 4 ring)
            HexVector2d::new(5 * ring - steps_on_ring, -ring)
        } else {
            // south west * ring + south east * (steps - 5 ring)
            HexVector2d::new(5 * ring - steps_on_ring, steps_on_ring - 6 * ring)
        }
    }

    /// The coordinates of the tile `tile`.
    pub fn from_tile_id(tile: TileId) -> (v: Self)
        requires
            tile.0 <= MAX_TILE_INDEX,
        ensures
            v@ == hex_of_id(tile.0 as int),
            hex_distance(v@) <= MAX_RING,
    {
        HexVector2d::from_tile_index(tile.0)
    }

    /// The id of the tile at these coordinates.
    pub fn to_tile_index(self) -> (id: u32)
        requires
            hex_distance(self@) <= MAX_RING,
        ensures
            id as int == id_of_hex(self@),
            id <= MAX_TILE_INDEX,
    {
        proof {
            lemma_id_of_hex_is_spiral_index(self@);
            if self@ != (0int, 0int) {
                lemma_last_id_bounded(hex_distance(self@));
                lemma_ring_span(hex_distance(self@));
            }
        }
        let a = self.a;
        let b = self.b;
        let abs_a: i32 = if a < 0 {
            -a
        } else {
            a
        };
        let abs_b: i32 = if b < 0 {
            -b
        } else {
            b
        };
        if (a > 0) != (b > 0) || (a < 0) != (b < 0) {
            let ring: i32 = if abs_a >= abs_b {
                abs_a
            } else {
                abs_b
            };
            proof {
                assert(ring as int == hex_distance(self@));
                assert(3 * ring * (ring - 1) <= 3 * (ring + 1) * ring) by (nonlinear_arith)
                    requires
                        ring >= 1,
                ;
            }
            if abs_a >= abs_b {
                if a > 0 {
                    let tile_at_ring_top = (3 * ring * (ring - 1) + 1) + 3 * ring;
                    (tile_at_ring_top + abs_b) as u32
                } else {
                    let tile_at_bottom = 3 * ring * (ring - 1) + 1;
                    (tile_at_bottom + b) as u32
                }
            } else if b > 0 {
                let tile_at_two_sixths = (3 * ring * (ring - 1) + 1) + 2 * ring;
                (tile_at_two_sixths + a) as u32
            } else {
                let tile_at_five_sixths = (3 * ring * (ring - 1) + 1) + 5 * ring;
                (tile_at_five_sixths - abs_a) as u32
            }
        } else {
            // The normal hex vector has a blind spot, so in the blind spot
            // the coordinates are changed to north/south and
            // south east/north west.
            let converted_a: i32 = a + b;
            let converted_b: i32 = b;
            let ring: i32 = if converted_a < 0 {
                -converted_a
            } else {
                converted_a
            };
            if ring == 0 {
                0
            } else {
                proof {
                    assert(ring as int == hex_distance(self@));
                    assert(3 * ring * (ring - 1) <= 3 * (ring + 1) * ring) by (nonlinear_arith)
                        requires
                            ring >= 1,
                    ;
                    assert(3 * ring * (ring + 1) == 3 * (ring + 1) * ring) by (nonlinear_arith);
                }
                if converted_a > 0 {
                    let tile_at_ring_top = (3 * ring * (ring - 1) + 1) + 3 * ring;
                    (tile_at_ring_top - converted_b) as u32
                } else {
                    let tile_at_bottom_with_offset = 3 * ring * (ring + 1) + 1;
                    (tile_at_bottom_with_offset + converted_b) as u32
                }
            }
        }
    }

    /// The tile at these coordinates, if it lies on the board that `server`
    /// hands out ids for.
    pub fn to_valid_tile_id(self, server: &TileIdServer) -> (r: Option<TileId>)
        requires
            hex_distance(self@) <= MAX_RING,
        ensures
            id_of_hex(self@) < server.total_tiles_on_board ==> r == Some(
                TileId(id_of_hex(self@) as u32),
            ),
            id_of_hex(self@) >= server.total_tiles_on_board ==> r == None::<TileId>,
    {
        server.construct_tile_id(self.to_tile_index()).ok()
    }

    /// The six neighbouring positions: north, south, north east, south east,
    /// north west and south west, in this order.
    pub fn adjacencies(self) -> (r: [Self; 6])
        requires
            steppable(self@),
        ensures
            r@.len() == 6,
            r@[0]@ == (self@.0 + 1, self@.1),
            r@[1]@ == (self@.0 - 1, self@.1),
            r@[2]@ == (self@.0, self@.1 + 1),
            r@[3]@ == (self@.0 - 1, self@.1 + 1),
            r@[4]@ == (self@.0 + 1, self@.1 - 1),
            r@[5]@ == (self@.0, self@.1 - 1),
    {
        [
            self.plus(HexVector2d::north()),
            self.plus(HexVector2d::south()),
            self.plus(HexVector2d::north_east()),
            self.plus(HexVector2d::south_east()),
            self.plus(HexVector2d::north_west()),
            self.plus(HexVector2d::south_west()),
        ]
    }
}

/// The tile at `v` lies between one and `depth` steps away from the tile at
/// `center`.
pub open spec fn within_steps(center: (int, int), v: (int, int), depth: int) -> bool {
    let d = hex_distance((v.0 - center.0, v.1 - center.1));
    1 <= d <= depth
}

impl HexVector2d {
    /// The number of steps between the origin and this position.
    pub fn distance_from_origin(self) -> (r: u64)
        ensures
            r as int == hex_distance(self@),
    {
        let a: i64 = self.a as i64;
        let b: i64 = self.b as i64;
        let s: i64 = a + b;
        let abs_a: i64 = if a < 0 {
            -a
        } else {
            a
        };
        let abs_b: i64 = if b < 0 {
            -b
        } else {
            b
        };
        let abs_s: i64 = if s < 0 {
            -s
        } else {
            s
        };
        let m: i64 = if abs_a >= abs_b {
            abs_a
        } else {
            abs_b
        };
        let d: i64 = if m >= abs_s {
            m
        } else {
            abs_s
        };
        d as u64
    }

    /// The tiles of the board (of `server`) between one and `depth` steps
    /// away from this position, by increasing id.
    pub fn adjacent_ids_with_depth(self, depth: u8, server: &TileIdServer) -> (r: Vec<TileId>)
        requires
            hex_distance(self@) <= MAX_RING,
            server.total_tiles_on_board <= BOARD_TILE_LIMIT,
        ensures
            forall|k: int|
                #![trigger r@[k]]
                0 <= k < r@.len() ==> r@[k].0 < server.total_tiles_on_board && within_steps(
                    self@,
                    hex_of_id(r@[k].0 as int),
                    depth as int,
                ),
            forall|i: int|
                0 <= i < server.total_tiles_on_board && within_steps(
                    self@,
                    hex_of_id(i),
                    depth as int,
                ) ==> listed(r@, i),
            forall|k: int, l: int| 0 <= k < l < r@.len() ==> r@[k].0 < r@[l].0,
    {
        let mut r: Vec<TileId> = Vec::new();
        let mut i: u32 = 0;
        while i < server.total_tiles_on_board
            invariant
                0 <= i <= server.total_tiles_on_board,
                server.total_tiles_on_board <= BOARD_TILE_LIMIT,
                hex_distance(self@) <= MAX_RING,
                forall|k: int|
                    #![trigger r@[k]]
                    0 <= k < r@.len() ==> r@[k].0 < i && within_steps(
                        self@,
                        hex_of_id(r@[k].0 as int),
                        depth as int,
                    ),
                forall|j: int|
                    0 <= j < i && within_steps(self@, hex_of_id(j), depth as int) ==> listed(
                        r@,
                        j,
                    ),
                forall|k: int, l: int| 0 <= k < l < r@.len() ==> r@[k].0 < r@[l].0,
            decreases server.total_tiles_on_board - i,
        {
            let v = HexVector2d::from_tile_index(i);
            let d = v.minus(self).distance_from_origin();
            let ghost r_before = r@;
            if 1 <= d && d <= depth as u64 {
                r.push(TileId(i));
                proof {
                    assert(r@[r@.len() - 1] == TileId(i));
                }
            }
            proof {
                assert forall|j: int|
                    0 <= j < i + 1 && within_steps(self@, hex_of_id(j), depth as int) implies listed(
                    r@,
                    j,
                ) by {
                    if j < i {
                        assert(listed(r_before, j));
                        let m = choose|m: int|
                            #![trigger r_before[m]]
                            0 <= m < r_before.len() && r_before[m].0 == j;
                        assert(r@[m] == r_before[m]);
                    } else {
                        assert(r@[r@.len() - 1].0 == j);
                    }
                }
            }
            i = i + 1;
        }
        r
    }
}

/// The step to the `k`th neighbour, in the order `adjacencies` lists them:
/// north, south, north east, south east, north west, south west.
pub open spec fn neighbour_step(k: int) -> (int, int) {
    if k == 0 {
        (1int, 0int)
    } else if k == 1 {
        (-1int, 0int)
    } else if k == 2 {
        (0int, 1int)
    } else if k == 3 {
        (-1int, 1int)
    } else if k == 4 {
        (1int, -1int)
    } else {
        (0int, -1int)
    }
}

/// The tiles with ids `i` and `j` share an edge.
pub open spec fn tiles_adjacent(i: int, j: int) -> bool {
    let v = hex_of_id(i);
    let w = hex_of_id(j);
    hex_distance((v.0 - w.0, v.1 - w.1)) == 1
}

/// The number of steps between two positions is the same either way.
pub proof fn lemma_distance_symmetric(v: (int, int), w: (int, int))
    ensures
        hex_distance((v.0 - w.0, v.1 - w.1)) == hex_distance((w.0 - v.0, w.1 - v.1)),
{
}

/// Adjacency goes both ways.
pub proof fn lemma_adjacency_symmetric(i: int, j: int)
    ensures
        tiles_adjacent(i, j) == tiles_adjacent(j, i),
{
    lemma_distance_symmetric(hex_of_id(i), hex_of_id(j));
}

/// The tile with id `i` is the `k`th neighbour of the tile with id `j`.
proof fn lemma_neighbour_is_adjacent(j: int, k: int)
    requires
        j >= 0,
        0 <= k < 6,
    ensures
        tiles_adjacent(
            id_of_hex(
                (hex_of_id(j).0 + neighbour_step(k).0, hex_of_id(j).1 + neighbour_step(k).1),
            ),
            j,
        ),
{
    let v = hex_of_id(j);
    let w = (v.0 + neighbour_step(k).0, v.1 + neighbour_step(k).1);
    lemma_hex_round_trip(w);
}

/// Two tiles are adjacent exactly when one is a neighbour of the other.
pub proof fn lemma_adjacent_is_neighbour(i: int, j: int)
    requires
        i >= 0,
        j >= 0,
        tiles_adjacent(i, j),
    ensures
        exists|k: int|
            0 <= k < 6 && i == id_of_hex(
                (hex_of_id(j).0 + neighbour_step(k).0, hex_of_id(j).1 + neighbour_step(k).1),
            ),
{
    let v = hex_of_id(i);
    let w = hex_of_id(j);
    let d = (v.0 - w.0, v.1 - w.1);
    let k: int = if d == (1int, 0int) {
        0
    } else if d == (-1int, 0int) {
        1
    } else if d == (0int, 1int) {
        2
    } else if d == (-1int, 1int) {
        3
    } else if d == (1int, -1int) {
        4
    } else {
        5
    };
    assert(neighbour_step(k) == d);
    assert((w.0 + neighbour_step(k).0, w.1 + neighbour_step(k).1) == v);
    lemma_id_round_trip(i);
}

/// Tiles with ids below `BOARD_TILE_LIMIT` lie on ring `MAX_RING - 1` or
/// closer.
pub proof fn lemma_inner_tile_distance(id: int)
    requires
        0 <= id < 2147249287,
    ensures
        hex_distance(hex_of_id(id)) < MAX_RING,
{
    lemma_distance_of_id(id);
    if id >= 1 {
        let r = ring_of(id);
        if r >= MAX_RING {
            lemma_ring_span(MAX_RING as int);
            if r > MAX_RING {
                lemma_rings_ordered(MAX_RING as int, r);
            }
            assert(first_id_on_ring(MAX_RING as int) == 2147249287);
        }
    }
}

/// The tiles on the board (of `server`) that share an edge with `tile`, in
/// the order north, south, north east, south east, north west, south west.
pub fn valid_neighbours(tile: TileId, server: &TileIdServer) -> (r: Vec<TileId>)
    requires
        tile.0 < 2147249287,
    ensures
        forall|k: int|
            #![trigger r@[k]]
            0 <= k < r@.len() ==> r@[k].0 < server.total_tiles_on_board && tiles_adjacent(
                r@[k].0 as int,
                tile.0 as int,
            ),
        forall|i: int|
            0 <= i < server.total_tiles_on_board && tiles_adjacent(i, tile.0 as int) ==> exists|
                k: int,
            |
                #![trigger r@[k]]
                0 <= k < r@.len() && r@[k].0 == i,
{
    proof {
        lemma_inner_tile_distance(tile.0 as int);
    }
    let v = HexVector2d::from_tile_id(tile);
    let ghost w = v@;
    let neighbours = v.adjacencies();
    let mut r: Vec<TileId> = Vec::new();
    let mut k: usize = 0;
    while k < 6
        invariant
            0 <= k <= 6,
            w == hex_of_id(tile.0 as int),
            hex_distance(w) < MAX_RING,
            neighbours@.len() == 6,
            forall|m: int|
                #![trigger neighbours@[m]]
                0 <= m < 6 ==> neighbours@[m]@ == (w.0 + neighbour_step(m).0, w.1
                    + neighbour_step(m).1),
            forall|m: int|
                #![trigger r@[m]]
                0 <= m < r@.len() ==> r@[m].0 < server.total_tiles_on_board && tiles_adjacent(
                    r@[m].0 as int,
                    tile.0 as int,
                ),
            forall|m: int|
                0 <= m < k ==> id_of_hex(neighbours@[m]@) < server.total_tiles_on_board ==> exists|
                    l: int,
                |
                    #![trigger r@[l]]
                    0 <= l < r@.len() && r@[l].0 == id_of_hex(neighbours@[m]@),
        decreases 6 - k,
    {
        let n = neighbours[k];
        let ghost r_before = r@;
        proof {
            lemma_neighbour_is_adjacent(tile.0 as int, k as int);
            lemma_hex_round_trip(n@);
        }
        match n.to_valid_tile_id(server) {
            Some(id) => {
                r.push(id);
                proof {
                    assert(r@[r@.len() - 1] == id);
                }
            },
            None => {},
        }
        proof {
            assert forall|m: int|
                0 <= m < k + 1 && id_of_hex(neighbours@[m]@)
                    < server.total_tiles_on_board implies exists|l: int|
                #![trigger r@[l]]
                0 <= l < r@.len() && r@[l].0 == id_of_hex(neighbours@[m]@) by {
                if m < k {
                    let l = choose|l: int|
                        #![trigger r_before[l]]
                        0 <= l < r_before.len() && r_before[l].0 == id_of_hex(neighbours@[m]@);
                    assert(r@[l] == r_before[l]);
                } else {
                    assert(r@[r@.len() - 1].0 == id_of_hex(neighbours@[m]@));
                }
            }
        }
        k = k + 1;
    }
    proof {
        assert forall|i: int|
            0 <= i < server.total_tiles_on_board && tiles_adjacent(
                i,
                tile.0 as int,
            ) implies exists|l: int| #![trigger r@[l]] 0 <= l < r@.len() && r@[l].0 == i by {
            lemma_adjacent_is_neighbour(i, tile.0 as int);
            let m = choose|m: int|
                0 <= m < 6 && i == id_of_hex(
                    (hex_of_id(tile.0 as int).0 + neighbour_step(m).0, hex_of_id(tile.0 as int).1
                        + neighbour_step(m).1),
                );
            assert(neighbours@[m]@ == (w.0 + neighbour_step(m).0, w.1 + neighbour_step(m).1));
        }
    }
    r
}

} // verus!
