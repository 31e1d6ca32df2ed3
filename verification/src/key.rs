//! Bit-interleaved spatial keys for octree cells.
//!
//! A key packs a cell's depth and its three axis indices into one `u64`:
//! each axis index is "dilated" (its bits spread three positions apart),
//! the three dilated lanes are interleaved, and a leading marker bit records
//! the depth.  The root cell is the key `1`; a child key appends one octant
//! selector (three bits) below its parent's bits.

use vstd::arithmetic::power2::pow2;
use vstd::arithmetic::power2::lemma_pow2_adds;
use vstd::arithmetic::power2::lemma_pow2_pos;
use vstd::arithmetic::power2::lemma2_to64;
use vstd::arithmetic::power2::lemma2_to64_rest;
use vstd::prelude::*;

verus! {

/// Number of bits each axis index may use; a key can address cells down to
/// this depth.
pub const COMPONENT_BIT_COUNT: u32 = 21;

/// Every third bit, starting at bit two: the lane holding the dilated x index.
const ISOLATE_X_MASK: u64 = 0b100100100100100100100100100100100100100100100100100100100100100;

/// Every third bit, starting at bit one: the lane holding the dilated y index.
const ISOLATE_Y_MASK: u64 = 0b010010010010010010010010010010010010010010010010010010010010010;

/// Every third bit, starting at bit zero: the lane holding the dilated z index.
const ISOLATE_Z_MASK: u64 = 0b001001001001001001001001001001001001001001001001001001001001001;

// The masks applied after each doubling step of the dilation, and, read the
// other way, after each gap-closing step of the undilation.  Mask `i` keeps
// groups of 2^i bits spread 3 * 2^i apart.
const CONVERSION_MASK_0: u64 = 0b001001001001001001001001001001001001001001001001001001001001001;

const CONVERSION_MASK_1: u64 = 0b001000011000011000011000011000011000011000011000011000011000011;

const CONVERSION_MASK_2: u64 = 0b001000000001111000000001111000000001111000000001111000000001111;

const CONVERSION_MASK_3: u64 = 0b000000000011111000000000000000011111111000000000000000011111111;

const CONVERSION_MASK_4: u64 = 0b000000000011111000000000000000000000000000000001111111111111111;

const CONVERSION_MASK_5: u64 = 0b000000000000000000000000000000000000000000111111111111111111111;

/// The depth a key value encodes: the position of its leading marker bit,
/// divided by three.
pub open spec fn key_level(k: nat) -> nat
    decreases k,
{
    if k < 8 {
        0
    } else {
        key_level(k / 8) + 1
    }
}

/// The x index a key value encodes at depth `l`: every third bit, starting
/// two above the bottom.
pub open spec fn key_x(k: nat, l: nat) -> nat
    decreases l,
{
    if l == 0 {
        0
    } else {
        2 * key_x(k / 8, (l - 1) as nat) + (k / 4) % 2
    }
}

/// The y index a key value encodes at depth `l`.
pub open spec fn key_y(k: nat, l: nat) -> nat
    decreases l,
{
    if l == 0 {
        0
    } else {
        2 * key_y(k / 8, (l - 1) as nat) + (k / 2) % 2
    }
}

/// The z index a key value encodes at depth `l`.
pub open spec fn key_z(k: nat, l: nat) -> nat
    decreases l,
{
    if l == 0 {
        0
    } else {
        2 * key_z(k / 8, (l - 1) as nat) + k % 2
    }
}

/// The key value that encodes depth `l` and axis indices `x`, `y`, `z`.
pub open spec fn key_of(l: nat, x: nat, y: nat, z: nat) -> nat
    decreases l,
{
    if l == 0 {
        1
    } else {
        8 * key_of((l - 1) as nat, x / 2, y / 2, z / 2) + 4 * (x % 2) + 2 * (y % 2) + z % 2
    }
}

/// An axis index with its bits spread three positions apart.
pub open spec fn dilated(c: nat) -> nat
    decreases c,
{
    if c == 0 {
        0
    } else {
        8 * dilated(c / 2) + c % 2
    }
}

/// The five doubling steps that spread a 21-bit value's bits three positions
/// apart, with gaps 32, 16, 8, 4 and 2.
spec fn dilate_steps(c: u64) -> u64 {
    let c1 = ((c << 32) | c) & CONVERSION_MASK_4;
    let c2 = ((c1 << 16) | c1) & CONVERSION_MASK_3;
    let c3 = ((c2 << 8) | c2) & CONVERSION_MASK_2;
    let c4 = ((c3 << 4) | c3) & CONVERSION_MASK_1;
    ((c4 << 2) | c4) & CONVERSION_MASK_0
}

/// The five gap-closing steps that pack a dilated lane back into a 21-bit
/// value, with gaps 2, 4, 8, 16 and 32.
spec fn undilate_steps(v: u64) -> u64 {
    let v1 = ((v >> 2) | v) & CONVERSION_MASK_1;
    let v2 = ((v1 >> 4) | v1) & CONVERSION_MASK_2;
    let v3 = ((v2 >> 8) | v2) & CONVERSION_MASK_3;
    let v4 = ((v3 >> 16) | v3) & CONVERSION_MASK_4;
    ((v4 >> 32) | v4) & CONVERSION_MASK_5
}

/// A dilated value is confined to its bit lane.
proof fn lemma_dilate_steps_in_lane(v: u64)
    ensures
        dilate_steps(v) & CONVERSION_MASK_0 == dilate_steps(v),
{
    assert(dilate_steps(v) & CONVERSION_MASK_0 == dilate_steps(v)) by (bit_vector);
}

/// The doubling steps compute the dilation, bit by bit.
proof fn lemma_dilate_steps(c: u64)
    requires
        c < 0x200000,
    ensures
        dilate_steps(c) as nat == dilated(c as nat),
    decreases c,
{
    if c == 0 {
        assert(dilate_steps(0) == 0) by (bit_vector);
    } else {
        assert(c >> 1 == c / 2 && c & 1 == c % 2 && c / 2 < c) by (bit_vector)
            requires
                c >= 1,
        ;
        lemma_dilate_steps((c / 2) as u64);
        assert(dilate_steps(c) == 8 * dilate_steps(c >> 1) + (c & 1)) by (bit_vector)
            requires
                c < 0x200000u64,
        ;
    }
}

/// Undilating a dilated value gives the value back.
proof fn lemma_undilate_dilate(c: u64)
    requires
        c < 0x200000,
    ensures
        undilate_steps(dilate_steps(c)) == c,
{
    assert(undilate_steps(dilate_steps(c)) == c) by (bit_vector)
        requires
            c < 0x200000u64,
    ;
}

/// The gap-closing steps treat the bits of disjoint inputs independently.
proof fn lemma_undilate_or(a: u64, b: u64)
    ensures
        undilate_steps(a | b) == undilate_steps(a) | undilate_steps(b),
{
    assert(undilate_steps(a | b) == undilate_steps(a) | undilate_steps(b)) by (bit_vector);
}

/// The undilated marker bit lands at or above the bit for the key's depth.
proof fn lemma_undilate_marker(l: u64, s: u64)
    requires
        l <= 21,
        s == 3 * l,
    ensures
        undilate_steps((1u64 << s) & ISOLATE_Z_MASK) & (((1u64 << l) - 1) as u64) == 0,
{
    assert(undilate_steps((1u64 << s) & ISOLATE_Z_MASK) & (((1u64 << l) - 1) as u64) == 0) by (bit_vector)
        requires
            l <= 21u64,
            s == 3 * l,
    ;
}

/// Masking with the depth's low-bit mask keeps an in-range value and drops
/// bits at or above the depth.
proof fn lemma_mask_low(v: u64, w: u64, l: u64)
    requires
        l <= 21,
        v < (1u64 << l),
        w & (((1u64 << l) - 1) as u64) == 0,
    ensures
        (v | w) & (((1u64 << l) - 1) as u64) == v,
{
    assert((v | w) & (((1u64 << l) - 1) as u64) == v) by (bit_vector)
        requires
            l <= 21u64,
            v < (1u64 << l),
            w & (((1u64 << l) - 1) as u64) == 0,
    ;
}

/// Three dilated lanes and a marker bit assemble into one key value by
/// either addition or bitwise or, and each lane can be read back with its
/// isolation mask.
proof fn lemma_lane_extract(dx: u64, dy: u64, dz: u64, l: u64, s: u64, p: u64, key: u64)
    by (bit_vector)
    requires
        dx & CONVERSION_MASK_0 == dx,
        dy & CONVERSION_MASK_0 == dy,
        dz & CONVERSION_MASK_0 == dz,
        l <= 21,
        s == 3 * l,
        p == (1u64 << s),
        dz < p,
        key == p | (dx << 2) | (dy << 1) | dz,
    ensures
        key == p + 4 * dx + 2 * dy + dz,
        (key & ISOLATE_X_MASK) >> 2 == dx,
        (key & ISOLATE_Y_MASK) >> 1 == dy,
        key & ISOLATE_Z_MASK == dz | (p & ISOLATE_Z_MASK),
{
}

/// A value below `2^n` dilates to below `2^(3n)`.
proof fn lemma_dilated_bound(c: nat, n: nat)
    requires
        c < pow2(n),
    ensures
        dilated(c) < pow2(3 * n),
    decreases n,
{
    if n == 0 {
        assert(pow2(0) == 1) by {
            lemma2_to64();
        };
    } else {
        vstd::arithmetic::power2::lemma_pow2_unfold(n);
        assert(c / 2 < pow2((n - 1) as nat));
        lemma_dilated_bound(c / 2, (n - 1) as nat);
        lemma_pow2_adds(3 * (n - 1) as nat, 3);
        lemma2_to64();
        assert(pow2(3 * n) == 8 * pow2(3 * (n - 1) as nat));
        assert(dilated(c) == 8 * dilated(c / 2) + c % 2);
    }
}

/// The key for given coordinates, written with the dilated lanes laid side
/// by side under the marker bit.
proof fn lemma_key_of_closed(l: nat, x: nat, y: nat, z: nat)
    requires
        x < pow2(l),
        y < pow2(l),
        z < pow2(l),
    ensures
        key_of(l, x, y, z) == pow2(3 * l) + 4 * dilated(x) + 2 * dilated(y) + dilated(z),
    decreases l,
{
    lemma2_to64();
    if l == 0 {
        assert(pow2(0) == 1);
    } else {
        vstd::arithmetic::power2::lemma_pow2_unfold(l);
        lemma_key_of_closed((l - 1) as nat, x / 2, y / 2, z / 2);
        lemma_pow2_adds(3 * (l - 1) as nat, 3);
        assert(pow2(3 * l) == 8 * pow2(3 * (l - 1) as nat));
        assert(dilated(x) == 8 * dilated(x / 2) + x % 2);
        assert(dilated(y) == 8 * dilated(y / 2) + y % 2);
        assert(dilated(z) == 8 * dilated(z / 2) + z % 2);
    }
}

/// A key for coordinates at depth `l` lies in `[2^(3l), 2^(3l+1))`.
proof fn lemma_key_of_bound(l: nat, x: nat, y: nat, z: nat)
    requires
        x < pow2(l),
        y < pow2(l),
        z < pow2(l),
    ensures
        pow2(3 * l) <= key_of(l, x, y, z) < 2 * pow2(3 * l),
    decreases l,
{
    lemma2_to64();
    if l == 0 {
        assert(pow2(0) == 1);
    } else {
        vstd::arithmetic::power2::lemma_pow2_unfold(l);
        lemma_key_of_bound((l - 1) as nat, x / 2, y / 2, z / 2);
        lemma_pow2_adds(3 * (l - 1) as nat, 3);
        assert(pow2(3 * l) == 8 * pow2(3 * (l - 1) as nat));
    }
}

/// The three low octant bits of a value, as its bit decomposition.
proof fn lemma_octant_decomp(k: u64)
    ensures
        k as nat % 8 == 4 * (((k as nat) / 4) % 2) + 2 * (((k as nat) / 2) % 2) + (k as nat) % 2,
{
    assert(k % 8 == 4 * ((k / 4) % 2) + 2 * ((k / 2) % 2) + k % 2) by (bit_vector);
}

/// Encoding inverts decoding: reading depth and coordinates off a well
/// formed key value and re-encoding them gives the value back.  The
/// coordinates read off are in range for the depth.
proof fn lemma_key_decode(k: u64)
    requires
        k >= 1,
        (k as nat) < 2 * pow2(3 * key_level(k as nat)),
    ensures
        key_x(k as nat, key_level(k as nat)) < pow2(key_level(k as nat)),
        key_y(k as nat, key_level(k as nat)) < pow2(key_level(k as nat)),
        key_z(k as nat, key_level(k as nat)) < pow2(key_level(k as nat)),
        key_of(
            key_level(k as nat),
            key_x(k as nat, key_level(k as nat)),
            key_y(k as nat, key_level(k as nat)),
            key_z(k as nat, key_level(k as nat)),
        ) == k as nat,
    decreases k,
{
    let kn = k as nat;
    let l = key_level(kn);
    lemma2_to64();
    if k < 8 {
        assert(l == 0);
        assert(pow2(0) == 1);
        assert(kn < 2);
        assert(kn == 1);
    } else {
        assert(l == key_level(kn / 8) + 1);
        lemma_pow2_adds(3 * (l - 1) as nat, 3);
        assert(pow2(3 * l) == 8 * pow2(3 * (l - 1) as nat));
        let p = pow2(3 * (l - 1) as nat);
        assert(kn < 16 * p);
        assert(kn / 8 < 2 * p) by (nonlinear_arith)
            requires
                kn < 16 * p,
        ;
        assert(k / 8 >= 1);
        assert((k / 8) as nat == kn / 8);
        lemma_key_decode((k / 8) as u64);
        let q = kn / 8;
        let o = kn % 8;
        assert(kn == 8 * q + o) by (nonlinear_arith)
            requires
                q == kn / 8,
                o == kn % 8,
        ;
        lemma_octant_decomp(k);
        // the three axis recursions each read one bit of the low octant
        assert(kn / 4 == 2 * q + o / 4 && (kn / 4) % 2 == (o / 4) % 2 && kn / 2 == 4 * q + o / 2
            && (kn / 2) % 2 == (o / 2) % 2 && kn % 2 == o % 2) by (nonlinear_arith)
            requires
                kn == 8 * q + o,
                o < 8,
        ;
        let xx = key_x(kn, l);
        let yy = key_y(kn, l);
        let zz = key_z(kn, l);
        assert(xx == 2 * key_x(q, (l - 1) as nat) + (kn / 4) % 2);
        assert(yy == 2 * key_y(q, (l - 1) as nat) + (kn / 2) % 2);
        assert(zz == 2 * key_z(q, (l - 1) as nat) + kn % 2);
        vstd::arithmetic::power2::lemma_pow2_unfold(l);
        assert(xx < pow2(l));
        assert(yy < pow2(l));
        assert(zz < pow2(l));
        assert(xx / 2 == key_x(q, (l - 1) as nat) && xx % 2 == (kn / 4) % 2) by (nonlinear_arith)
            requires
                xx == 2 * key_x(q, (l - 1) as nat) + (kn / 4) % 2,
        ;
        assert(yy / 2 == key_y(q, (l - 1) as nat) && yy % 2 == (kn / 2) % 2) by (nonlinear_arith)
            requires
                yy == 2 * key_y(q, (l - 1) as nat) + (kn / 2) % 2,
        ;
        assert(zz / 2 == key_z(q, (l - 1) as nat) && zz % 2 == kn % 2) by (nonlinear_arith)
            requires
                zz == 2 * key_z(q, (l - 1) as nat) + kn % 2,
        ;
        assert(key_of(l, xx, yy, zz) == 8 * key_of((l - 1) as nat, xx / 2, yy / 2, zz / 2) + 4 * (xx
            % 2) + 2 * (yy % 2) + zz % 2);
        assert(key_of(l, xx, yy, zz) == 8 * q + o);
    }
}

/// Decoding inverts encoding: the key built from in-range coordinates at a
/// depth reports exactly that depth and those coordinates.
proof fn lemma_key_of_coords(l: nat, x: nat, y: nat, z: nat)
    requires
        x < pow2(l),
        y < pow2(l),
        z < pow2(l),
    ensures
        key_level(key_of(l, x, y, z)) == l,
        key_x(key_of(l, x, y, z), l) == x,
        key_y(key_of(l, x, y, z), l) == y,
        key_z(key_of(l, x, y, z), l) == z,
    decreases l,
{
    lemma_key_of_bound(l, x, y, z);
    lemma_key_level_of_range(key_of(l, x, y, z), l);
    lemma2_to64();
    if l == 0 {
        assert(pow2(0) == 1);
    } else {
        vstd::arithmetic::power2::lemma_pow2_unfold(l);
        lemma_key_of_coords((l - 1) as nat, x / 2, y / 2, z / 2);
        let kp = key_of((l - 1) as nat, x / 2, y / 2, z / 2);
        let o = 4 * (x % 2) + 2 * (y % 2) + z % 2;
        let kk = key_of(l, x, y, z);
        assert(kk == 8 * kp + o);
        assert(kk / 8 == kp && kk / 4 == 2 * kp + o / 4 && kk / 2 == 4 * kp + o / 2 && kk % 2 == o
            % 2) by (nonlinear_arith)
            requires
                kk == 8 * kp + o,
                o < 8,
        ;
        assert(o / 4 == x % 2 && (o / 2) % 2 == y % 2 && o % 2 == z % 2) by (nonlinear_arith)
            requires
                o == 4 * (x % 2) + 2 * (y % 2) + z % 2,
        ;
        assert((kk / 4) % 2 == (o / 4) % 2 && (kk / 2) % 2 == (o / 2) % 2) by (nonlinear_arith)
            requires
                kk / 4 == 2 * kp + o / 4,
                kk / 2 == 4 * kp + o / 2,
                o < 8,
        ;
        assert(key_x(kk, l) == 2 * key_x(kp, (l - 1) as nat) + (kk / 4) % 2);
        assert(key_y(kk, l) == 2 * key_y(kp, (l - 1) as nat) + (kk / 2) % 2);
        assert(key_z(kk, l) == 2 * key_z(kp, (l - 1) as nat) + kk % 2);
        assert(2 * (x / 2) + x % 2 == x) by (nonlinear_arith);
        assert(2 * (y / 2) + y % 2 == y) by (nonlinear_arith);
        assert(2 * (z / 2) + z % 2 == z) by (nonlinear_arith);
    }
}


/// One step along an axis: which neighboring cell index a relation selects
/// at depth `l`, if it stays in range.
#[derive(Hash, Debug, Copy, Clone, PartialOrd, Ord, PartialEq, Eq, Structural)]
pub enum NeighborRelation {
    Less,
    Same,
    More,
}

/// A spatial relation between two cells of one depth: an independent
/// `NeighborRelation` per axis.
#[derive(Hash, Debug, Copy, Clone, PartialOrd, Ord, PartialEq, Eq, Structural)]
pub struct Neighbor {
    pub x: NeighborRelation,
    pub y: NeighborRelation,
    pub z: NeighborRelation,
}

/// The 26 spatial relations that are not the identity, ordered as the
/// cartesian product of the per-axis relations with the identity removed.
pub open spec fn all_neighbor_descriptors() -> Seq<Neighbor> {
    seq![
        Neighbor { x: NeighborRelation::Same, y: NeighborRelation::Same, z: NeighborRelation::Less },
        Neighbor { x: NeighborRelation::Same, y: NeighborRelation::Same, z: NeighborRelation::More },
        Neighbor { x: NeighborRelation::Same, y: NeighborRelation::Less, z: NeighborRelation::Same },
        Neighbor { x: NeighborRelation::Same, y: NeighborRelation::Less, z: NeighborRelation::Less },
        Neighbor { x: NeighborRelation::Same, y: NeighborRelation::Less, z: NeighborRelation::More },
        Neighbor { x: NeighborRelation::Same, y: NeighborRelation::More, z: NeighborRelation::Same },
        Neighbor { x: NeighborRelation::Same, y: NeighborRelation::More, z: NeighborRelation::Less },
        Neighbor { x: NeighborRelation::Same, y: NeighborRelation::More, z: NeighborRelation::More },
        Neighbor { x: NeighborRelation::Less, y: NeighborRelation::Same, z: NeighborRelation::Same },
        Neighbor { x: NeighborRelation::Less, y: NeighborRelation::Same, z: NeighborRelation::Less },
        Neighbor { x: NeighborRelation::Less, y: NeighborRelation::Same, z: NeighborRelation::More },
        Neighbor { x: NeighborRelation::Less, y: NeighborRelation::Less, z: NeighborRelation::Same },
        Neighbor { x: NeighborRelation::Less, y: NeighborRelation::Less, z: NeighborRelation::Less },
        Neighbor { x: NeighborRelation::Less, y: NeighborRelation::Less, z: NeighborRelation::More },
        Neighbor { x: NeighborRelation::Less, y: NeighborRelation::More, z: NeighborRelation::Same },
        Neighbor { x: NeighborRelation::Less, y: NeighborRelation::More, z: NeighborRelation::Less },
        Neighbor { x: NeighborRelation::Less, y: NeighborRelation::More, z: NeighborRelation::More },
        Neighbor { x: NeighborRelation::More, y: NeighborRelation::Same, z: NeighborRelation::Same },
        Neighbor { x: NeighborRelation::More, y: NeighborRelation::Same, z: NeighborRelation::Less },
        Neighbor { x: NeighborRelation::More, y: NeighborRelation::Same, z: NeighborRelation::More },
        Neighbor { x: NeighborRelation::More, y: NeighborRelation::Less, z: NeighborRelation::Same },
        Neighbor { x: NeighborRelation::More, y: NeighborRelation::Less, z: NeighborRelation::Less },
        Neighbor { x: NeighborRelation::More, y: NeighborRelation::Less, z: NeighborRelation::More },
        Neighbor { x: NeighborRelation::More, y: NeighborRelation::More, z: NeighborRelation::Same },
        Neighbor { x: NeighborRelation::More, y: NeighborRelation::More, z: NeighborRelation::Less },
        Neighbor { x: NeighborRelation::More, y: NeighborRelation::More, z: NeighborRelation::More },
    ]
}

/// The six axis-aligned relations, one face of a cell each: z down, z up,
/// y down, y up, x down, x up.
pub open spec fn component_neighbor_descriptors() -> Seq<Neighbor> {
    seq![
        Neighbor { x: NeighborRelation::Same, y: NeighborRelation::Same, z: NeighborRelation::Less },
        Neighbor { x: NeighborRelation::Same, y: NeighborRelation::Same, z: NeighborRelation::More },
        Neighbor { x: NeighborRelation::Same, y: NeighborRelation::Less, z: NeighborRelation::Same },
        Neighbor { x: NeighborRelation::Same, y: NeighborRelation::More, z: NeighborRelation::Same },
        Neighbor { x: NeighborRelation::Less, y: NeighborRelation::Same, z: NeighborRelation::Same },
        Neighbor { x: NeighborRelation::More, y: NeighborRelation::Same, z: NeighborRelation::Same },
    ]
}

impl Neighbor {
    pub fn from_components(x: NeighborRelation, y: NeighborRelation, z: NeighborRelation) -> (r:
        Neighbor)
        ensures
            r == (Neighbor { x, y, z }),
    {
        Neighbor { x, y, z }
    }

    /// All 26 non-identity relations.
    pub fn all_neighbors() -> (r: Vec<Neighbor>)
        ensures
            r@ == all_neighbor_descriptors(),
    {
        let r: Vec<Neighbor> = vec![
            Neighbor { x: NeighborRelation::Same, y: NeighborRelation::Same, z: NeighborRelation::Less },
            Neighbor { x: NeighborRelation::Same, y: NeighborRelation::Same, z: NeighborRelation::More },
            Neighbor { x: NeighborRelation::Same, y: NeighborRelation::Less, z: NeighborRelation::Same },
            Neighbor { x: NeighborRelation::Same, y: NeighborRelation::Less, z: NeighborRelation::Less },
            Neighbor { x: NeighborRelation::Same, y: NeighborRelation::Less, z: NeighborRelation::More },
            Neighbor { x: NeighborRelation::Same, y: NeighborRelation::More, z: NeighborRelation::Same },
            Neighbor { x: NeighborRelation::Same, y: NeighborRelation::More, z: NeighborRelation::Less },
            Neighbor { x: NeighborRelation::Same, y: NeighborRelation::More, z: NeighborRelation::More },
            Neighbor { x: NeighborRelation::Less, y: NeighborRelation::Same, z: NeighborRelation::Same },
            Neighbor { x: NeighborRelation::Less, y: NeighborRelation::Same, z: NeighborRelation::Less },
            Neighbor { x: NeighborRelation::Less, y: NeighborRelation::Same, z: NeighborRelation::More },
            Neighbor { x: NeighborRelation::Less, y: NeighborRelation::Less, z: NeighborRelation::Same },
            Neighbor { x: NeighborRelation::Less, y: NeighborRelation::Less, z: NeighborRelation::Less },
            Neighbor { x: NeighborRelation::Less, y: NeighborRelation::Less, z: NeighborRelation::More },
            Neighbor { x: NeighborRelation::Less, y: NeighborRelation::More, z: NeighborRelation::Same },
            Neighbor { x: NeighborRelation::Less, y: NeighborRelation::More, z: NeighborRelation::Less },
            Neighbor { x: NeighborRelation::Less, y: NeighborRelation::More, z: NeighborRelation::More },
            Neighbor { x: NeighborRelation::More, y: NeighborRelation::Same, z: NeighborRelation::Same },
            Neighbor { x: NeighborRelation::More, y: NeighborRelation::Same, z: NeighborRelation::Less },
            Neighbor { x: NeighborRelation::More, y: NeighborRelation::Same, z: NeighborRelation::More },
            Neighbor { x: NeighborRelation::More, y: NeighborRelation::Less, z: NeighborRelation::Same },
            Neighbor { x: NeighborRelation::More, y: NeighborRelation::Less, z: NeighborRelation::Less },
            Neighbor { x: NeighborRelation::More, y: NeighborRelation::Less, z: NeighborRelation::More },
            Neighbor { x: NeighborRelation::More, y: NeighborRelation::More, z: NeighborRelation::Same },
            Neighbor { x: NeighborRelation::More, y: NeighborRelation::More, z: NeighborRelation::Less },
            Neighbor { x: NeighborRelation::More, y: NeighborRelation::More, z: NeighborRelation::More },
        ];
        proof {
            assert(r@ =~= all_neighbor_descriptors());
        }
        r
    }

    /// The six axis-aligned relations.
    pub fn component_neighbors() -> (r: Vec<Neighbor>)
        ensures
            r@ == component_neighbor_descriptors(),
    {
        let r: Vec<Neighbor> = vec![
            Neighbor { x: NeighborRelation::Same, y: NeighborRelation::Same, z: NeighborRelation::Less },
            Neighbor { x: NeighborRelation::Same, y: NeighborRelation::Same, z: NeighborRelation::More },
            Neighbor { x: NeighborRelation::Same, y: NeighborRelation::Less, z: NeighborRelation::Same },
            Neighbor { x: NeighborRelation::Same, y: NeighborRelation::More, z: NeighborRelation::Same },
            Neighbor { x: NeighborRelation::Less, y: NeighborRelation::Same, z: NeighborRelation::Same },
            Neighbor { x: NeighborRelation::More, y: NeighborRelation::Same, z: NeighborRelation::Same },
        ];
        proof {
            assert(r@ =~= component_neighbor_descriptors());
        }
        r
    }
}

#[derive(PartialEq, Eq, PartialOrd, Ord, Copy, Clone, Hash, Debug, Structural)]
pub struct MortonKey(pub u64);

impl MortonKey {
    /// The x index of the cell this key addresses.
    pub open spec fn x(self) -> nat {
        key_x(self.0 as nat, self.depth())
    }

    /// The y index of the cell this key addresses.
    pub open spec fn y(self) -> nat {
        key_y(self.0 as nat, self.depth())
    }

    /// The z index of the cell this key addresses.
    pub open spec fn z(self) -> nat {
        key_z(self.0 as nat, self.depth())
    }
}

/// One step along an axis: the index `r` selects next to index `c` at depth
/// `l`, or `None` where that index would leave the cell range of the depth.
pub open spec fn axis_step(c: nat, l: nat, r: NeighborRelation) -> Option<nat> {
    match r {
        NeighborRelation::Same => Some(c),
        NeighborRelation::Less => if c > 0 {
            Some((c - 1) as nat)
        } else {
            None
        },
        NeighborRelation::More => if c + 1 < pow2(l) {
            Some(c + 1)
        } else {
            None
        },
    }
}

/// The key `n` selects next to `k`: each axis steps independently, and the
/// whole query fails as soon as one axis leaves its range.
pub open spec fn spec_neighbor_key(k: MortonKey, n: Neighbor) -> Option<MortonKey> {
    let sx = axis_step(k.x(), k.depth(), n.x);
    let sy = axis_step(k.y(), k.depth(), n.y);
    let sz = axis_step(k.z(), k.depth(), n.z);
    if sx is Some && sy is Some && sz is Some {
        Some(MortonKey(key_of(k.depth(), sx->0, sy->0, sz->0) as u64))
    } else {
        None
    }
}

/// The number of set bits in a value.
pub open spec fn one_count(c: nat) -> nat
    decreases c,
{
    if c == 0 {
        0
    } else {
        one_count(c / 2) + c % 2
    }
}

/// An axis index below `2^l` has at most `l` set bits, with exactly `l` only
/// for the last index of the depth.  This is why the set-bit count bounds
/// upward steps.
proof fn lemma_one_count_full(c: nat, l: nat)
    requires
        c < pow2(l),
    ensures
        one_count(c) <= l,
        one_count(c) == l <==> c == pow2(l) - 1,
    decreases l,
{
    lemma2_to64();
    if l == 0 {
        assert(pow2(0) == 1);
    } else {
        vstd::arithmetic::power2::lemma_pow2_unfold(l);
        let p = pow2((l - 1) as nat);
        assert(pow2(l) == 2 * p);
        assert(c / 2 < p);
        lemma_one_count_full(c / 2, (l - 1) as nat);
        assert(one_count(c) == one_count(c / 2) + c % 2);
        assert(c == 2 * (c / 2) + c % 2) by (nonlinear_arith);
        if c / 2 == p - 1 && c % 2 == 1 {
            assert(c == 2 * p - 1);
        }
        if c == 2 * p - 1 {
            assert(c / 2 == p - 1 && c % 2 == 1) by (nonlinear_arith)
                requires
                    c == 2 * p - 1,
                    p >= 1,
            ;
        }
    }
}

/// Count the set bits of a value, lowest first.
fn count_set_bits(c: u32) -> (r: u32)
    ensures
        r as nat == one_count(c as nat),
{
    let mut v: u32 = c;
    let mut n: u32 = 0;
    proof {
        lemma2_to64();
        assert(pow2(32) == 0x100000000);
        lemma_one_count_full(c as nat, 32);
    }
    while v > 0
        invariant
            one_count(c as nat) == n + one_count(v as nat),
            n <= 32,
            one_count(c as nat) <= 32,
        decreases v,
    {
        let ghost prev = v;
        proof {
            assert(prev & 1 == prev % 2 && prev >> 1u32 == prev / 2 && prev / 2 < prev) by (bit_vector)
                requires
                    prev >= 1u32,
            ;
            assert(one_count(prev as nat) == one_count((prev as nat) / 2) + (prev as nat) % 2);
        }
        n = n + (v & 1);
        v = v >> 1;
    }
    n
}

/// An octree cell address: a root, children, a depth, and neighbor
/// derivation.
pub trait Key: core::hash::Hash + Sized + Copy + Clone + PartialEq + Eq {
    /// Whether this value is a meaningful cell address.
    spec fn wf(self) -> bool;

    /// The depth of the cell this value addresses.
    spec fn depth(self) -> nat;

    /// The address of the root cell.
    fn root_key() -> (r: Self)
        ensures
            r.wf(),
            r.depth() == 0,
    ;

    /// The address of this cell's `child`-th octant.
    fn child_key(&self, child: u64) -> (r: Self)
        requires
            self.wf(),
            self.depth() < COMPONENT_BIT_COUNT,
            child < 8,
        ensures
            r.wf(),
            r.depth() == self.depth() + 1,
    ;

    /// The depth of this cell.
    fn level(&self) -> (r: u32)
        requires
            self.wf(),
        ensures
            r as nat == self.depth(),
    ;

    /// The address of the cell `n` selects next to this one, or `None` where
    /// that cell lies outside the tree.
    fn neighbor_key(&self, n: Neighbor) -> (r: Option<Self>)
        requires
            self.wf(),
        ensures
            r matches Some(k) ==> k.wf() && k.depth() == self.depth(),
    ;
}

/// A key value at depth `l` lies between `2^(3l)` and `2^(3l+1)` exactly when
/// `key_level` reports `l`.
proof fn lemma_key_level_low(k: nat)
    requires
        k >= 1,
    ensures
        pow2(3 * key_level(k)) <= k,
    decreases k,
{
    if k < 8 {
        lemma2_to64();
    } else {
        lemma_key_level_low(k / 8);
        let l = key_level(k / 8);
        lemma_pow2_adds(3 * l, 3);
        lemma2_to64();
        assert(pow2(3 * l + 3) == 8 * pow2(3 * l));
        assert(8 * pow2(3 * l) <= 8 * (k / 8));
    }
}

/// Any value in `[2^(3l), 2^(3l+1))` sits at depth `l`.
proof fn lemma_key_level_of_range(k: nat, l: nat)
    requires
        pow2(3 * l) <= k < 2 * pow2(3 * l),
    ensures
        key_level(k) == l,
    decreases l,
{
    lemma2_to64();
    if l == 0 {
        assert(pow2(0) == 1);
    } else {
        lemma_pow2_adds(3 * (l - 1) as nat, 3);
        let p = pow2(3 * (l - 1) as nat);
        lemma_pow2_pos(3 * (l - 1) as nat);
        assert(pow2(3 * l) == 8 * p);
        assert(8 * p <= k < 16 * p);
        assert(k >= 8);
        assert(p <= k / 8 < 2 * p) by (nonlinear_arith)
            requires
                8 * p <= k < 16 * p,
        ;
        lemma_key_level_of_range(k / 8, (l - 1) as nat);
    }
}

impl Key for MortonKey {
    /// A key is well formed when its leading one bit sits at a position
    /// divisible by three, no deeper than the supported depth.
    open spec fn wf(self) -> bool {
        &&& self.0 >= 1
        &&& self.depth() <= COMPONENT_BIT_COUNT
        &&& (self.0 as nat) < 2 * pow2(3 * self.depth())
    }

    open spec fn depth(self) -> nat {
        key_level(self.0 as nat)
    }

    /// The key of the octree's root cell.
    fn root_key() -> (r: MortonKey)
        ensures
            r.0 == 1,
            r.x() == 0,
            r.y() == 0,
            r.z() == 0,
    {
        proof {
            lemma2_to64();
        }
        MortonKey(1)
    }

    /// The key of this cell's `child`-th octant: the parent's bits shifted up
    /// three, with the octant selector in the bottom three bits.  Bit two of
    /// the selector extends the x index, bit one the y index, bit zero the z
    /// index.
    fn child_key(&self, child: u64) -> (r: MortonKey)
        ensures
            r.0 as nat == 8 * (self.0 as nat) + child,
            r.x() == 2 * self.x() + ((child as nat) / 4) % 2,
            r.y() == 2 * self.y() + ((child as nat) / 2) % 2,
            r.z() == 2 * self.z() + (child as nat) % 2,
    {
        let p: u64 = self.0 << 3;
        let r = MortonKey(p | child);
        proof {
            let k = self.0;
            let l = self.depth();
            assert(3 * l <= 60);
            lemma_pow2_adds(3 * l, 3);
            lemma2_to64();
            lemma2_to64_rest();
            assert(pow2(3 * l + 3) == 8 * pow2(3 * l));
            assert(pow2(63) == 0x8000000000000000);
            if 3 * l + 3 < 63 {
                vstd::arithmetic::power2::lemma_pow2_strictly_increases(3 * l + 3, 63);
            }
            assert(2 * pow2(3 * l) <= pow2(63));
            assert((k as nat) < 0x8000000000000000);
            assert((k << 3) | child == 8 * k + child) by (bit_vector)
                requires
                    k < 0x2000000000000000u64,
                    child < 8u64,
            ;
            let r0 = (8 * k + child) as nat;
            assert(r0 == 8 * (k as nat) + child);
            assert(r0 / 8 == k as nat && r0 % 8 == child) by (nonlinear_arith)
                requires
                    r0 == 8 * (k as nat) + child,
                    child < 8,
            ;
            assert(r0 >= 8);
            assert(key_level(r0) == key_level(k as nat) + 1);
            assert(r0 < 2 * pow2(3 * (l + 1)));
            // each axis index recursion steps through the new bottom octant
            assert(r0 / 4 == 2 * (k as nat) + (child as nat) / 4 && (r0 / 4) % 2 == ((
            child as nat) / 4) % 2) by (nonlinear_arith)
                requires
                    r0 == 8 * (k as nat) + child,
                    child < 8,
            ;
            assert(r0 / 2 == 4 * (k as nat) + (child as nat) / 2 && (r0 / 2) % 2 == ((
            child as nat) / 2) % 2) by (nonlinear_arith)
                requires
                    r0 == 8 * (k as nat) + child,
                    child < 8,
            ;
            assert(r0 % 2 == (child as nat) % 2) by (nonlinear_arith)
                requires
                    r0 == 8 * (k as nat) + child,
                    child < 8,
            ;
        }
        r
    }

    /// The depth of the cell this key addresses: how often the key can be
    /// shifted down one octant before only the marker bit is left.
    fn level(&self) -> (r: u32)
        ensures
            r <= COMPONENT_BIT_COUNT,
    {
        let mut v: u64 = self.0;
        let mut l: u32 = 0;
        proof {
            lemma_key_level_low(self.0 as nat);
        }
        while v >= 8
            invariant
                v >= 1,
                key_level(self.0 as nat) == l + key_level(v as nat),
                key_level(v as nat) + l <= COMPONENT_BIT_COUNT,
            decreases v,
        {
            v = v / 8;
            l = l + 1;
        }
        l
    }

    /// Derive the key one step away along `neighbor`: decode the three axis
    /// indices, step each axis independently, and re-encode them at the same
    /// depth.  An axis at index zero cannot step down, and an axis at the
    /// last index of the depth cannot step up; either makes the whole query
    /// return `None`.
    fn neighbor_key(&self, neighbor: Neighbor) -> (r: Option<MortonKey>)
        ensures
            r == spec_neighbor_key(*self, neighbor),
    {
        let level = self.level();
        let mut x = self.get_component(0);
        let mut y = self.get_component(1);
        let mut z = self.get_component(2);

        // an axis index below 2^level has level set bits only when it is the
        // last index of the depth, so the counts bound the upward steps
        let x_one_count = count_set_bits(x);
        let y_one_count = count_set_bits(y);
        let z_one_count = count_set_bits(z);

        proof {
            lemma2_to64();
            vstd::arithmetic::power2::lemma_pow2_pos(self.depth());
            vstd::arithmetic::power2::lemma_pow2_strictly_increases(self.depth(), 32);
            assert(pow2(32) == 0x100000000);
            lemma_one_count_full(x as nat, self.depth());
            lemma_one_count_full(y as nat, self.depth());
            lemma_one_count_full(z as nat, self.depth());
        }

        let ghost l = self.depth();
        let ghost sx = axis_step(self.x(), l, neighbor.x);
        let ghost sy = axis_step(self.y(), l, neighbor.y);
        let ghost sz = axis_step(self.z(), l, neighbor.z);

        let mut overflow = false;
        match neighbor.x {
            NeighborRelation::Less => {
                if x == 0 {
                    overflow = true;
                } else {
                    x = x - 1;
                }
            },
            NeighborRelation::More => {
                if x_one_count < level {
                    x = x + 1;
                } else {
                    overflow = true;
                }
            },
            NeighborRelation::Same => {},
        }
        proof {
            assert(overflow <==> sx is None);
            assert(sx matches Some(c) ==> x as nat == c);
        }

        match neighbor.y {
            NeighborRelation::Less => {
                if y == 0 {
                    overflow = true;
                } else {
                    y = y - 1;
                }
            },
            NeighborRelation::More => {
                if y_one_count < level {
                    y = y + 1;
                } else {
                    overflow = true;
                }
            },
            NeighborRelation::Same => {},
        }
        proof {
            assert(overflow <==> sx is None || sy is None);
            assert(sy matches Some(c) ==> y as nat == c);
        }

        match neighbor.z {
            NeighborRelation::Less => {
                if z == 0 {
                    overflow = true;
                } else {
                    z = z - 1;
                }
            },
            NeighborRelation::More => {
                if z_one_count < level {
                    z = z + 1;
                } else {
                    overflow = true;
                }
            },
            NeighborRelation::Same => {},
        }
        proof {
            assert(overflow <==> sx is None || sy is None || sz is None);
            assert(sz matches Some(c) ==> z as nat == c);
        }

        if overflow {
            None
        } else {
            let r = MortonKey::from_components(x, y, z, level);
            Some(r)
        }
    }
}

impl MortonKey {
    /// Spread an axis index's bits three positions apart, by five doubling
    /// steps with gaps 32, 16, 8, 4 and 2.
    pub fn dilate_component(c: u32) -> (r: u64)
        requires
            c < 0x200000,
        ensures
            r as nat == dilated(c as nat),
    {
        let mut component: u64 = c as u64;
        component = ((component << 32) | component) & CONVERSION_MASK_4;
        component = ((component << 16) | component) & CONVERSION_MASK_3;
        component = ((component << 8) | component) & CONVERSION_MASK_2;
        component = ((component << 4) | component) & CONVERSION_MASK_1;
        component = ((component << 2) | component) & CONVERSION_MASK_0;
        proof {
            lemma_dilate_steps(c as u64);
        }
        component
    }

    /// Build the key for the cell at `level` with axis indices `x`, `y`, `z`:
    /// dilate each index, interleave the three lanes, and set the marker bit.
    pub fn from_components(x: u32, y: u32, z: u32, level: u32) -> (r: MortonKey)
        requires
            level <= COMPONENT_BIT_COUNT,
            (x as nat) < pow2(level as nat),
            (y as nat) < pow2(level as nat),
            (z as nat) < pow2(level as nat),
        ensures
            r.wf(),
            r.depth() == level,
            r.x() == x,
            r.y() == y,
            r.z() == z,
            r.0 as nat == key_of(level as nat, x as nat, y as nat, z as nat),
    {
        proof {
            lemma2_to64();
            if (level as nat) < 21 {
                vstd::arithmetic::power2::lemma_pow2_strictly_increases(level as nat, 21);
            }
            assert(pow2(21) == 0x200000);
        }
        let dilated_x = MortonKey::dilate_component(x) << 2;
        let dilated_y = MortonKey::dilate_component(y) << 1;
        let dilated_z = MortonKey::dilate_component(z);
        let root: u64 = 1u64 << (level * 3);

        let mut key = root;
        key |= dilated_x;
        key |= dilated_y;
        key |= dilated_z;

        proof {
            let l = level as nat;
            let dxu = dilate_steps(x as u64);
            let dyu = dilate_steps(y as u64);
            let dzu = dilate_steps(z as u64);
            lemma_dilate_steps(x as u64);
            lemma_dilate_steps(y as u64);
            lemma_dilate_steps(z as u64);
            lemma_dilate_steps_in_lane(x as u64);
            lemma_dilate_steps_in_lane(y as u64);
            lemma_dilate_steps_in_lane(z as u64);
            lemma_dilated_bound(x as nat, l);
            lemma_dilated_bound(y as nat, l);
            lemma_dilated_bound(z as nat, l);
            lemma2_to64();
            lemma2_to64_rest();
            vstd::arithmetic::power2::lemma_pow2_pos(3 * l);
            if 3 * l < 63 {
                vstd::arithmetic::power2::lemma_pow2_strictly_increases(3 * l, 63);
            }
            assert(pow2(3 * l) <= 0x8000000000000000);
            vstd::bits::lemma_u64_shl_is_mul(1u64, (3 * level) as u64);
            assert(root as nat == pow2(3 * l));
            assert(dxu < 0x8000000000000000 && dyu < 0x8000000000000000);
            assert((dxu << 2) == 4 * dxu && (dyu << 1) == 2 * dyu) by (bit_vector)
                requires
                    dxu & CONVERSION_MASK_0 == dxu,
                    dyu & CONVERSION_MASK_0 == dyu,
            ;
            lemma_lane_extract(
                dxu,
                dyu,
                dzu,
                level as u64,
                (3 * level) as u64,
                root,
                root | (dxu << 2) | (dyu << 1) | dzu,
            );
            assert(key == root | (dxu << 2) | (dyu << 1) | dzu);
            assert(key as nat == pow2(3 * l) + 4 * dilated(x as nat) + 2 * dilated(y as nat)
                + dilated(z as nat));
            lemma_key_of_closed(l, x as nat, y as nat, z as nat);
            assert(key as nat == key_of(l, x as nat, y as nat, z as nat));
            lemma_key_of_bound(l, x as nat, y as nat, z as nat);
            lemma_key_level_of_range(key as nat, l);
            lemma_key_of_coords(l, x as nat, y as nat, z as nat);
        }
        MortonKey(key)
    }

    /// Read one axis index back out of the key: isolate the axis's bit lane,
    /// shift it down, close the gaps, and cut the result to the key's depth.
    /// Component 0 is x, 1 is y, 2 is z.
    pub fn get_component(&self, component: usize) -> (r: u32)
        requires
            self.wf(),
            component < 3,
        ensures
            component == 0 ==> r as nat == self.x(),
            component == 1 ==> r as nat == self.y(),
            component == 2 ==> r as nat == self.z(),
            (r as nat) < pow2(self.depth()),
    {
        let shifted_dilated_component: u64 = if component == 0 {
            (self.0 & ISOLATE_X_MASK) >> 2
        } else if component == 1 {
            (self.0 & ISOLATE_Y_MASK) >> 1
        } else {
            self.0 & ISOLATE_Z_MASK
        };

        let mut c: u64 = shifted_dilated_component;
        // close the gaps: 2, 4, 8, 16, 32
        c = ((c >> 2) | c) & CONVERSION_MASK_1;
        c = ((c >> 4) | c) & CONVERSION_MASK_2;
        c = ((c >> 8) | c) & CONVERSION_MASK_3;
        c = ((c >> 16) | c) & CONVERSION_MASK_4;
        c = ((c >> 32) | c) & CONVERSION_MASK_5;

        // the marker bit travels down the z lane; cutting to the depth's bits
        // removes it
        let level = self.level();
        proof {
            let k = self.0;
            let l = self.depth();
            let lv = level as u64;
            lemma_key_decode(k);
            let xk = self.x();
            let yk = self.y();
            let zk = self.z();
            lemma2_to64();
            lemma2_to64_rest();
            if l < 21 {
                vstd::arithmetic::power2::lemma_pow2_strictly_increases(l, 21);
            }
            assert(pow2(21) == 0x200000);
            let xu = xk as u64;
            let yu = yk as u64;
            let zu = zk as u64;
            lemma_key_of_closed(l, xk, yk, zk);
            lemma_dilate_steps(xu);
            lemma_dilate_steps(yu);
            lemma_dilate_steps(zu);
            lemma_dilate_steps_in_lane(xu);
            lemma_dilate_steps_in_lane(yu);
            lemma_dilate_steps_in_lane(zu);
            lemma_dilated_bound(xk, l);
            lemma_dilated_bound(yk, l);
            lemma_dilated_bound(zk, l);
            let dxu = dilate_steps(xu);
            let dyu = dilate_steps(yu);
            let dzu = dilate_steps(zu);
            vstd::arithmetic::power2::lemma_pow2_pos(3 * l);
            if 3 * l < 63 {
                vstd::arithmetic::power2::lemma_pow2_strictly_increases(3 * l, 63);
            }
            assert(pow2(3 * l) <= 0x8000000000000000);
            vstd::bits::lemma_u64_shl_is_mul(1u64, (3 * l) as u64);
            let p = 1u64 << ((3 * l) as u64);
            assert(p as nat == pow2(3 * l));
            assert((dxu << 2) == 4 * dxu && (dyu << 1) == 2 * dyu) by (bit_vector)
                requires
                    dxu & CONVERSION_MASK_0 == dxu,
                    dyu & CONVERSION_MASK_0 == dyu,
            ;
            lemma_lane_extract(
                dxu,
                dyu,
                dzu,
                l as u64,
                (3 * l) as u64,
                p,
                p | (dxu << 2) | (dyu << 1) | dzu,
            );
            assert(k as nat == (p | (dxu << 2) | (dyu << 1) | dzu) as nat);
            assert(k == p | (dxu << 2) | (dyu << 1) | dzu);
            lemma_undilate_dilate(xu);
            lemma_undilate_dilate(yu);
            lemma_undilate_dilate(zu);
            // the depth's low-bit mask
            vstd::bits::lemma_u64_shl_is_mul(1u64, lv);
            if l < 63 {
                vstd::arithmetic::power2::lemma_pow2_strictly_increases(l, 63);
            }
            assert((1u64 << lv) as nat == pow2(l));
            vstd::arithmetic::power2::lemma_pow2_pos(l);
            assert(1u64 << lv >= 1);
            assert(1u64 << level == 1u64 << lv);
            let m = ((1u64 << lv) - 1) as u64;
            assert(xu < (1u64 << lv) && yu < (1u64 << lv) && zu < (1u64 << lv));
            assert(0u64 & m == 0) by (bit_vector);
            if component == 0 {
                assert(shifted_dilated_component == dxu);
                assert(c == undilate_steps(dxu));
                assert(c == xu);
                lemma_mask_low(xu, 0u64, lv);
                assert(xu | 0u64 == xu) by (bit_vector);
                assert(c & m == xu);
            } else if component == 1 {
                assert(shifted_dilated_component == dyu);
                assert(c == undilate_steps(dyu));
                assert(c == yu);
                lemma_mask_low(yu, 0u64, lv);
                assert(yu | 0u64 == yu) by (bit_vector);
                assert(c & m == yu);
            } else {
                assert(shifted_dilated_component == (dzu | (p & ISOLATE_Z_MASK)));
                lemma_undilate_or(dzu, p & ISOLATE_Z_MASK);
                assert(c == undilate_steps(dzu) | undilate_steps(p & ISOLATE_Z_MASK));
                lemma_undilate_marker(lv, (3 * l) as u64);
                lemma_mask_low(zu, undilate_steps(p & ISOLATE_Z_MASK), lv);
                assert(c & m == zu);
            }
        }
        let length_mask: u64 = (1u64 << level) - 1;
        let masked = c & length_mask;
        proof {
            assert(masked < 0x200000);
        }
        masked as u32
    }

    /// Every existing neighbor of this cell, one per relation among the 26
    /// that has a cell inside the tree, in the relations' order.
    pub fn neighbors(self) -> (r: Vec<MortonKey>)
        requires
            self.wf(),
        ensures
            r@ == collect_neighbor_keys(self, all_neighbor_descriptors()),
    {
        let ds = Neighbor::all_neighbors();
        let mut r: Vec<MortonKey> = Vec::new();
        let mut i: usize = 0;
        while i < ds.len()
            invariant
                self.wf(),
                ds@ == all_neighbor_descriptors(),
                i <= ds.len(),
                r@ == collect_neighbor_keys(self, ds@.subrange(0, i as int)),
            decreases ds.len() - i,
        {
            match self.neighbor_key(ds[i]) {
                Some(k) => r.push(k),
                None => {},
            }
            proof {
                assert(ds@.subrange(0, (i + 1) as int).drop_last() =~= ds@.subrange(0, i as int));
                assert(ds@.subrange(0, (i + 1) as int).last() == ds@[i as int]);
            }
            i = i + 1;
        }
        proof {
            assert(ds@.subrange(0, ds@.len() as int) =~= ds@);
        }
        r
    }

    /// Every existing face neighbor of this cell, one per axis-aligned
    /// relation that has a cell inside the tree, in the relations' order.
    pub fn component_neighbors(self) -> (r: Vec<MortonKey>)
        requires
            self.wf(),
        ensures
            r@ == collect_neighbor_keys(self, component_neighbor_descriptors()),
    {
        let ds = Neighbor::component_neighbors();
        let mut r: Vec<MortonKey> = Vec::new();
        let mut i: usize = 0;
        while i < ds.len()
            invariant
                self.wf(),
                ds@ == component_neighbor_descriptors(),
                i <= ds.len(),
                r@ == collect_neighbor_keys(self, ds@.subrange(0, i as int)),
            decreases ds.len() - i,
        {
            match self.neighbor_key(ds[i]) {
                Some(k) => r.push(k),
                None => {},
            }
            proof {
                assert(ds@.subrange(0, (i + 1) as int).drop_last() =~= ds@.subrange(0, i as int));
                assert(ds@.subrange(0, (i + 1) as int).last() == ds@[i as int]);
            }
            i = i + 1;
        }
        proof {
            assert(ds@.subrange(0, ds@.len() as int) =~= ds@);
        }
        r
    }
}

/// The keys that a sequence of relations selects around `k`, in their order,
/// skipping relations whose cells lie outside the tree.
pub open spec fn collect_neighbor_keys(k: MortonKey, ds: Seq<Neighbor>) -> Seq<MortonKey>
    decreases ds.len(),
{
    if ds.len() == 0 {
        Seq::<MortonKey>::empty()
    } else {
        let rest = collect_neighbor_keys(k, ds.drop_last());
        match spec_neighbor_key(k, ds.last()) {
            Some(kk) => rest.push(kk),
            None => rest,
        }
    }
}

/// A key stands among the collected neighbor keys exactly when one of the
/// relations selects it.
pub proof fn lemma_collect_neighbor_keys_contains(k: MortonKey, ds: Seq<Neighbor>, kk: MortonKey)
    ensures
        collect_neighbor_keys(k, ds).contains(kk) <==> exists|i: int|
            0 <= i < ds.len() && spec_neighbor_key(k, ds[i]) == Some(kk),
    decreases ds.len(),
{
    if ds.len() == 0 {
    } else {
        let rest = collect_neighbor_keys(k, ds.drop_last());
        let collected = collect_neighbor_keys(k, ds);
        lemma_collect_neighbor_keys_contains(k, ds.drop_last(), kk);
        assert(forall|i: int| 0 <= i < ds.len() - 1 ==> ds.drop_last()[i] == ds[i]);
        if collected.contains(kk) {
            match spec_neighbor_key(k, ds.last()) {
                Some(kk2) => {
                    let j = choose|j: int| 0 <= j < collected.len() && collected[j] == kk;
                    if j < rest.len() {
                        assert(rest.contains(kk));
                        let i = choose|i: int|
                            0 <= i < ds.len() - 1 && spec_neighbor_key(k, ds.drop_last()[i])
                                == Some(kk);
                        assert(spec_neighbor_key(k, ds[i]) == Some(kk));
                    } else {
                        assert(kk == kk2);
                        assert(spec_neighbor_key(k, ds[ds.len() - 1]) == Some(kk));
                    }
                },
                None => {
                    let i = choose|i: int|
                        0 <= i < ds.len() - 1 && spec_neighbor_key(k, ds.drop_last()[i]) == Some(
                        kk);
                    assert(spec_neighbor_key(k, ds[i]) == Some(kk));
                },
            }
        }
        if exists|i: int| 0 <= i < ds.len() && spec_neighbor_key(k, ds[i]) == Some(kk) {
            let i = choose|i: int| 0 <= i < ds.len() && spec_neighbor_key(k, ds[i]) == Some(kk);
            if i < ds.len() - 1 {
                assert(spec_neighbor_key(k, ds.drop_last()[i]) == Some(kk));
                assert(rest.contains(kk));
                let j = choose|j: int| 0 <= j < rest.len() && rest[j] == kk;
                assert(collected[j] == kk);
                assert(collected.contains(kk));
            } else {
                assert(ds.last() == ds[i]);
                assert(collected.last() == kk);
                assert(collected.contains(kk));
            }
        }
    }
}

/// Packing three axis indices and a depth into a key and reading them back
/// out is the identity, for every representable index at every supported
/// depth.
pub proof fn lemma_component_roundtrip(l: nat, x: nat, y: nat, z: nat)
    requires
        l <= COMPONENT_BIT_COUNT,
        x < pow2(l),
        y < pow2(l),
        z < pow2(l),
    ensures
        key_level(key_of(l, x, y, z)) == l,
        key_x(key_of(l, x, y, z), l) == x,
        key_y(key_of(l, x, y, z), l) == y,
        key_z(key_of(l, x, y, z), l) == z,
{
    lemma_key_of_coords(l, x, y, z);
}

/// The root cell has no neighbors: every relation that changes any axis
/// leaves the tree, and the identity relation gives the root itself.
pub proof fn lemma_root_key_neighbors(n: Neighbor)
    ensures
        n.x is Same && n.y is Same && n.z is Same ==> spec_neighbor_key(MortonKey(1), n) == Some(
            MortonKey(1),
        ),
        !(n.x is Same && n.y is Same && n.z is Same) ==> spec_neighbor_key(MortonKey(1), n)
            is None,
{
    lemma2_to64();
    let root = MortonKey(1);
    assert(root.depth() == 0);
    assert(root.x() == 0 && root.y() == 0 && root.z() == 0);
    assert(pow2(0) == 1);
    assert(key_of(0, 0, 0, 0) == 1);
}

} // verus!
