use vstd::prelude::*;
use vstd::arithmetic::div_mod::lemma_fundamental_div_mod_converse;

verus! {

/// An integer 3D vector: a chunk coordinate, a block position or a normal.
#[derive(Clone, Copy, PartialEq, Eq, Structural, Debug)]
pub struct Int3 {
    pub x: i32,
    pub y: i32,
    pub z: i32,
}

impl Int3 {
    pub fn new(x: i32, y: i32, z: i32) -> (r: Int3)
        ensures
            r.x == x,
            r.y == y,
            r.z == z,
    {
        Int3 { x, y, z }
    }
}

/// A unique integer key for a coordinate: the three components, each shifted
/// into `[0, 2^32)`, as the digits of a base-`2^32` number.
pub open spec fn coord_key(c: Int3) -> u128 {
    ((c.x + 0x8000_0000) * 0x1_0000_0000_0000_0000 + (c.y + 0x8000_0000) * 0x1_0000_0000 + (c.z
        + 0x8000_0000)) as u128
}

/// Distinct coordinates have distinct keys.
pub proof fn lemma_coord_key_injective(a: Int3, b: Int3)
    ensures
        coord_key(a) == coord_key(b) <==> a == b,
{
    if coord_key(a) == coord_key(b) {
        let (ax, ay, az) = (a.x + 0x8000_0000, a.y + 0x8000_0000, a.z + 0x8000_0000);
        let (bx, by, bz) = (b.x + 0x8000_0000, b.y + 0x8000_0000, b.z + 0x8000_0000);
        let ka = ax * 0x1_0000_0000_0000_0000 + (ay * 0x1_0000_0000 + az);
        let kb = bx * 0x1_0000_0000_0000_0000 + (by * 0x1_0000_0000 + bz);
        assert(ka == coord_key(a) as int);
        assert(kb == coord_key(b) as int);
        lemma_fundamental_div_mod_converse(ka, 0x1_0000_0000_0000_0000, ax, ay * 0x1_0000_0000 + az);
        lemma_fundamental_div_mod_converse(kb, 0x1_0000_0000_0000_0000, bx, by * 0x1_0000_0000 + bz);
        lemma_fundamental_div_mod_converse(ay * 0x1_0000_0000 + az, 0x1_0000_0000, ay, az);
        lemma_fundamental_div_mod_converse(by * 0x1_0000_0000 + bz, 0x1_0000_0000, by, bz);
    }
}

impl Int3 {
    /// The key of this coordinate.
    pub fn key(&self) -> (r: u128)
        ensures
            r == coord_key(*self),
    {
        let x = (self.x as i64 + 0x8000_0000) as u128;
        let y = (self.y as i64 + 0x8000_0000) as u128;
        let z = (self.z as i64 + 0x8000_0000) as u128;
        x * 0x1_0000_0000_0000_0000 + y * 0x1_0000_0000 + z
    }
}

} // verus!
