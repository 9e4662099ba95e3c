use vstd::prelude::*;

use crate::block::{AtlasUv, Block, BlockType, solid, texture_corner};
use crate::chunk::{
    Chunk, CHUNK_SIZE_X, CHUNK_VOLUME, block_index, cell_x, cell_y,
    cell_z, get_coords, in_chunk,
};
use crate::coord::Int3;
use crate::world::WorldChunks;

verus! {

// Faces are numbered front (+z), back (-z), left (-x), right (+x), top (+y),
// bottom (-y); the neighbouring chunk across a face lies in the same direction.

/// Unit offset across face `f`, which is also the face's normal.
pub open spec fn face_dir(f: int) -> (int, int, int) {
    if f == 0 {
        (0, 0, 1)
    } else if f == 1 {
        (0, 0, -1)
    } else if f == 2 {
        (-1, 0, 0)
    } else if f == 3 {
        (1, 0, 0)
    } else if f == 4 {
        (0, 1, 0)
    } else {
        (0, -1, 0)
    }
}

/// Corner `j` of face `f` of the unit cube, wound counter-clockwise when seen
/// from outside.
pub open spec fn face_corner(f: int, j: int) -> (int, int, int) {
    if f == 0 {
        if j == 0 { (0, 0, 1) } else if j == 1 { (1, 0, 1) } else if j == 2 { (1, 1, 1) } else { (0, 1, 1) }
    } else if f == 1 {
        if j == 0 { (1, 0, 0) } else if j == 1 { (0, 0, 0) } else if j == 2 { (0, 1, 0) } else { (1, 1, 0) }
    } else if f == 2 {
        if j == 0 { (0, 0, 0) } else if j == 1 { (0, 0, 1) } else if j == 2 { (0, 1, 1) } else { (0, 1, 0) }
    } else if f == 3 {
        if j == 0 { (1, 0, 1) } else if j == 1 { (1, 0, 0) } else if j == 2 { (1, 1, 0) } else { (1, 1, 1) }
    } else if f == 4 {
        if j == 0 { (0, 1, 1) } else if j == 1 { (1, 1, 1) } else if j == 2 { (1, 1, 0) } else { (0, 1, 0) }
    } else {
        if j == 0 { (0, 0, 0) } else if j == 1 { (1, 0, 0) } else if j == 2 { (1, 0, 1) } else { (0, 0, 1) }
    }
}

/// Local triangle pattern of a quad: two triangles over its four corners.
pub open spec fn quad_pattern(j: int) -> int {
    if j == 0 { 0 } else if j == 1 { 1 } else if j == 2 { 2 } else if j == 3 { 0 } else if j == 4 { 2 } else { 3 }
}

pub open spec fn to_int3(t: (int, int, int)) -> Int3 {
    Int3 { x: t.0 as i32, y: t.1 as i32, z: t.2 as i32 }
}

/// The four corners of face `f`.
pub fn face_vertices(face: usize) -> (r: [Int3; 4])
    requires
        face < 6,
    ensures
        forall|j: int| 0 <= j < 4 ==> #[trigger] r@[j] == to_int3(face_corner(face as int, j)),
{
    match face {
        0 => [Int3::new(0, 0, 1), Int3::new(1, 0, 1), Int3::new(1, 1, 1), Int3::new(0, 1, 1)],
        1 => [Int3::new(1, 0, 0), Int3::new(0, 0, 0), Int3::new(0, 1, 0), Int3::new(1, 1, 0)],
        2 => [Int3::new(0, 0, 0), Int3::new(0, 0, 1), Int3::new(0, 1, 1), Int3::new(0, 1, 0)],
        3 => [Int3::new(1, 0, 1), Int3::new(1, 0, 0), Int3::new(1, 1, 0), Int3::new(1, 1, 1)],
        4 => [Int3::new(0, 1, 1), Int3::new(1, 1, 1), Int3::new(1, 1, 0), Int3::new(0, 1, 0)],
        _ => [Int3::new(0, 0, 0), Int3::new(1, 0, 0), Int3::new(1, 0, 1), Int3::new(0, 0, 1)],
    }
}

/// The normal of face `f`, equal to the offset toward the cell across it.
pub fn face_normal(face: usize) -> (r: Int3)
    requires
        face < 6,
    ensures
        r == to_int3(face_dir(face as int)),
{
    match face {
        0 => Int3::new(0, 0, 1),
        1 => Int3::new(0, 0, -1),
        2 => Int3::new(-1, 0, 0),
        3 => Int3::new(1, 0, 0),
        4 => Int3::new(0, 1, 0),
        _ => Int3::new(0, -1, 0),
    }
}

/// Offsets the four corners of a face by a block's position within its chunk
/// and appends them.
pub fn offset_vertices(face_vertices: &[Int3; 4], block_offset: Int3, chunk_vertices: &mut Vec<Int3>)
    requires
        forall|j: int|
            0 <= j < 4 ==> {
                &&& i32::MIN <= #[trigger] face_vertices@[j].x + block_offset.x <= i32::MAX
                &&& i32::MIN <= face_vertices@[j].y + block_offset.y <= i32::MAX
                &&& i32::MIN <= face_vertices@[j].z + block_offset.z <= i32::MAX
            },
    ensures
        final(chunk_vertices)@ == old(chunk_vertices)@ + Seq::new(
            4,
            |j: int|
                Int3 {
                    x: (face_vertices@[j].x + block_offset.x) as i32,
                    y: (face_vertices@[j].y + block_offset.y) as i32,
                    z: (face_vertices@[j].z + block_offset.z) as i32,
                },
        ),
{
    let ghost before = chunk_vertices@;
    let mut j: usize = 0;
    while j < 4
        invariant
            j <= 4,
            forall|k: int|
                0 <= k < 4 ==> {
                    &&& i32::MIN <= #[trigger] face_vertices@[k].x + block_offset.x <= i32::MAX
                    &&& i32::MIN <= face_vertices@[k].y + block_offset.y <= i32::MAX
                    &&& i32::MIN <= face_vertices@[k].z + block_offset.z <= i32::MAX
                },
            chunk_vertices@ == before + Seq::new(
                j as nat,
                |k: int|
                    Int3 {
                        x: (face_vertices@[k].x + block_offset.x) as i32,
                        y: (face_vertices@[k].y + block_offset.y) as i32,
                        z: (face_vertices@[k].z + block_offset.z) as i32,
                    },
            ),
        decreases 4 - j,
    {
        let v = face_vertices[j];
        chunk_vertices.push(
            Int3 { x: v.x + block_offset.x, y: v.y + block_offset.y, z: v.z + block_offset.z },
        );
        j = j + 1;
        proof {
            assert(chunk_vertices@ =~= before + Seq::new(
                j as nat,
                |k: int|
                    Int3 {
                        x: (face_vertices@[k].x + block_offset.x) as i32,
                        y: (face_vertices@[k].y + block_offset.y) as i32,
                        z: (face_vertices@[k].z + block_offset.z) as i32,
                    },
            ));
        }
    }
}

/// The set of visible faces of one block, one bit per face.
#[derive(Clone, Copy, PartialEq, Eq, Structural, Debug)]
pub struct BlockFaces {
    bits: u8,
}

impl BlockFaces {
    /// Only the six face bits may be set.
    pub closed spec fn wf(&self) -> bool {
        self.bits < 64
    }

    /// Whether face `f` is in the set.
    pub closed spec fn has(&self, f: int) -> bool {
        (self.bits >> (f as u8)) & 1u8 == 1u8
    }

    /// The empty set.
    pub fn empty() -> (r: Self)
        ensures
            r.wf(),
            forall|f: int| 0 <= f < 6 ==> !#[trigger] r.has(f),
    {
        let r = BlockFaces { bits: 0 };
        assert forall|f: int| 0 <= f < 6 implies !#[trigger] r.has(f) by {
            let g = f as u8;
            assert((0u8 >> g) & 1u8 == 0u8) by (bit_vector);
        }
        r
    }

    /// Adds face `f`.
    pub fn insert(&mut self, face: u8)
        requires
            old(self).wf(),
            face < 6,
        ensures
            final(self).wf(),
            forall|g: int| 0 <= g < 6 ==> #[trigger] final(self).has(g) == (g == face || old(self).has(g)),
    {
        let b = self.bits;
        self.bits = b | (1u8 << face);
        assert(b < 64 && face < 6 ==> (b | (1u8 << face)) < 64) by (bit_vector);
        assert forall|g: int| 0 <= g < 6 implies #[trigger] self.has(g) == (g == face || old(self).has(g)) by {
            let h = g as u8;
            assert(face < 6 && h < 6 ==> ((((b | (1u8 << face)) >> h) & 1u8 == 1u8) == (h == face || (b >> h) & 1u8 == 1u8))) by (bit_vector);
        }
    }

    /// Whether face `f` is in the set.
    pub fn contains(&self, face: u8) -> (r: bool)
        requires
            face < 6,
        ensures
            r == self.has(face as int),
    {
        (self.bits >> face) & 1 == 1
    }

    /// Whether no face is in the set.
    pub fn is_empty(&self) -> (r: bool)
        requires
            self.wf(),
        ensures
            r == forall|f: int| 0 <= f < 6 ==> !#[trigger] self.has(f),
    {
        let b = self.bits;
        proof {
            assert(b < 64 ==> ((b == 0u8) == (b & 1u8 != 1u8 && (b >> 1u8) & 1u8 != 1u8 && (b >> 2u8) & 1u8 != 1u8 && (b >> 3u8) & 1u8 != 1u8 && (b >> 4u8) & 1u8 != 1u8 && (b >> 5u8) & 1u8 != 1u8))) by (bit_vector);
            assert(b >> 0u8 == b) by (bit_vector);
            if !(b == 0) {
                if !self.has(0) && !self.has(1) && !self.has(2) && !self.has(3) && !self.has(4) {
                    assert(self.has(5));
                }
            }
        }
        b == 0
    }
}

/// Whether the coordinate triple is representable as an `Int3`.
pub open spec fn fits_i32(t: (int, int, int)) -> bool {
    &&& i32::MIN <= t.0 <= i32::MAX
    &&& i32::MIN <= t.1 <= i32::MAX
    &&& i32::MIN <= t.2 <= i32::MAX
}

/// Coordinate of the chunk across face `f` of chunk `p`.
pub open spec fn neighbor_coord(p: Int3, f: int) -> (int, int, int) {
    let (dx, dy, dz) = face_dir(f);
    (p.x + dx, p.y + dy, p.z + dz)
}

/// The resident chunk across face `f` of chunk `p`, if any.
pub open spec fn neighbor_chunk(w: Map<Int3, Chunk>, p: Int3, f: int) -> Option<Chunk> {
    let n = neighbor_coord(p, f);
    if fits_i32(n) && w.contains_key(to_int3(n)) {
        Some(w[to_int3(n)])
    } else {
        None
    }
}

/// Whether face `f` of cell `i` is exposed, for a chunk with blocks `blocks`
/// whose neighbour across that face is `nb`: the adjacent cell is inside the
/// chunk and not solid, or lies in the resident neighbour and is not solid
/// there, or lies in a neighbour that is not resident.
pub open spec fn face_open(blocks: Seq<Block>, nb: Option<Chunk>, i: int, f: int) -> bool {
    let (dx, dy, dz) = face_dir(f);
    let nx = cell_x(i) + dx;
    let ny = cell_y(i) + dy;
    let nz = cell_z(i) + dz;
    if in_chunk(nx, ny, nz) {
        !solid(blocks[block_index(nx, ny, nz)])
    } else {
        match nb {
            Some(n) => !solid(n.blocks@[block_index(nx % 16, ny % 16, nz % 16)]),
            None => true,
        }
    }
}

/// Whether face `f` of cell `i` of the chunk at `p` is exposed in world `w`,
/// `blocks` being that chunk's blocks.
pub open spec fn face_visible(w: Map<Int3, Chunk>, p: Int3, blocks: Seq<Block>, i: int, f: int) -> bool {
    face_open(blocks, neighbor_chunk(w, p, f), i, f)
}

pub open spec fn deref_chunk(o: Option<&Chunk>) -> Option<Chunk> {
    match o {
        Some(c) => Some(*c),
        None => None,
    }
}

/// `nb` lists, per face, the resident neighbour of chunk `p` in `w`.
pub open spec fn neighbors_of(nb: Seq<Option<&Chunk>>, w: Map<Int3, Chunk>, p: Int3) -> bool {
    &&& nb.len() == 6
    &&& forall|f: int| 0 <= f < 6 ==> #[trigger] deref_chunk(nb[f]) == neighbor_chunk(w, p, f)
    &&& forall|f: int| 0 <= f < 6 ==> (#[trigger] nb[f] matches Some(c) ==> c.wf())
}

/// Maps a neighbour-relative coordinate in `-1..=16` into the neighbour.
fn wrap_coord(v: i32) -> (r: usize)
    requires
        -1 <= v <= 16,
    ensures
        r == v % 16,
        r < 16,
{
    if v < 0 {
        CHUNK_SIZE_X - 1
    } else if v >= 16 {
        0
    } else {
        v as usize
    }
}

/// Looks up the resident neighbour across each face of the chunk at `p`.
pub fn neighbor_chunks<'a>(world: &'a WorldChunks, p: Int3) -> (r: Vec<Option<&'a Chunk>>)
    requires
        world.wf(),
    ensures
        neighbors_of(r@, world@, p),
{
    proof {
        world.lemma_chunks_wf();
    }
    let mut r: Vec<Option<&'a Chunk>> = Vec::new();
    let mut f: usize = 0;
    while f < 6
        invariant
            f <= 6,
            world.wf(),
            r@.len() == f,
            forall|g: int| 0 <= g < f ==> #[trigger] deref_chunk(r@[g]) == neighbor_chunk(world@, p, g),
            forall|g: int| 0 <= g < f ==> (#[trigger] r@[g] matches Some(c) ==> c.wf()),
            forall|c: Int3| #[trigger] world@.contains_key(c) ==> world@[c].wf(),
        decreases 6 - f,
    {
        let d = face_normal(f);
        let x = p.x as i64 + d.x as i64;
        let y = p.y as i64 + d.y as i64;
        let z = p.z as i64 + d.z as i64;
        let min = i32::MIN as i64;
        let max = i32::MAX as i64;
        if x < min || x > max || y < min || y > max || z < min || z > max {
            r.push(None);
        } else {
            let c = Int3 { x: x as i32, y: y as i32, z: z as i32 };
            r.push(world.get(&c));
        }
        f = f + 1;
    }
    r
}

/// Whether face `face` of the block at local `(x, y, z)` is exposed, given the
/// chunk's blocks and its resident neighbours.
fn face_is_open(chunk: &Chunk, neighbors: &Vec<Option<&Chunk>>, x: usize, y: usize, z: usize, face: usize) -> (r: bool)
    requires
        chunk.wf(),
        in_chunk(x as int, y as int, z as int),
        face < 6,
        neighbors@.len() == 6,
        forall|f: int| 0 <= f < 6 ==> (#[trigger] neighbors@[f] matches Some(c) ==> c.wf()),
    ensures
        r == face_open(chunk.blocks@, deref_chunk(neighbors@[face as int]), block_index(x as int, y as int, z as int), face as int),
{
    proof {
        crate::chunk::lemma_index_inverse(x as int, y as int, z as int);
    }
    let d = face_normal(face);
    let nx = x as i32 + d.x;
    let ny = y as i32 + d.y;
    let nz = z as i32 + d.z;
    if 0 <= nx && nx < 16 && 0 <= ny && ny < 16 && 0 <= nz && nz < 16 {
        !chunk.blocks[Chunk::get_index(nx as usize, ny as usize, nz as usize)].is_solid()
    } else {
        match neighbors[face] {
            Some(n) => {
                let i = Chunk::get_index(wrap_coord(nx), wrap_coord(ny), wrap_coord(nz));
                !n.blocks[i].is_solid()
            },
            None => true,
        }
    }
}

/// Which faces of the block at local `(x, y, z)` are exposed.
pub fn get_visibility(coords: (usize, usize, usize), chunk: &Chunk, neighbors: &Vec<Option<&Chunk>>) -> (r: BlockFaces)
    requires
        chunk.wf(),
        in_chunk(coords.0 as int, coords.1 as int, coords.2 as int),
        neighbors@.len() == 6,
        forall|f: int| 0 <= f < 6 ==> (#[trigger] neighbors@[f] matches Some(c) ==> c.wf()),
    ensures
        r.wf(),
        forall|f: int| 0 <= f < 6 ==> #[trigger] r.has(f) == face_open(
            chunk.blocks@,
            deref_chunk(neighbors@[f]),
            block_index(coords.0 as int, coords.1 as int, coords.2 as int),
            f,
        ),
{
    let (x, y, z) = coords;
    let ghost i = block_index(x as int, y as int, z as int);
    let mut visible_faces = BlockFaces::empty();
    let mut face: usize = 0;
    while face < 6
        invariant
            face <= 6,
            chunk.wf(),
            in_chunk(x as int, y as int, z as int),
            i == block_index(x as int, y as int, z as int),
            neighbors@.len() == 6,
            forall|f: int| 0 <= f < 6 ==> (#[trigger] neighbors@[f] matches Some(c) ==> c.wf()),
            visible_faces.wf(),
            forall|f: int| 0 <= f < face ==> #[trigger] visible_faces.has(f) == face_open(
                chunk.blocks@,
                deref_chunk(neighbors@[f]),
                i,
                f,
            ),
            forall|f: int| face <= f < 6 ==> !#[trigger] visible_faces.has(f),
        decreases 6 - face,
    {
        if face_is_open(chunk, neighbors, x, y, z, face) {
            visible_faces.insert(face as u8);
        }
        face = face + 1;
    }
    visible_faces
}

/// Render and collision buffers of one chunk, in integer units: positions in
/// blocks relative to the chunk's low corner, unit normals, texture-atlas
/// coordinates, and triangle indices into the vertex list.
pub struct ChunkMesh {
    pub positions: Vec<Int3>,
    pub normals: Vec<Int3>,
    pub uvs: Vec<AtlasUv>,
    pub indices: Vec<u32>,
}

/// The visible faces `(cell, face)` of cell `i`, among its first `n` faces.
pub open spec fn block_faces(w: Map<Int3, Chunk>, p: Int3, blocks: Seq<Block>, i: int, n: nat) -> Seq<(int, int)>
    decreases n,
{
    if n == 0 {
        Seq::empty()
    } else {
        let rest = block_faces(w, p, blocks, i, (n - 1) as nat);
        if solid(blocks[i]) && face_visible(w, p, blocks, i, n - 1) {
            rest.push((i, n - 1))
        } else {
            rest
        }
    }
}

/// The visible faces of the cells with index below `n`, in emission order.
pub open spec fn faces_upto(w: Map<Int3, Chunk>, p: Int3, blocks: Seq<Block>, n: nat) -> Seq<(int, int)>
    decreases n,
{
    if n == 0 {
        Seq::empty()
    } else {
        faces_upto(w, p, blocks, (n - 1) as nat) + block_faces(w, p, blocks, n - 1, 6)
    }
}

/// The faces emitted for the chunk at `p` of world `w`, in emission order:
/// by cell index, then by face number.
pub open spec fn chunk_faces(w: Map<Int3, Chunk>, p: Int3) -> Seq<(int, int)> {
    faces_upto(w, p, w[p].blocks@, CHUNK_VOLUME as nat)
}

/// The four vertex positions of face `f` of cell `i`.
pub open spec fn face_positions(i: int, f: int) -> Seq<Int3> {
    Seq::new(
        4,
        |j: int|
            Int3 {
                x: (face_corner(f, j).0 + cell_x(i)) as i32,
                y: (face_corner(f, j).1 + cell_y(i)) as i32,
                z: (face_corner(f, j).2 + cell_z(i)) as i32,
            },
    )
}

pub open spec fn face_normals(f: int) -> Seq<Int3> {
    Seq::new(4, |j: int| to_int3(face_dir(f)))
}

pub open spec fn face_uvs(t: BlockType) -> Seq<AtlasUv> {
    Seq::new(4, |j: int| texture_corner(t, j))
}

/// The six indices of the quad whose first vertex is vertex `base`.
pub open spec fn quad_indices(base: int) -> Seq<u32> {
    Seq::new(6, |j: int| (base + quad_pattern(j)) as u32)
}

pub open spec fn mesh_positions(faces: Seq<(int, int)>) -> Seq<Int3>
    decreases faces.len(),
{
    if faces.len() == 0 {
        Seq::empty()
    } else {
        mesh_positions(faces.drop_last()) + face_positions(faces.last().0, faces.last().1)
    }
}

pub open spec fn mesh_normals(faces: Seq<(int, int)>) -> Seq<Int3>
    decreases faces.len(),
{
    if faces.len() == 0 {
        Seq::empty()
    } else {
        mesh_normals(faces.drop_last()) + face_normals(faces.last().1)
    }
}

pub open spec fn mesh_uvs(blocks: Seq<Block>, faces: Seq<(int, int)>) -> Seq<AtlasUv>
    decreases faces.len(),
{
    if faces.len() == 0 {
        Seq::empty()
    } else {
        mesh_uvs(blocks, faces.drop_last()) + face_uvs(blocks[faces.last().0].block_type)
    }
}

/// Indices of `n` quads, quad `k` using vertices `4k .. 4k + 4`.
pub open spec fn mesh_indices(n: nat) -> Seq<u32>
    decreases n,
{
    if n == 0 {
        Seq::empty()
    } else {
        mesh_indices((n - 1) as nat) + quad_indices(4 * (n - 1) as int)
    }
}

/// `m` holds exactly the buffers of the faces `faces` of a chunk with blocks `blocks`.
pub open spec fn mesh_matches(m: ChunkMesh, blocks: Seq<Block>, faces: Seq<(int, int)>) -> bool {
    &&& m.positions@ == mesh_positions(faces)
    &&& m.normals@ == mesh_normals(faces)
    &&& m.uvs@ == mesh_uvs(blocks, faces)
    &&& m.indices@ == mesh_indices(faces.len())
}

/// `m` is the mesh of the chunk at `p` of world `w`.
pub open spec fn is_mesh_of(m: ChunkMesh, w: Map<Int3, Chunk>, p: Int3) -> bool {
    mesh_matches(m, w[p].blocks@, chunk_faces(w, p))
}

proof fn lemma_mesh_push(blocks: Seq<Block>, faces: Seq<(int, int)>, i: int, f: int)
    ensures
        mesh_positions(faces.push((i, f))) == mesh_positions(faces) + face_positions(i, f),
        mesh_normals(faces.push((i, f))) == mesh_normals(faces) + face_normals(f),
        mesh_uvs(blocks, faces.push((i, f))) == mesh_uvs(blocks, faces) + face_uvs(
            blocks[i].block_type,
        ),
        mesh_indices(faces.push((i, f)).len()) == mesh_indices(faces.len()) + quad_indices(
            4 * faces.len() as int,
        ),
{
    assert(faces.push((i, f)).drop_last() =~= faces);
}

proof fn lemma_no_faces_when_not_solid(w: Map<Int3, Chunk>, p: Int3, blocks: Seq<Block>, i: int, n: nat)
    requires
        !solid(blocks[i]),
    ensures
        block_faces(w, p, blocks, i, n) == Seq::<(int, int)>::empty(),
    decreases n,
{
    if n > 0 {
        lemma_no_faces_when_not_solid(w, p, blocks, i, (n - 1) as nat);
    }
}

/// Two-triangle index pattern of a quad.
pub fn quad_index(j: usize) -> (r: u32)
    requires
        j < 6,
    ensures
        r == quad_pattern(j as int),
{
    match j {
        0 => 0,
        1 => 1,
        2 => 2,
        3 => 0,
        4 => 2,
        _ => 3,
    }
}

impl ChunkMesh {
    /// A mesh with no faces.
    pub fn new() -> (r: Self)
        ensures
            r.positions@.len() == 0,
            r.normals@.len() == 0,
            r.uvs@.len() == 0,
            r.indices@.len() == 0,
    {
        ChunkMesh { positions: Vec::new(), normals: Vec::new(), uvs: Vec::new(), indices: Vec::new() }
    }

    /// Appends face `face` of the block at local `coords`, whose first vertex
    /// gets index `index_counter`.
    fn emit_face(&mut self, block: Block, coords: (usize, usize, usize), face: usize, index_counter: u32)
        requires
            in_chunk(coords.0 as int, coords.1 as int, coords.2 as int),
            face < 6,
            index_counter + 3 <= u32::MAX,
        ensures
            final(self).positions@ == old(self).positions@ + face_positions(
                block_index(coords.0 as int, coords.1 as int, coords.2 as int),
                face as int,
            ),
            final(self).normals@ == old(self).normals@ + face_normals(face as int),
            final(self).uvs@ == old(self).uvs@ + face_uvs(block.block_type),
            final(self).indices@ == old(self).indices@ + quad_indices(index_counter as int),
    {
        let ghost i = block_index(coords.0 as int, coords.1 as int, coords.2 as int);
        proof {
            crate::chunk::lemma_index_inverse(coords.0 as int, coords.1 as int, coords.2 as int);
        }
        let (x, y, z) = coords;
        let corners = face_vertices(face);
        offset_vertices(&corners, Int3 { x: x as i32, y: y as i32, z: z as i32 }, &mut self.positions);
        assert(self.positions@ =~= old(self).positions@ + face_positions(i, face as int));

        let normal = face_normal(face);
        let uvs = block.block_type.get_texture();
        let ghost normals0 = self.normals@;
        let ghost uvs0 = self.uvs@;
        let ghost positions1 = self.positions@;
        let ghost indices0 = self.indices@;
        let mut j: usize = 0;
        while j < 4
            invariant
                j <= 4,
                self.positions@ == positions1,
                self.indices@ == indices0,
                self.normals@ == normals0 + Seq::new(j as nat, |k: int| normal),
                self.uvs@ == uvs0 + Seq::new(j as nat, |k: int| uvs@[k]),
            decreases 4 - j,
        {
            self.normals.push(normal);
            self.uvs.push(uvs[j]);
            j = j + 1;
            assert(self.normals@ =~= normals0 + Seq::new(j as nat, |k: int| normal));
            assert(self.uvs@ =~= uvs0 + Seq::new(j as nat, |k: int| uvs@[k]));
        }
        assert(self.normals@ =~= old(self).normals@ + face_normals(face as int));
        assert(self.uvs@ =~= old(self).uvs@ + face_uvs(block.block_type));

        let ghost normals1 = self.normals@;
        let ghost uvs1 = self.uvs@;
        let mut j: usize = 0;
        while j < 6
            invariant
                j <= 6,
                self.positions@ == positions1,
                self.normals@ == normals1,
                self.uvs@ == uvs1,
                index_counter + 3 <= u32::MAX,
                self.indices@ == indices0 + Seq::new(
                    j as nat,
                    |k: int| (index_counter + quad_pattern(k)) as u32,
                ),
            decreases 6 - j,
        {
            self.indices.push(index_counter + quad_index(j));
            j = j + 1;
            assert(self.indices@ =~= indices0 + Seq::new(
                j as nat,
                |k: int| (index_counter + quad_pattern(k)) as u32,
            ));
        }
        assert(self.indices@ =~= old(self).indices@ + quad_indices(index_counter as int));
    }
}

/// Builds the mesh of the resident chunk at `chunk_position`: every exposed
/// face of every solid block, as four vertices, four normals, four texture
/// coordinates and two triangles.
pub fn build_mesh(chunk_position: Int3, world: &WorldChunks) -> (mesh: ChunkMesh)
    requires
        world.wf(),
        world@.contains_key(chunk_position),
    ensures
        is_mesh_of(mesh, world@, chunk_position),
{
    let chunk = match world.get(&chunk_position) {
        Some(c) => c,
        None => {
            return ChunkMesh::new();
        },
    };
    let neighbors = neighbor_chunks(world, chunk_position);
    let ghost w = world@;
    let ghost blocks = chunk.blocks@;
    let mut mesh = ChunkMesh::new();
    let mut index_counter: u32 = 0;
    let mut block_index: usize = 0;
    assert(mesh.positions@ =~= mesh_positions(faces_upto(w, chunk_position, blocks, 0)));
    assert(mesh.normals@ =~= mesh_normals(faces_upto(w, chunk_position, blocks, 0)));
    assert(mesh.uvs@ =~= mesh_uvs(blocks, faces_upto(w, chunk_position, blocks, 0)));
    assert(mesh.indices@ =~= mesh_indices(0));
    while block_index < CHUNK_VOLUME
        invariant
            block_index <= CHUNK_VOLUME,
            chunk.wf(),
            blocks == chunk.blocks@,
            neighbors_of(neighbors@, w, chunk_position),
            mesh_matches(mesh, blocks, faces_upto(w, chunk_position, blocks, block_index as nat)),
            faces_upto(w, chunk_position, blocks, block_index as nat).len() <= 6 * block_index,
            index_counter == 4 * faces_upto(w, chunk_position, blocks, block_index as nat).len(),
        decreases CHUNK_VOLUME - block_index,
    {
        let ghost done = faces_upto(w, chunk_position, blocks, block_index as nat);
        let block = chunk.blocks[block_index];
        if !block.is_solid() {
            proof {
                lemma_no_faces_when_not_solid(w, chunk_position, blocks, block_index as int, 6);
                assert(faces_upto(w, chunk_position, blocks, (block_index + 1) as nat) =~= done);
            }
        } else {
            let coords = get_coords(block_index);
            let visible_faces = get_visibility(coords, chunk, &neighbors);
            let mut face: usize = 0;
            while face < 6
                invariant
                    face <= 6,
                    block_index < CHUNK_VOLUME,
                    blocks == chunk.blocks@,
                    solid(block),
                    block == blocks[block_index as int],
                    in_chunk(coords.0 as int, coords.1 as int, coords.2 as int),
                    block_index == crate::chunk::block_index(coords.0 as int, coords.1 as int, coords.2 as int),
                    neighbors_of(neighbors@, w, chunk_position),
                    forall|f: int| 0 <= f < 6 ==> #[trigger] visible_faces.has(f) == face_open(
                        blocks,
                        deref_chunk(neighbors@[f]),
                        block_index as int,
                        f,
                    ),
                    done.len() <= 6 * block_index,
                    mesh_matches(mesh, blocks, done + block_faces(w, chunk_position, blocks, block_index as int, face as nat)),
                    done.len() + block_faces(w, chunk_position, blocks, block_index as int, face as nat).len() <= 6 * block_index + face,
                    index_counter == 4 * (done.len() + block_faces(w, chunk_position, blocks, block_index as int, face as nat).len()),
                decreases 6 - face,
            {
                let ghost cur = done + block_faces(w, chunk_position, blocks, block_index as int, face as nat);
                if visible_faces.contains(face as u8) {
                    mesh.emit_face(block, coords, face, index_counter);
                    proof {
                        lemma_mesh_push(blocks, cur, block_index as int, face as int);
                        assert(done + block_faces(w, chunk_position, blocks, block_index as int, (face + 1) as nat) =~= cur.push((block_index as int, face as int)));
                    }
                    index_counter = index_counter + 4;
                } else {
                    proof {
                        assert(done + block_faces(w, chunk_position, blocks, block_index as int, (face + 1) as nat) =~= cur);
                    }
                }
                face = face + 1;
            }
        }
        block_index = block_index + 1;
    }
    mesh
}

proof fn lemma_block_faces_members(w: Map<Int3, Chunk>, p: Int3, blocks: Seq<Block>, i: int, n: nat)
    requires
        n <= 6,
    ensures
        forall|k: int| 0 <= k < block_faces(w, p, blocks, i, n).len() ==> (#[trigger] block_faces(w, p, blocks, i, n)[k]).0 == i,
        forall|f: int|
            #[trigger] block_faces(w, p, blocks, i, n).contains((i, f)) <==> 0 <= f < n && solid(blocks[i])
                && face_visible(w, p, blocks, i, f),
    decreases n,
{
    if n > 0 {
        lemma_block_faces_members(w, p, blocks, i, (n - 1) as nat);
        let rest = block_faces(w, p, blocks, i, (n - 1) as nat);
        let all = block_faces(w, p, blocks, i, n);
        assert forall|f: int| #[trigger] all.contains((i, f)) <==> 0 <= f < n && solid(blocks[i])
            && face_visible(w, p, blocks, i, f) by {
            if all.contains((i, f)) && f != n - 1 {
                let k = choose|k: int| 0 <= k < all.len() && all[k] == (i, f);
                if k < rest.len() {
                    assert(rest[k] == (i, f));
                }
            }
            if rest.contains((i, f)) {
                let k = choose|k: int| 0 <= k < rest.len() && rest[k] == (i, f);
                assert(all[k] == (i, f));
            }
            if f == n - 1 && solid(blocks[i]) && face_visible(w, p, blocks, i, f) {
                assert(all[rest.len() as int] == (i, f));
            }
        }
    }
}

proof fn lemma_faces_upto_members(w: Map<Int3, Chunk>, p: Int3, blocks: Seq<Block>, n: nat)
    ensures
        forall|i: int, f: int|
            #[trigger] faces_upto(w, p, blocks, n).contains((i, f)) <==> 0 <= i < n && 0 <= f < 6 && solid(
                blocks[i],
            ) && face_visible(w, p, blocks, i, f),
    decreases n,
{
    if n > 0 {
        lemma_faces_upto_members(w, p, blocks, (n - 1) as nat);
        let i0 = n - 1;
        lemma_block_faces_members(w, p, blocks, i0, 6);
        let rest = faces_upto(w, p, blocks, (n - 1) as nat);
        let last = block_faces(w, p, blocks, i0, 6);
        let all = faces_upto(w, p, blocks, n);
        assert(all == rest + last);
        assert forall|i: int, f: int| #[trigger] all.contains((i, f)) <==> 0 <= i < n && 0 <= f < 6
            && solid(blocks[i]) && face_visible(w, p, blocks, i, f) by {
            if all.contains((i, f)) {
                let k = choose|k: int| 0 <= k < all.len() && all[k] == (i, f);
                if k < rest.len() {
                    assert(rest[k] == (i, f));
                    assert(rest.contains((i, f)));
                } else {
                    assert(last[k - rest.len()] == (i, f));
                    assert(last[k - rest.len()].0 == i0);
                    assert(last.contains((i0, f)));
                }
            }
            if 0 <= i < n && 0 <= f < 6 && solid(blocks[i]) && face_visible(w, p, blocks, i, f) {
                if i < n - 1 {
                    assert(rest.contains((i, f)));
                    let k = choose|k: int| 0 <= k < rest.len() && rest[k] == (i, f);
                    assert(all[k] == (i, f));
                } else {
                    assert(last.contains((i0, f)));
                    let k = choose|k: int| 0 <= k < last.len() && last[k] == (i, f);
                    assert(all[rest.len() + k] == (i, f));
                }
            }
        }
    }
}

/// Culling: the mesh of a chunk has a face `(i, f)` exactly when cell `i` is
/// solid and its face `f` is exposed.
pub proof fn lemma_chunk_faces_members(w: Map<Int3, Chunk>, p: Int3)
    ensures
        forall|i: int, f: int|
            #[trigger] chunk_faces(w, p).contains((i, f)) <==> 0 <= i < CHUNK_VOLUME && 0 <= f < 6
                && solid(w[p].blocks@[i]) && face_visible(w, p, w[p].blocks@, i, f),
{
    lemma_faces_upto_members(w, p, w[p].blocks@, CHUNK_VOLUME as nat);
}

/// No neighbour of the chunk at `p` that is resident holds a solid block.
pub open spec fn open_surroundings(w: Map<Int3, Chunk>, p: Int3) -> bool {
    forall|f: int| 0 <= f < 6 ==> match #[trigger] neighbor_chunk(w, p, f) {
        Some(n) => forall|k: int| 0 <= k < CHUNK_VOLUME ==> !solid(#[trigger] n.blocks@[k]),
        None => true,
    }
}

proof fn lemma_open_face(w: Map<Int3, Chunk>, p: Int3, i: int, f: int)
    requires
        open_surroundings(w, p),
        0 <= i < CHUNK_VOLUME,
        0 <= f < 6,
    ensures
        face_visible(w, p, w[p].blocks@, i, f) == {
            let (dx, dy, dz) = face_dir(f);
            let (nx, ny, nz) = (cell_x(i) + dx, cell_y(i) + dy, cell_z(i) + dz);
            !in_chunk(nx, ny, nz) || !solid(w[p].blocks@[block_index(nx, ny, nz)])
        },
{
    crate::chunk::lemma_coords_inverse(i);
    let (dx, dy, dz) = face_dir(f);
    let (nx, ny, nz) = (cell_x(i) + dx, cell_y(i) + dy, cell_z(i) + dz);
    if !in_chunk(nx, ny, nz) {
        match neighbor_chunk(w, p, f) {
            Some(n) => {
                let k = block_index(nx % 16, ny % 16, nz % 16);
                assert(0 <= nx % 16 < 16 && 0 <= ny % 16 < 16 && 0 <= nz % 16 < 16);
                crate::chunk::lemma_index_inverse(nx % 16, ny % 16, nz % 16);
                assert(!solid(n.blocks@[k]));
            },
            None => {},
        }
    }
}

/// For a chunk whose neighbours are absent or hold only air, a face of a
/// solid block is emitted exactly when the cell across it is outside the
/// chunk or is air.
pub proof fn lemma_open_surroundings_faces(w: Map<Int3, Chunk>, p: Int3)
    requires
        open_surroundings(w, p),
    ensures
        forall|i: int, f: int|
            #[trigger] chunk_faces(w, p).contains((i, f)) <==> 0 <= i < CHUNK_VOLUME && 0 <= f < 6
                && solid(w[p].blocks@[i]) && {
                let (dx, dy, dz) = face_dir(f);
                let (nx, ny, nz) = (cell_x(i) + dx, cell_y(i) + dy, cell_z(i) + dz);
                !in_chunk(nx, ny, nz) || !solid(w[p].blocks@[block_index(nx, ny, nz)])
            },
{
    lemma_chunk_faces_members(w, p);
    assert forall|i: int, f: int| 0 <= i < CHUNK_VOLUME && 0 <= f < 6 implies #[trigger] face_visible(
        w,
        p,
        w[p].blocks@,
        i,
        f,
    ) == {
        let (dx, dy, dz) = face_dir(f);
        let (nx, ny, nz) = (cell_x(i) + dx, cell_y(i) + dy, cell_z(i) + dz);
        !in_chunk(nx, ny, nz) || !solid(w[p].blocks@[block_index(nx, ny, nz)])
    } by {
        lemma_open_face(w, p, i, f);
    }
}

proof fn lemma_mesh_lengths(blocks: Seq<Block>, faces: Seq<(int, int)>)
    ensures
        mesh_positions(faces).len() == 4 * faces.len(),
        mesh_normals(faces).len() == 4 * faces.len(),
        mesh_uvs(blocks, faces).len() == 4 * faces.len(),
        mesh_indices(faces.len()).len() == 6 * faces.len(),
    decreases faces.len(),
{
    if faces.len() > 0 {
        lemma_mesh_lengths(blocks, faces.drop_last());
        assert(mesh_indices(faces.len()) == mesh_indices(faces.drop_last().len()) + quad_indices(
            4 * faces.drop_last().len() as int,
        ));
    }
}

/// The mesh of `faces` has four vertices, normals and texture coordinates and
/// six indices per face.
pub proof fn lemma_mesh_sizes(m: ChunkMesh, blocks: Seq<Block>, faces: Seq<(int, int)>)
    requires
        mesh_matches(m, blocks, faces),
    ensures
        m.positions@.len() == 4 * faces.len(),
        m.normals@.len() == 4 * faces.len(),
        m.uvs@.len() == 4 * faces.len(),
        m.indices@.len() == 6 * faces.len(),
        m.indices@.len() % 3 == 0,
        forall|k: int| 0 <= k < m.indices@.len() ==> (#[trigger] m.indices@[k]) < m.positions@.len(),
{
    lemma_mesh_lengths(blocks, faces);
    lemma_indices_in_range(faces.len());
}

proof fn lemma_indices_in_range(n: nat)
    ensures
        mesh_indices(n).len() == 6 * n,
        forall|k: int| 0 <= k < mesh_indices(n).len() ==> (#[trigger] mesh_indices(n)[k]) < 4 * n,
    decreases n,
{
    if n > 0 {
        lemma_indices_in_range((n - 1) as nat);
        let rest = mesh_indices((n - 1) as nat);
        let all = mesh_indices(n);
        assert forall|k: int| 0 <= k < all.len() implies (#[trigger] all[k]) < 4 * n by {
            if k < rest.len() {
                assert(all[k] == rest[k]);
            } else {
                let j = k - rest.len();
                assert(all[k] == quad_indices(4 * (n - 1) as int)[j]);
            }
        }
    }
}

/// Rebuilding the mesh of an unchanged world gives identical buffers.
pub proof fn lemma_rebuild_identical(m1: ChunkMesh, m2: ChunkMesh, w: Map<Int3, Chunk>, p: Int3)
    requires
        is_mesh_of(m1, w, p),
        is_mesh_of(m2, w, p),
    ensures
        m1.positions@ == m2.positions@,
        m1.normals@ == m2.normals@,
        m1.uvs@ == m2.uvs@,
        m1.indices@ == m2.indices@,
{
}

proof fn lemma_all_faces(w: Map<Int3, Chunk>, p: Int3, blocks: Seq<Block>, i: int, n: nat)
    requires
        n <= 6,
        solid(blocks[i]),
        forall|f: int| 0 <= f < 6 ==> #[trigger] face_visible(w, p, blocks, i, f),
    ensures
        block_faces(w, p, blocks, i, n) == Seq::new(n, |f: int| (i, f)),
    decreases n,
{
    if n > 0 {
        lemma_all_faces(w, p, blocks, i, (n - 1) as nat);
        assert(face_visible(w, p, blocks, i, n - 1));
        assert(block_faces(w, p, blocks, i, n) =~= Seq::new(n, |f: int| (i, f)));
    }
}

proof fn lemma_single_block_prefix(w: Map<Int3, Chunk>, p: Int3, blocks: Seq<Block>, i: int, n: nat)
    requires
        0 <= i,
        forall|k: int| 0 <= k < n && k != i ==> !solid(#[trigger] blocks[k]),
    ensures
        faces_upto(w, p, blocks, n) == if n <= i {
            Seq::<(int, int)>::empty()
        } else {
            block_faces(w, p, blocks, i, 6)
        },
    decreases n,
{
    if n > 0 {
        lemma_single_block_prefix(w, p, blocks, i, (n - 1) as nat);
        if n - 1 != i {
            lemma_no_faces_when_not_solid(w, p, blocks, n - 1, 6);
        }
        assert(faces_upto(w, p, blocks, n) =~= if n <= i {
            Seq::<(int, int)>::empty()
        } else {
            block_faces(w, p, blocks, i, 6)
        });
    }
}

/// A single solid block in a chunk whose neighbours are absent or hold only
/// air emits all six of its faces and nothing else: 24 vertices, 24
/// normals, 24 texture coordinates and 36 indices.
pub proof fn lemma_isolated_block(w: Map<Int3, Chunk>, p: Int3, i: int, m: ChunkMesh)
    requires
        w.contains_key(p),
        w[p].wf(),
        0 <= i < CHUNK_VOLUME,
        solid(w[p].blocks@[i]),
        forall|k: int| 0 <= k < CHUNK_VOLUME && k != i ==> !solid(#[trigger] w[p].blocks@[k]),
        open_surroundings(w, p),
        is_mesh_of(m, w, p),
    ensures
        chunk_faces(w, p) == Seq::new(6, |f: int| (i, f)),
        m.positions@.len() == 24,
        m.normals@.len() == 24,
        m.uvs@.len() == 24,
        m.indices@.len() == 36,
{
    let blocks = w[p].blocks@;
    assert forall|f: int| 0 <= f < 6 implies #[trigger] face_visible(w, p, blocks, i, f) by {
        lemma_open_face(w, p, i, f);
        crate::chunk::lemma_coords_inverse(i);
        let (dx, dy, dz) = face_dir(f);
        let (nx, ny, nz) = (cell_x(i) + dx, cell_y(i) + dy, cell_z(i) + dz);
        if in_chunk(nx, ny, nz) {
            crate::chunk::lemma_index_inverse(nx, ny, nz);
            assert(block_index(nx, ny, nz) != i);
        }
    }
    lemma_all_faces(w, p, blocks, i, 6);
    lemma_single_block_prefix(w, p, blocks, i, CHUNK_VOLUME as nat);
    lemma_mesh_sizes(m, blocks, chunk_faces(w, p));
}

proof fn lemma_faces_upto_local(
    w1: Map<Int3, Chunk>,
    w2: Map<Int3, Chunk>,
    p: Int3,
    blocks: Seq<Block>,
    n: nat,
)
    requires
        forall|f: int| 0 <= f < 6 ==> #[trigger] neighbor_chunk(w1, p, f) == neighbor_chunk(w2, p, f),
    ensures
        faces_upto(w1, p, blocks, n) == faces_upto(w2, p, blocks, n),
    decreases n,
{
    if n > 0 {
        lemma_faces_upto_local(w1, w2, p, blocks, (n - 1) as nat);
        lemma_block_faces_local(w1, w2, p, blocks, n - 1, 6);
    }
}

proof fn lemma_block_faces_local(
    w1: Map<Int3, Chunk>,
    w2: Map<Int3, Chunk>,
    p: Int3,
    blocks: Seq<Block>,
    i: int,
    n: nat,
)
    requires
        n <= 6,
        forall|f: int| 0 <= f < 6 ==> #[trigger] neighbor_chunk(w1, p, f) == neighbor_chunk(w2, p, f),
    ensures
        block_faces(w1, p, blocks, i, n) == block_faces(w2, p, blocks, i, n),
    decreases n,
{
    if n > 0 {
        lemma_block_faces_local(w1, w2, p, blocks, i, (n - 1) as nat);
        assert(neighbor_chunk(w1, p, n - 1) == neighbor_chunk(w2, p, n - 1));
    }
}

/// The mesh of a chunk depends only on its own blocks and on its six
/// neighbours: two worlds that agree on those give it the same faces.
pub proof fn lemma_mesh_locality(w1: Map<Int3, Chunk>, w2: Map<Int3, Chunk>, p: Int3)
    requires
        w1.contains_key(p),
        w2.contains_key(p),
        w1[p] == w2[p],
        forall|f: int| 0 <= f < 6 ==> #[trigger] neighbor_chunk(w1, p, f) == neighbor_chunk(w2, p, f),
    ensures
        chunk_faces(w1, p) == chunk_faces(w2, p),
{
    lemma_faces_upto_local(w1, w2, p, w1[p].blocks@, CHUNK_VOLUME as nat);
}

/// Making chunk `p` resident, or changing it, leaves the mesh of every other
/// resident chunk that is not adjacent to `p` unchanged; only the neighbours
/// need their meshes rebuilt.
pub proof fn lemma_change_affects_only_neighbors(w: Map<Int3, Chunk>, p: Int3, c: Chunk, q: Int3)
    requires
        w.contains_key(q),
        q != p,
        forall|f: int| 0 <= f < 6 ==> !(fits_i32(#[trigger] neighbor_coord(q, f)) && to_int3(neighbor_coord(q, f)) == p),
    ensures
        chunk_faces(w.insert(p, c), q) == chunk_faces(w, q),
{
    let w2 = w.insert(p, c);
    assert forall|f: int| 0 <= f < 6 implies #[trigger] neighbor_chunk(w2, q, f) == neighbor_chunk(w, q, f) by {
        let n = neighbor_coord(q, f);
        if fits_i32(n) {
            assert(to_int3(n) != p);
        }
    }
    lemma_mesh_locality(w2, w, q);
}

} // verus!
