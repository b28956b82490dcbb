use vstd::prelude::*;

use crate::block::BlockData;
use crate::chunk::{spec_index, ChunkData, CHUNK_VOLUME};
use crate::coords::{BlockPos, ChunkPos, CHUNK_SIZE_INT};
use crate::registry::{catalog_data, BlockRegistry};
use crate::static_block_data::{AtlasCoordinates, BlockFace};
use crate::world::ExcavateManufacturateWorld;

verus! {

/// Most quads one chunk can yield: six per cell.
pub const MAX_CHUNK_QUADS: usize = 196608;

/// The six faces of a cell, in the order in which meshing visits them.
#[derive(Clone, Copy, PartialEq, Eq, Structural, Debug)]
pub enum FaceDirection {
    PosZ,
    NegZ,
    PosY,
    NegY,
    PosX,
    NegX,
}

/// The `k`-th face direction in meshing order.
pub open spec fn direction_at(k: int) -> FaceDirection {
    if k == 0 {
        FaceDirection::PosZ
    } else if k == 1 {
        FaceDirection::NegZ
    } else if k == 2 {
        FaceDirection::PosY
    } else if k == 3 {
        FaceDirection::NegY
    } else if k == 4 {
        FaceDirection::PosX
    } else {
        FaceDirection::NegX
    }
}

fn direction(k: usize) -> (r: FaceDirection)
    requires
        k < 6,
    ensures
        r == direction_at(k as int),
{
    if k == 0 {
        FaceDirection::PosZ
    } else if k == 1 {
        FaceDirection::NegZ
    } else if k == 2 {
        FaceDirection::PosY
    } else if k == 3 {
        FaceDirection::NegY
    } else if k == 4 {
        FaceDirection::PosX
    } else {
        FaceDirection::NegX
    }
}

impl FaceDirection {
    /// The unit step towards the neighbouring cell; also the face's outward normal.
    pub open spec fn spec_step(self) -> (i32, i32, i32) {
        match self {
            FaceDirection::PosZ => (0, 0, 1),
            FaceDirection::NegZ => (0, 0, -1i32),
            FaceDirection::PosY => (0, 1, 0),
            FaceDirection::NegY => (0, -1i32, 0),
            FaceDirection::PosX => (1, 0, 0),
            FaceDirection::NegX => (-1i32, 0, 0),
        }
    }

    pub fn step(self) -> (r: (i32, i32, i32))
        ensures
            r == self.spec_step(),
    {
        match self {
            FaceDirection::PosZ => (0, 0, 1),
            FaceDirection::NegZ => (0, 0, -1),
            FaceDirection::PosY => (0, 1, 0),
            FaceDirection::NegY => (0, -1, 0),
            FaceDirection::PosX => (1, 0, 0),
            FaceDirection::NegX => (-1, 0, 0),
        }
    }

    /// Which texture region the face shows.
    pub open spec fn spec_face_class(self) -> BlockFace {
        match self {
            FaceDirection::PosY => BlockFace::Top,
            FaceDirection::NegY => BlockFace::Bottom,
            _ => BlockFace::Side,
        }
    }

    pub fn face_class(self) -> (r: BlockFace)
        ensures
            r == self.spec_face_class(),
    {
        match self {
            FaceDirection::PosY => BlockFace::Top,
            FaceDirection::NegY => BlockFace::Bottom,
            _ => BlockFace::Side,
        }
    }

    /// Corner `j` of the unit cell's face, relative to the cell's lowest corner.
    pub open spec fn spec_corner(self, j: int) -> (i32, i32, i32) {
        match self {
            FaceDirection::PosZ => if j == 0 {
                (0, 0, 1)
            } else if j == 1 {
                (0, 1, 1)
            } else if j == 2 {
                (1, 0, 1)
            } else {
                (1, 1, 1)
            },
            FaceDirection::NegZ => if j == 0 {
                (1, 0, 0)
            } else if j == 1 {
                (1, 1, 0)
            } else if j == 2 {
                (0, 0, 0)
            } else {
                (0, 1, 0)
            },
            FaceDirection::PosY => if j == 0 {
                (0, 1, 1)
            } else if j == 1 {
                (0, 1, 0)
            } else if j == 2 {
                (1, 1, 1)
            } else {
                (1, 1, 0)
            },
            FaceDirection::NegY => if j == 0 {
                (0, 0, 0)
            } else if j == 1 {
                (0, 0, 1)
            } else if j == 2 {
                (1, 0, 0)
            } else {
                (1, 0, 1)
            },
            FaceDirection::PosX => if j == 0 {
                (1, 0, 1)
            } else if j == 1 {
                (1, 1, 1)
            } else if j == 2 {
                (1, 0, 0)
            } else {
                (1, 1, 0)
            },
            FaceDirection::NegX => if j == 0 {
                (0, 0, 0)
            } else if j == 1 {
                (0, 1, 0)
            } else if j == 2 {
                (0, 0, 1)
            } else {
                (0, 1, 1)
            },
        }
    }

    pub fn corner(self, j: usize) -> (r: (i32, i32, i32))
        requires
            j < 4,
        ensures
            r == self.spec_corner(j as int),
    {
        match self {
            FaceDirection::PosZ => if j == 0 {
                (0, 0, 1)
            } else if j == 1 {
                (0, 1, 1)
            } else if j == 2 {
                (1, 0, 1)
            } else {
                (1, 1, 1)
            },
            FaceDirection::NegZ => if j == 0 {
                (1, 0, 0)
            } else if j == 1 {
                (1, 1, 0)
            } else if j == 2 {
                (0, 0, 0)
            } else {
                (0, 1, 0)
            },
            FaceDirection::PosY => if j == 0 {
                (0, 1, 1)
            } else if j == 1 {
                (0, 1, 0)
            } else if j == 2 {
                (1, 1, 1)
            } else {
                (1, 1, 0)
            },
            FaceDirection::NegY => if j == 0 {
                (0, 0, 0)
            } else if j == 1 {
                (0, 0, 1)
            } else if j == 2 {
                (1, 0, 0)
            } else {
                (1, 0, 1)
            },
            FaceDirection::PosX => if j == 0 {
                (1, 0, 1)
            } else if j == 1 {
                (1, 1, 1)
            } else if j == 2 {
                (1, 0, 0)
            } else {
                (1, 1, 0)
            },
            FaceDirection::NegX => if j == 0 {
                (0, 0, 0)
            } else if j == 1 {
                (0, 1, 0)
            } else if j == 2 {
                (0, 0, 1)
            } else {
                (0, 1, 1)
            },
        }
    }

    /// Which edge of the texture region corner `j` takes, per axis: `true`
    /// for the region's maximum, `false` for its minimum.
    pub open spec fn spec_uv_corner(self, j: int) -> (bool, bool) {
        match self {
            FaceDirection::PosZ => if j == 0 {
                (true, true)
            } else if j == 1 {
                (true, false)
            } else if j == 2 {
                (false, true)
            } else {
                (false, false)
            },
            FaceDirection::NegZ => if j == 0 {
                (false, true)
            } else if j == 1 {
                (false, false)
            } else if j == 2 {
                (true, true)
            } else {
                (true, false)
            },
            FaceDirection::PosY => if j == 0 {
                (true, false)
            } else if j == 1 {
                (true, true)
            } else if j == 2 {
                (false, false)
            } else {
                (false, true)
            },
            FaceDirection::NegY => if j == 0 {
                (true, true)
            } else if j == 1 {
                (true, false)
            } else if j == 2 {
                (false, true)
            } else {
                (false, false)
            },
            FaceDirection::PosX => if j == 0 {
                (false, true)
            } else if j == 1 {
                (false, false)
            } else if j == 2 {
                (true, true)
            } else {
                (true, false)
            },
            FaceDirection::NegX => if j == 0 {
                (true, true)
            } else if j == 1 {
                (true, false)
            } else if j == 2 {
                (false, true)
            } else {
                (false, false)
            },
        }
    }

    pub fn uv_corner(self, j: usize) -> (r: (bool, bool))
        requires
            j < 4,
        ensures
            r == self.spec_uv_corner(j as int),
    {
        match self {
            FaceDirection::PosZ => if j == 0 {
                (true, true)
            } else if j == 1 {
                (true, false)
            } else if j == 2 {
                (false, true)
            } else {
                (false, false)
            },
            FaceDirection::NegZ => if j == 0 {
                (false, true)
            } else if j == 1 {
                (false, false)
            } else if j == 2 {
                (true, true)
            } else {
                (true, false)
            },
            FaceDirection::PosY => if j == 0 {
                (true, false)
            } else if j == 1 {
                (true, true)
            } else if j == 2 {
                (false, false)
            } else {
                (false, true)
            },
            FaceDirection::NegY => if j == 0 {
                (true, true)
            } else if j == 1 {
                (true, false)
            } else if j == 2 {
                (false, true)
            } else {
                (false, false)
            },
            FaceDirection::PosX => if j == 0 {
                (false, true)
            } else if j == 1 {
                (false, false)
            } else if j == 2 {
                (true, true)
            } else {
                (true, false)
            },
            FaceDirection::NegX => if j == 0 {
                (true, true)
            } else if j == 1 {
                (true, false)
            } else if j == 2 {
                (false, true)
            } else {
                (false, false)
            },
        }
    }
}

/// One emitted face: its direction, the in-chunk offset of its cell, and the
/// atlas region it shows.
#[derive(Clone, Copy, Debug)]
pub struct Quad {
    pub direction: FaceDirection,
    pub offset: BlockPos,
    pub atlas: AtlasCoordinates,
}

/// Vertex `j` of a quad: the face's template corner moved to the quad's cell.
pub open spec fn quad_vertex(q: Quad, j: int) -> (i32, i32, i32) {
    let c = q.direction.spec_corner(j);
    ((c.0 + q.offset.x) as i32, (c.1 + q.offset.y) as i32, (c.2 + q.offset.z) as i32)
}

/// Texel coordinates of vertex `j` of a quad, inside its atlas region.
pub open spec fn quad_uv(q: Quad, j: int) -> (u16, u16) {
    let e = q.direction.spec_uv_corner(j);
    (
        if e.0 {
            q.atlas.max.0
        } else {
            q.atlas.min.0
        },
        if e.1 {
            q.atlas.max.1
        } else {
            q.atlas.min.1
        },
    )
}

/// The two triangles of a quad whose first vertex is `start`.
pub open spec fn spec_face_indices(start: int) -> Seq<u32> {
    seq![
        start as u32,
        (start + 2) as u32,
        (start + 1) as u32,
        (start + 2) as u32,
        (start + 3) as u32,
        (start + 1) as u32,
    ]
}

/// Four vertex positions per quad, in quad order.
pub open spec fn vertices_of(qs: Seq<Quad>) -> Seq<(i32, i32, i32)>
    decreases qs.len(),
{
    if qs.len() == 0 {
        seq![]
    } else {
        let q = qs.last();
        vertices_of(qs.drop_last()) + seq![
            quad_vertex(q, 0),
            quad_vertex(q, 1),
            quad_vertex(q, 2),
            quad_vertex(q, 3),
        ]
    }
}

/// Four normals per quad, each the face's direction.
pub open spec fn normals_of(qs: Seq<Quad>) -> Seq<(i32, i32, i32)>
    decreases qs.len(),
{
    if qs.len() == 0 {
        seq![]
    } else {
        let n = qs.last().direction.spec_step();
        normals_of(qs.drop_last()) + seq![n, n, n, n]
    }
}

/// Four texel coordinates per quad.
pub open spec fn uvs_of(qs: Seq<Quad>) -> Seq<(u16, u16)>
    decreases qs.len(),
{
    if qs.len() == 0 {
        seq![]
    } else {
        let q = qs.last();
        uvs_of(qs.drop_last()) + seq![quad_uv(q, 0), quad_uv(q, 1), quad_uv(q, 2), quad_uv(q, 3)]
    }
}

/// Six triangle indices per quad, pointing at that quad's four vertices.
pub open spec fn indices_of(qs: Seq<Quad>) -> Seq<u32>
    decreases qs.len(),
{
    if qs.len() == 0 {
        seq![]
    } else {
        indices_of(qs.drop_last()) + spec_face_indices(4 * (qs.len() - 1))
    }
}

proof fn lemma_mesh_lengths(qs: Seq<Quad>)
    ensures
        vertices_of(qs).len() == 4 * qs.len(),
        normals_of(qs).len() == 4 * qs.len(),
        uvs_of(qs).len() == 4 * qs.len(),
        indices_of(qs).len() == 6 * qs.len(),
    decreases qs.len(),
{
    if qs.len() > 0 {
        lemma_mesh_lengths(qs.drop_last());
    }
}

/// Triangle soup of one chunk, in block and texel units: positions relative
/// to the chunk's origin, unit normals, atlas texel coordinates and indices.
pub struct ChunkMesh {
    pub vertices: Vec<(i32, i32, i32)>,
    pub normals: Vec<(i32, i32, i32)>,
    pub uvs: Vec<(u16, u16)>,
    pub indices: Vec<u32>,
}

impl ChunkMesh {
    /// The buffers are exactly those of the quads `qs`.
    pub open spec fn holds(&self, qs: Seq<Quad>) -> bool {
        &&& self.vertices@ == vertices_of(qs)
        &&& self.normals@ == normals_of(qs)
        &&& self.uvs@ == uvs_of(qs)
        &&& self.indices@ == indices_of(qs)
    }
}

/// Collects quads into vertex, normal, texel and index buffers.
pub struct ChunkMeshBuilder {
    vertices: Vec<(i32, i32, i32)>,
    normals: Vec<(i32, i32, i32)>,
    uvs: Vec<(u16, u16)>,
    indices: Vec<u32>,
    quads: Ghost<Seq<Quad>>,
}

impl ChunkMeshBuilder {
    /// The quads added so far.
    pub closed spec fn quads(&self) -> Seq<Quad> {
        self.quads@
    }

    /// The buffers hold exactly the quads added so far, and no more than a chunk's worth.
    pub closed spec fn wf(&self) -> bool {
        &&& self.quads@.len() <= MAX_CHUNK_QUADS
        &&& self.vertices@ == vertices_of(self.quads@)
        &&& self.normals@ == normals_of(self.quads@)
        &&& self.uvs@ == uvs_of(self.quads@)
        &&& self.indices@ == indices_of(self.quads@)
    }

    pub fn new() -> (r: ChunkMeshBuilder)
        ensures
            r.wf(),
            r.quads() == Seq::<Quad>::empty(),
    {
        ChunkMeshBuilder {
            vertices: Vec::new(),
            normals: Vec::new(),
            uvs: Vec::new(),
            indices: Vec::new(),
            quads: Ghost(Seq::empty()),
        }
    }

    /// The six indices of the quad whose first vertex is `starting_index`.
    fn get_face_indices(starting_index: u32) -> (r: [u32; 6])
        requires
            starting_index + 3 <= u32::MAX,
        ensures
            r@ == spec_face_indices(starting_index as int),
    {
        let r = [
            starting_index,
            starting_index + 2,
            starting_index + 1,
            starting_index + 2,
            starting_index + 3,
            starting_index + 1,
        ];
        assert(r@ =~= spec_face_indices(starting_index as int));
        r
    }

    /// Texel coordinates of corner `j` of a face in `direction`, inside `atlas_coords`.
    fn transform_uv(direction: FaceDirection, j: usize, atlas_coords: AtlasCoordinates) -> (r: (
        u16,
        u16,
    ))
        requires
            j < 4,
        ensures
            r == quad_uv(Quad { direction, offset: BlockPos { x: 0, y: 0, z: 0 }, atlas: atlas_coords }, j as int),
    {
        let e = direction.uv_corner(j);
        (
            if e.0 {
                atlas_coords.max.0
            } else {
                atlas_coords.min.0
            },
            if e.1 {
                atlas_coords.max.1
            } else {
                atlas_coords.min.1
            },
        )
    }

    /// Appends the face of cell `offset` that looks in `direction`, textured with `atlas_coords`.
    pub fn add_face(&mut self, direction: FaceDirection, offset: BlockPos, atlas_coords: AtlasCoordinates)
        requires
            old(self).wf(),
            old(self).quads().len() < MAX_CHUNK_QUADS,
            offset.is_chunk_offset(),
        ensures
            final(self).wf(),
            final(self).quads() == old(self).quads().push(
                Quad { direction, offset, atlas: atlas_coords },
            ),
    {
        let ghost q = Quad { direction, offset, atlas: atlas_coords };
        let ghost qs = self.quads@.push(q);
        proof {
            lemma_mesh_lengths(self.quads@);
            assert(qs.drop_last() =~= self.quads@);
        }
        let starting_index = self.vertices.len();
        let normal = direction.step();
        let mut j: usize = 0;
        while j < 4
            invariant
                j <= 4,
                starting_index == vertices_of(self.quads@).len(),
                self.vertices@ == vertices_of(self.quads@) + Seq::new(j as nat, |i: int| quad_vertex(q, i)),
                self.normals@ == normals_of(self.quads@) + Seq::new(j as nat, |i: int| normal),
                self.uvs@ == uvs_of(self.quads@) + Seq::new(j as nat, |i: int| quad_uv(q, i)),
                normal == direction.spec_step(),
                q == (Quad { direction, offset, atlas: atlas_coords }),
                offset.is_chunk_offset(),
                self.quads@.len() < MAX_CHUNK_QUADS,
                self.indices@ == indices_of(self.quads@),
                qs == self.quads@.push(q),
            decreases 4 - j,
        {
            let c = direction.corner(j);
            self.vertices.push((c.0 + offset.x, c.1 + offset.y, c.2 + offset.z));
            self.normals.push(normal);
            self.uvs.push(ChunkMeshBuilder::transform_uv(direction, j, atlas_coords));
            proof {
                assert(self.vertices@ =~= vertices_of(self.quads@) + Seq::new((j + 1) as nat, |i: int| quad_vertex(q, i)));
                assert(self.normals@ =~= normals_of(self.quads@) + Seq::new((j + 1) as nat, |i: int| normal));
                assert(self.uvs@ =~= uvs_of(self.quads@) + Seq::new((j + 1) as nat, |i: int| quad_uv(q, i)));
            }
            j = j + 1;
        }
        assert(starting_index + 3 <= u32::MAX) by {
            lemma_mesh_lengths(self.quads@);
        }
        let face_indices = ChunkMeshBuilder::get_face_indices(starting_index as u32);
        assert(self.indices@ =~= indices_of(self.quads@) + face_indices@.take(0));
        let mut m: usize = 0;
        while m < 6
            invariant
                m <= 6,
                face_indices@ == spec_face_indices(starting_index as int),
                self.indices@ == indices_of(self.quads@) + face_indices@.take(m as int),
                self.vertices@ == vertices_of(self.quads@) + Seq::new(4, |i: int| quad_vertex(q, i)),
                self.normals@ == normals_of(self.quads@) + Seq::new(4, |i: int| normal),
                self.uvs@ == uvs_of(self.quads@) + Seq::new(4, |i: int| quad_uv(q, i)),
                normal == direction.spec_step(),
                q == (Quad { direction, offset, atlas: atlas_coords }),
                qs == self.quads@.push(q),
            decreases 6 - m,
        {
            self.indices.push(face_indices[m]);
            proof {
                assert(face_indices@.take(m + 1) =~= face_indices@.take(m as int).push(face_indices@[m as int]));
            }
            m = m + 1;
        }
        proof {
            assert(face_indices@.take(6) =~= face_indices@);
            assert(qs.last() == q);
            assert(Seq::new(4, |i: int| quad_vertex(q, i)) =~= seq![
                quad_vertex(q, 0),
                quad_vertex(q, 1),
                quad_vertex(q, 2),
                quad_vertex(q, 3),
            ]);
            assert(Seq::new(4, |i: int| normal) =~= seq![normal, normal, normal, normal]);
            assert(qs.drop_last() =~= self.quads@);
            assert(vertices_of(qs) == vertices_of(self.quads@) + seq![
                quad_vertex(q, 0),
                quad_vertex(q, 1),
                quad_vertex(q, 2),
                quad_vertex(q, 3),
            ]);
            assert(normals_of(qs) == normals_of(self.quads@) + seq![normal, normal, normal, normal]);
            assert(self.vertices@ =~= vertices_of(qs));
            assert(self.normals@ =~= normals_of(qs));
            assert(self.uvs@ =~= uvs_of(qs));
            assert(self.indices@ =~= indices_of(qs));
        }
        self.quads = Ghost(qs);
    }

    /// The buffers built so far.
    pub fn into_mesh(self) -> (r: ChunkMesh)
        requires
            self.wf(),
        ensures
            r.holds(self.quads()),
    {
        ChunkMesh {
            vertices: self.vertices,
            normals: self.normals,
            uvs: self.uvs,
            indices: self.indices,
        }
    }
}

/// Whether an integer lies in `i32`'s range.
pub open spec fn fits_i32(v: int) -> bool {
    i32::MIN <= v <= i32::MAX
}

/// The occlusion rule: the face of cell `o` (of the chunk at `chunk_pos` with
/// cells `cells`) towards `d` is drawn when the neighbouring cell is empty. A
/// neighbour inside the chunk is read from `cells`; one outside is read from
/// `world`, where a missing chunk, or a position beyond `i32`, counts as empty.
pub open spec fn face_visible(
    cells: Seq<BlockData>,
    world: ExcavateManufacturateWorld,
    chunk_pos: ChunkPos,
    o: BlockPos,
    d: FaceDirection,
) -> bool {
    let nx = o.x + d.spec_step().0;
    let ny = o.y + d.spec_step().1;
    let nz = o.z + d.spec_step().2;
    let n = BlockPos { x: nx as i32, y: ny as i32, z: nz as i32 };
    if n.is_chunk_offset() {
        !cells[spec_index(n)].spec_is_some()
    } else {
        let wx = chunk_pos.x * CHUNK_SIZE_INT + nx;
        let wy = chunk_pos.y * CHUNK_SIZE_INT + ny;
        let wz = chunk_pos.z * CHUNK_SIZE_INT + nz;
        !(fits_i32(wx) && fits_i32(wy) && fits_i32(wz) && world.spec_is_occupied(
            BlockPos { x: wx as i32, y: wy as i32, z: wz as i32 },
        ))
    }
}

/// The quads of cell `o` among its first `k` face directions: none for air;
/// for a block, each visible face with the block type's region for that face.
pub open spec fn cell_quads(
    cells: Seq<BlockData>,
    world: ExcavateManufacturateWorld,
    chunk_pos: ChunkPos,
    o: BlockPos,
    k: int,
) -> Seq<Quad>
    decreases k,
{
    if k <= 0 {
        seq![]
    } else {
        let d = direction_at(k - 1);
        cell_quads(cells, world, chunk_pos, o, k - 1) + match cells[spec_index(o)].0 {
            Some(b) => if face_visible(cells, world, chunk_pos, o, d) {
                seq![
                    Quad {
                        direction: d,
                        offset: o,
                        atlas: catalog_data(b.id.index() as int).textures.spec_coords(
                            d.spec_face_class(),
                        ),
                    },
                ]
            } else {
                seq![]
            },
            None => seq![],
        }
    }
}

/// The `n`-th cell that meshing visits: x varies slowest, z fastest.
pub open spec fn mesh_cell(n: int) -> BlockPos {
    BlockPos { x: (n / 1024) as i32, y: ((n / 32) % 32) as i32, z: (n % 32) as i32 }
}

/// The quads of the first `n` cells in meshing order.
pub open spec fn chunk_quads(
    cells: Seq<BlockData>,
    world: ExcavateManufacturateWorld,
    chunk_pos: ChunkPos,
    n: int,
) -> Seq<Quad>
    decreases n,
{
    if n <= 0 {
        seq![]
    } else {
        chunk_quads(cells, world, chunk_pos, n - 1) + cell_quads(
            cells,
            world,
            chunk_pos,
            mesh_cell(n - 1),
            6,
        )
    }
}

proof fn lemma_cell_quads_len(
    cells: Seq<BlockData>,
    world: ExcavateManufacturateWorld,
    chunk_pos: ChunkPos,
    o: BlockPos,
    k: int,
)
    ensures
        cell_quads(cells, world, chunk_pos, o, k).len() <= if k <= 0 {
            0
        } else {
            k
        },
    decreases k,
{
    if k > 0 {
        lemma_cell_quads_len(cells, world, chunk_pos, o, k - 1);
    }
}

impl ChunkData {
    /// Whether the face of cell `o` towards `d` is drawn.
    fn face_is_visible(
        &self,
        chunk_pos: ChunkPos,
        world: &ExcavateManufacturateWorld,
        o: BlockPos,
        d: FaceDirection,
    ) -> (r: bool)
        requires
            o.is_chunk_offset(),
            chunk_pos.in_range(),
            self@.len() == CHUNK_VOLUME,
        ensures
            r == face_visible(self@, *world, chunk_pos, o, d),
    {
        let (dx, dy, dz) = d.step();
        let n = BlockPos { x: o.x + dx, y: o.y + dy, z: o.z + dz };
        match self.try_get_from_raw_offset(n) {
            // The neighbour lies in this chunk.
            Some(b) => b.is_none(),
            None => {
                // The neighbour lies in another chunk: ask the world.
                let origin = BlockPos::from(chunk_pos);
                let wx = origin.x as i64 + n.x as i64;
                let wy = origin.y as i64 + n.y as i64;
                let wz = origin.z as i64 + n.z as i64;
                if wx < i32::MIN as i64 || wx > i32::MAX as i64 || wy < i32::MIN as i64 || wy
                    > i32::MAX as i64 || wz < i32::MIN as i64 || wz > i32::MAX as i64 {
                    true
                } else {
                    !world.is_occupied(BlockPos { x: wx as i32, y: wy as i32, z: wz as i32 })
                }
            },
        }
    }

    /// The face-culled mesh of this chunk, placed at `chunk_pos` in `world`:
    /// `None` for a chunk of air, else the buffers of every visible face of
    /// every block, cells visited with x slowest and z fastest, faces in
    /// `FaceDirection` order.
    pub fn get_mesh(
        &self,
        chunk_pos: ChunkPos,
        block_registry: &BlockRegistry,
        world: &ExcavateManufacturateWorld,
    ) -> (r: Option<ChunkMesh>)
        requires
            chunk_pos.in_range(),
        ensures
            match r {
                Some(m) => !self.spec_is_empty() && m.holds(
                    chunk_quads(self@, *world, chunk_pos, CHUNK_VOLUME as int),
                ),
                None => self.spec_is_empty(),
            },
    {
        if self.is_empty() {
            return None;
        }
        let _ = self.cell_count();
        let mut mesh_builder = ChunkMeshBuilder::new();
        let mut n: usize = 0;
        while n < CHUNK_VOLUME
            invariant
                n <= CHUNK_VOLUME,
                self@.len() == CHUNK_VOLUME,
                chunk_pos.in_range(),
                mesh_builder.wf(),
                mesh_builder.quads() == chunk_quads(self@, *world, chunk_pos, n as int),
                mesh_builder.quads().len() <= 6 * n,
            decreases CHUNK_VOLUME - n,
        {
            let o = BlockPos { x: (n / 1024) as i32, y: ((n / 32) % 32) as i32, z: (n % 32) as i32 };
            assert(n / 1024 < 32) by {
                vstd::arithmetic::div_mod::lemma_div_by_multiple_is_strongly_ordered(n as int, 32768, 32, 1024);
            }
            assert(o == mesh_cell(n as int));
            let ghost before = mesh_builder.quads();
            let block = self.get_from_raw_offset(o);
            match &block.0 {
                Some(b) => {
                    let mut k: usize = 0;
                    while k < 6
                        invariant
                            k <= 6,
                            n < CHUNK_VOLUME,
                            self@.len() == CHUNK_VOLUME,
                            chunk_pos.in_range(),
                            o.is_chunk_offset(),
                            self@[spec_index(o)] == *block,
                            block.0 == Some(*b),
                            mesh_builder.wf(),
                            before.len() <= 6 * n,
                            mesh_builder.quads() == before + cell_quads(self@, *world, chunk_pos, o, k as int),
                        decreases 6 - k,
                    {
                        let d = direction(k);
                        proof {
                            lemma_cell_quads_len(self@, *world, chunk_pos, o, k as int);
                        }
                        if self.face_is_visible(chunk_pos, world, o, d) {
                            let data = block_registry.get_block_data(b.id);
                            let atlas_coords = data.textures.get_coords(d.face_class());
                            mesh_builder.add_face(d, o, atlas_coords);
                        }
                        proof {
                            assert(mesh_builder.quads() =~= before + cell_quads(self@, *world, chunk_pos, o, k + 1));
                        }
                        k = k + 1;
                    }
                },
                None => {
                    proof {
                        assert(cell_quads(self@, *world, chunk_pos, o, 6) =~= Seq::<Quad>::empty()) by {
                            lemma_cell_quads_air(self@, *world, chunk_pos, o, 6);
                        }
                        assert(mesh_builder.quads() =~= before + cell_quads(self@, *world, chunk_pos, o, 6));
                    }
                },
            }
            proof {
                lemma_cell_quads_len(self@, *world, chunk_pos, o, 6);
            }
            n = n + 1;
        }
        Some(mesh_builder.into_mesh())
    }
}

proof fn lemma_cell_quads_air(
    cells: Seq<BlockData>,
    world: ExcavateManufacturateWorld,
    chunk_pos: ChunkPos,
    o: BlockPos,
    k: int,
)
    requires
        cells[spec_index(o)].0 is None,
    ensures
        cell_quads(cells, world, chunk_pos, o, k) =~= Seq::<Quad>::empty(),
    decreases k,
{
    if k > 0 {
        lemma_cell_quads_air(cells, world, chunk_pos, o, k - 1);
    }
}

/// The cell next to `o` in direction `d`, as integers.
pub open spec fn neighbour(o: BlockPos, d: FaceDirection) -> BlockPos {
    BlockPos {
        x: (o.x + d.spec_step().0) as i32,
        y: (o.y + d.spec_step().1) as i32,
        z: (o.z + d.spec_step().2) as i32,
    }
}

/// The face of cell `o` of the chunk at `a_pos` towards `d` borders the chunk
/// at `b_pos`: its neighbour lies outside the chunk, in `b_pos`.
pub open spec fn face_touches(a_pos: ChunkPos, o: BlockPos, d: FaceDirection, b_pos: ChunkPos) -> bool {
    let n = neighbour(o, d);
    let wx = a_pos.x * CHUNK_SIZE_INT + n.x;
    let wy = a_pos.y * CHUNK_SIZE_INT + n.y;
    let wz = a_pos.z * CHUNK_SIZE_INT + n.z;
    &&& !n.is_chunk_offset()
    &&& fits_i32(wx) && fits_i32(wy) && fits_i32(wz)
    &&& ChunkPos::spec_from(BlockPos { x: wx as i32, y: wy as i32, z: wz as i32 }) == b_pos
}

proof fn lemma_mesh_cell(m: int)
    requires
        0 <= m < CHUNK_VOLUME,
    ensures
        mesh_cell(m).is_chunk_offset(),
{
    vstd::arithmetic::div_mod::lemma_div_by_multiple_is_strongly_ordered(m, 32768, 32, 1024);
    vstd::arithmetic::div_mod::lemma_div_pos_is_pos(m, 1024);
}

proof fn lemma_mesh_cell_of(o: BlockPos)
    requires
        o.is_chunk_offset(),
    ensures
        0 <= o.x * 1024 + o.y * 32 + o.z < CHUNK_VOLUME,
        mesh_cell(o.x * 1024 + o.y * 32 + o.z) == o,
{
    let m = o.x * 1024 + o.y * 32 + o.z;
    let (x, y, z) = (o.x as int, o.y as int, o.z as int);
    vstd::arithmetic::div_mod::lemma_fundamental_div_mod_converse(m, 1024, x, y * 32 + z);
    vstd::arithmetic::div_mod::lemma_fundamental_div_mod_converse(m, 32, x * 32 + y, z);
    vstd::arithmetic::div_mod::lemma_fundamental_div_mod_converse(x * 32 + y, 32, x, y);
}

proof fn lemma_cell_quads_prefix(
    cells: Seq<BlockData>,
    world: ExcavateManufacturateWorld,
    chunk_pos: ChunkPos,
    o: BlockPos,
    j: int,
    k: int,
)
    requires
        0 <= j <= k,
    ensures
        cell_quads(cells, world, chunk_pos, o, j).len() <= cell_quads(cells, world, chunk_pos, o, k).len(),
        forall|i: int|
            0 <= i < cell_quads(cells, world, chunk_pos, o, j).len() ==> #[trigger] cell_quads(
                cells,
                world,
                chunk_pos,
                o,
                k,
            )[i] == cell_quads(cells, world, chunk_pos, o, j)[i],
    decreases k - j,
{
    if j < k {
        lemma_cell_quads_prefix(cells, world, chunk_pos, o, j, k - 1);
    }
}

proof fn lemma_chunk_quads_prefix(
    cells: Seq<BlockData>,
    world: ExcavateManufacturateWorld,
    chunk_pos: ChunkPos,
    j: int,
    k: int,
)
    requires
        0 <= j <= k,
    ensures
        chunk_quads(cells, world, chunk_pos, j).len() <= chunk_quads(cells, world, chunk_pos, k).len(),
        forall|i: int|
            0 <= i < chunk_quads(cells, world, chunk_pos, j).len() ==> #[trigger] chunk_quads(
                cells,
                world,
                chunk_pos,
                k,
            )[i] == chunk_quads(cells, world, chunk_pos, j)[i],
    decreases k - j,
{
    if j < k {
        lemma_chunk_quads_prefix(cells, world, chunk_pos, j, k - 1);
    }
}

proof fn lemma_cell_quads_visible(
    cells: Seq<BlockData>,
    world: ExcavateManufacturateWorld,
    chunk_pos: ChunkPos,
    o: BlockPos,
    k: int,
)
    ensures
        forall|i: int|
            0 <= i < cell_quads(cells, world, chunk_pos, o, k).len() ==> {
                let q = #[trigger] cell_quads(cells, world, chunk_pos, o, k)[i];
                q.offset == o && face_visible(cells, world, chunk_pos, o, q.direction)
            },
    decreases k,
{
    if k > 0 {
        lemma_cell_quads_visible(cells, world, chunk_pos, o, k - 1);
    }
}

proof fn lemma_chunk_quads_visible(
    cells: Seq<BlockData>,
    world: ExcavateManufacturateWorld,
    chunk_pos: ChunkPos,
    n: int,
)
    requires
        n <= CHUNK_VOLUME,
    ensures
        forall|i: int|
            0 <= i < chunk_quads(cells, world, chunk_pos, n).len() ==> {
                let q = #[trigger] chunk_quads(cells, world, chunk_pos, n)[i];
                q.offset.is_chunk_offset() && face_visible(cells, world, chunk_pos, q.offset, q.direction)
            },
    decreases n,
{
    if n > 0 {
        lemma_chunk_quads_visible(cells, world, chunk_pos, n - 1);
        lemma_cell_quads_visible(cells, world, chunk_pos, mesh_cell(n - 1), 6);
        lemma_mesh_cell(n - 1);
        let prev = chunk_quads(cells, world, chunk_pos, n - 1);
        let last = cell_quads(cells, world, chunk_pos, mesh_cell(n - 1), 6);
        assert forall|i: int| 0 <= i < chunk_quads(cells, world, chunk_pos, n).len() implies {
            let q = #[trigger] chunk_quads(cells, world, chunk_pos, n)[i];
            q.offset.is_chunk_offset() && face_visible(cells, world, chunk_pos, q.offset, q.direction)
        } by {
            if i >= prev.len() {
                assert(chunk_quads(cells, world, chunk_pos, n)[i] == last[i - prev.len()]);
            } else {
                assert(chunk_quads(cells, world, chunk_pos, n)[i] == prev[i]);
            }
        }
    }
}

proof fn lemma_chunk_quads_air(
    cells: Seq<BlockData>,
    world: ExcavateManufacturateWorld,
    chunk_pos: ChunkPos,
    n: int,
)
    requires
        n <= CHUNK_VOLUME,
        forall|i: int| 0 <= i < CHUNK_VOLUME ==> !(#[trigger] cells[i]).spec_is_some(),
    ensures
        chunk_quads(cells, world, chunk_pos, n) =~= Seq::<Quad>::empty(),
    decreases n,
{
    if n > 0 {
        lemma_chunk_quads_air(cells, world, chunk_pos, n - 1);
        lemma_mesh_cell(n - 1);
        crate::chunk::lemma_index_round_trip(0, mesh_cell(n - 1));
        assert(!cells[spec_index(mesh_cell(n - 1))].spec_is_some());
        lemma_cell_quads_air(cells, world, chunk_pos, mesh_cell(n - 1), 6);
    }
}

/// Position of a face direction in meshing order.
pub open spec fn direction_index(d: FaceDirection) -> int {
    match d {
        FaceDirection::PosZ => 0,
        FaceDirection::NegZ => 1,
        FaceDirection::PosY => 2,
        FaceDirection::NegY => 3,
        FaceDirection::PosX => 4,
        FaceDirection::NegX => 5,
    }
}

/// Position of an in-chunk offset in meshing order.
pub open spec fn cell_step(o: BlockPos) -> int {
    o.x * 1024 + o.y * 32 + o.z
}

/// Quad `i` of `qs` comes strictly before quad `j` in meshing order.
pub open spec fn mesh_ordered(qs: Seq<Quad>, i: int, j: int) -> bool {
    cell_step(qs[i].offset) < cell_step(qs[j].offset) || (qs[i].offset == qs[j].offset
        && direction_index(qs[i].direction) < direction_index(qs[j].direction))
}

proof fn lemma_mesh_cell_step(m: int)
    requires
        0 <= m < CHUNK_VOLUME,
    ensures
        cell_step(mesh_cell(m)) == m,
{
    lemma_mesh_cell(m);
    vstd::arithmetic::div_mod::lemma_fundamental_div_mod(m, 32);
    vstd::arithmetic::div_mod::lemma_fundamental_div_mod(m / 32, 32);
    vstd::arithmetic::div_mod::lemma_div_denominator(m, 32, 32);
}

proof fn lemma_cell_quads_ordered(
    cells: Seq<BlockData>,
    world: ExcavateManufacturateWorld,
    chunk_pos: ChunkPos,
    o: BlockPos,
    k: int,
)
    requires
        k <= 6,
    ensures
        forall|i: int|
            0 <= i < cell_quads(cells, world, chunk_pos, o, k).len() ==> {
                let q = #[trigger] cell_quads(cells, world, chunk_pos, o, k)[i];
                q.offset == o && 0 <= direction_index(q.direction) < k
            },
        forall|i: int, j: int|
            0 <= i < j < cell_quads(cells, world, chunk_pos, o, k).len() ==> direction_index(
                #[trigger] cell_quads(cells, world, chunk_pos, o, k)[i].direction,
            ) < direction_index(#[trigger] cell_quads(cells, world, chunk_pos, o, k)[j].direction),
    decreases k,
{
    if k > 0 {
        lemma_cell_quads_ordered(cells, world, chunk_pos, o, k - 1);
        let prev = cell_quads(cells, world, chunk_pos, o, k - 1);
        let cur = cell_quads(cells, world, chunk_pos, o, k);
        assert(direction_index(direction_at(k - 1)) == k - 1);
        assert forall|i: int| 0 <= i < cur.len() implies {
            let q = #[trigger] cur[i];
            q.offset == o && 0 <= direction_index(q.direction) < k
        } by {
            if i < prev.len() {
                assert(cur[i] == prev[i]);
            }
        }
        assert forall|i: int, j: int| 0 <= i < j < cur.len() implies direction_index(
            #[trigger] cur[i].direction,
        ) < direction_index(#[trigger] cur[j].direction) by {
            assert(cur[i] == prev[i]);
            if j < prev.len() {
                assert(cur[j] == prev[j]);
            }
        }
    }
}

proof fn lemma_chunk_quads_ordered(
    cells: Seq<BlockData>,
    world: ExcavateManufacturateWorld,
    chunk_pos: ChunkPos,
    n: int,
)
    requires
        n <= CHUNK_VOLUME,
    ensures
        forall|i: int|
            0 <= i < chunk_quads(cells, world, chunk_pos, n).len() ==> cell_step(
                (#[trigger] chunk_quads(cells, world, chunk_pos, n)[i]).offset,
            ) < n,
        forall|i: int, j: int|
            0 <= i < j < chunk_quads(cells, world, chunk_pos, n).len() ==> #[trigger] mesh_ordered(
                chunk_quads(cells, world, chunk_pos, n),
                i,
                j,
            ),
    decreases n,
{
    if n > 0 {
        lemma_chunk_quads_ordered(cells, world, chunk_pos, n - 1);
        let o = mesh_cell(n - 1);
        lemma_mesh_cell_step(n - 1);
        lemma_cell_quads_ordered(cells, world, chunk_pos, o, 6);
        let prev = chunk_quads(cells, world, chunk_pos, n - 1);
        let last = cell_quads(cells, world, chunk_pos, o, 6);
        let cur = chunk_quads(cells, world, chunk_pos, n);
        assert forall|i: int| 0 <= i < cur.len() implies cell_step((#[trigger] cur[i]).offset) < n by {
            if i < prev.len() {
                assert(cur[i] == prev[i]);
            } else {
                assert(cur[i] == last[i - prev.len()]);
            }
        }
        assert forall|i: int, j: int| 0 <= i < j < cur.len() implies #[trigger] mesh_ordered(cur, i, j) by {
            if j < prev.len() {
                assert(cur[i] == prev[i]);
                assert(cur[j] == prev[j]);
                assert(mesh_ordered(prev, i, j));
            } else if i < prev.len() {
                assert(cur[i] == prev[i]);
                assert(cur[j] == last[j - prev.len()]);
            } else {
                assert(cur[i] == last[i - prev.len()]);
                assert(cur[j] == last[j - prev.len()]);
            }
        }
    }
}

/// Meshing a chunk `a` whose every cell is solid/// Meshing a chunk `a` whose every cell is solid emits no face between two of
/// its cells, and emits every face of `a` that borders a stored chunk `b`
/// whose every cell is air, each exactly once (no cell has two quads in one
/// direction); meshing `b` emits no face.
pub proof fn lemma_mesh_solid_beside_air(
    world: ExcavateManufacturateWorld,
    a: Seq<BlockData>,
    a_pos: ChunkPos,
    b_pos: ChunkPos,
    o: BlockPos,
    d: FaceDirection,
)
    requires
        a.len() == CHUNK_VOLUME,
        forall|i: int| 0 <= i < CHUNK_VOLUME ==> (#[trigger] a[i]).spec_is_some(),
        world.has_chunk(b_pos),
        forall|i: int| 0 <= i < CHUNK_VOLUME ==> !(#[trigger] world.chunk(b_pos)@[i]).spec_is_some(),
    ensures
        forall|i: int|
            0 <= i < chunk_quads(a, world, a_pos, CHUNK_VOLUME as int).len() ==> {
                let q = #[trigger] chunk_quads(a, world, a_pos, CHUNK_VOLUME as int)[i];
                !neighbour(q.offset, q.direction).is_chunk_offset()
            },
        o.is_chunk_offset() && face_touches(a_pos, o, d, b_pos) ==> chunk_quads(
            a,
            world,
            a_pos,
            CHUNK_VOLUME as int,
        ).contains(
            Quad {
                direction: d,
                offset: o,
                atlas: catalog_data(a[spec_index(o)].0->Some_0.id.index() as int).textures.spec_coords(
                    d.spec_face_class(),
                ),
            },
        ),
        chunk_quads(world.chunk(b_pos)@, world, b_pos, CHUNK_VOLUME as int) =~= Seq::<Quad>::empty(),
        forall|i: int, j: int|
            0 <= i < j < chunk_quads(a, world, a_pos, CHUNK_VOLUME as int).len() ==> !(
            #[trigger] chunk_quads(a, world, a_pos, CHUNK_VOLUME as int)[i].offset == #[trigger] chunk_quads(
                a,
                world,
                a_pos,
                CHUNK_VOLUME as int,
            )[j].offset && chunk_quads(a, world, a_pos, CHUNK_VOLUME as int)[i].direction == chunk_quads(
                a,
                world,
                a_pos,
                CHUNK_VOLUME as int,
            )[j].direction),
{
    let n = CHUNK_VOLUME as int;
    lemma_chunk_quads_ordered(a, world, a_pos, n);
    assert forall|i: int, j: int|
        0 <= i < j < chunk_quads(a, world, a_pos, n).len() implies !(
        #[trigger] chunk_quads(a, world, a_pos, n)[i].offset == #[trigger] chunk_quads(a, world, a_pos, n)[j].offset
            && chunk_quads(a, world, a_pos, n)[i].direction == chunk_quads(a, world, a_pos, n)[j].direction) by {
        assert(mesh_ordered(chunk_quads(a, world, a_pos, n), i, j));
    }
    lemma_chunk_quads_air(world.chunk(b_pos)@, world, b_pos, n);
    lemma_chunk_quads_visible(a, world, a_pos, n);
    assert forall|i: int| 0 <= i < chunk_quads(a, world, a_pos, n).len() implies {
        let q = #[trigger] chunk_quads(a, world, a_pos, n)[i];
        !neighbour(q.offset, q.direction).is_chunk_offset()
    } by {
        let q = chunk_quads(a, world, a_pos, n)[i];
        crate::chunk::lemma_index_round_trip(0, neighbour(q.offset, q.direction));
    }
    if o.is_chunk_offset() && face_touches(a_pos, o, d, b_pos) {
        let m = o.x * 1024 + o.y * 32 + o.z;
        lemma_mesh_cell_of(o);
        crate::chunk::lemma_index_round_trip(0, o);
        let nb = neighbour(o, d);
        let wp = BlockPos {
            x: (a_pos.x * CHUNK_SIZE_INT + nb.x) as i32,
            y: (a_pos.y * CHUNK_SIZE_INT + nb.y) as i32,
            z: (a_pos.z * CHUNK_SIZE_INT + nb.z) as i32,
        };
        crate::coords::lemma_chunk_round_trip(wp);
        crate::chunk::lemma_index_round_trip(0, wp.spec_chunk_offset());
        assert(!world.spec_is_occupied(wp));
        assert(face_visible(a, world, a_pos, o, d));
        let kd: int = if d == FaceDirection::PosZ {
            0
        } else if d == FaceDirection::NegZ {
            1
        } else if d == FaceDirection::PosY {
            2
        } else if d == FaceDirection::NegY {
            3
        } else if d == FaceDirection::PosX {
            4
        } else {
            5
        };
        assert(direction_at(kd) == d);
        let quad = Quad {
            direction: d,
            offset: o,
            atlas: catalog_data(a[spec_index(o)].0->Some_0.id.index() as int).textures.spec_coords(
                d.spec_face_class(),
            ),
        };
        let cq = cell_quads(a, world, a_pos, o, kd + 1);
        assert(cq[cq.len() - 1] == quad);
        lemma_cell_quads_prefix(a, world, a_pos, o, kd + 1, 6);
        let all = cell_quads(a, world, a_pos, o, 6);
        assert(all[cq.len() - 1] == quad);
        lemma_chunk_quads_prefix(a, world, a_pos, m + 1, n);
        let upto = chunk_quads(a, world, a_pos, m + 1);
        let before = chunk_quads(a, world, a_pos, m);
        assert(upto[before.len() + cq.len() - 1] == quad);
        assert(chunk_quads(a, world, a_pos, n)[before.len() + cq.len() - 1] == quad);
    }
}

} // verus!
