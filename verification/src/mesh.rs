use vstd::prelude::*;

use crate::block::{Block, Rgb};
use crate::coord::{
    spec_block_at, BlockCoord, ChunkCoord, GlobalCoord, CHUNK_CUBE,
};
use crate::direction::{all_dirs, dir_at, Direction};

verus! {

/// A vertex position in half-block units: doubling the coordinates
/// keeps the half-block corner offsets in integer arithmetic. A
/// renderer divides by two to recover world units.
#[derive(Clone, Copy, Debug, PartialEq, Eq, Structural)]
pub struct VertexPos {
    pub x: i64,
    pub y: i64,
    pub z: i64,
}

/// One mesh vertex: a corner position and the color of its block.
#[derive(Clone, Copy, Debug, PartialEq, Eq, Structural)]
pub struct Vertex {
    pub position: VertexPos,
    pub color: Rgb,
}

/// The geometry extracted from one chunk: a vertex list and a
/// triangle-list index buffer, six indices per emitted quad.
pub struct TerrainMesh {
    pub vertices: Vec<Vertex>,
    pub indices: Vec<u32>,
}

/// Corner offset `c` of the quad facing `dir`, in half-block units
/// around the block center.
pub open spec fn corner_offset(dir: Direction, c: int) -> VertexPos {
    match dir {
        Direction::Down => {
            if c == 0 {
                VertexPos { x: 1i64, y: -1i64, z: -1i64 }
            } else if c == 1 {
                VertexPos { x: 1i64, y: -1i64, z: 1i64 }
            } else if c == 2 {
                VertexPos { x: -1i64, y: -1i64, z: 1i64 }
            } else {
                VertexPos { x: -1i64, y: -1i64, z: -1i64 }
            }
        },
        Direction::Up => {
            if c == 0 {
                VertexPos { x: 1i64, y: 1i64, z: 1i64 }
            } else if c == 1 {
                VertexPos { x: 1i64, y: 1i64, z: -1i64 }
            } else if c == 2 {
                VertexPos { x: -1i64, y: 1i64, z: -1i64 }
            } else {
                VertexPos { x: -1i64, y: 1i64, z: 1i64 }
            }
        },
        Direction::Left => {
            if c == 0 {
                VertexPos { x: -1i64, y: 1i64, z: -1i64 }
            } else if c == 1 {
                VertexPos { x: -1i64, y: -1i64, z: -1i64 }
            } else if c == 2 {
                VertexPos { x: -1i64, y: -1i64, z: 1i64 }
            } else {
                VertexPos { x: -1i64, y: 1i64, z: 1i64 }
            }
        },
        Direction::Right => {
            if c == 0 {
                VertexPos { x: 1i64, y: 1i64, z: 1i64 }
            } else if c == 1 {
                VertexPos { x: 1i64, y: -1i64, z: 1i64 }
            } else if c == 2 {
                VertexPos { x: 1i64, y: -1i64, z: -1i64 }
            } else {
                VertexPos { x: 1i64, y: 1i64, z: -1i64 }
            }
        },
        Direction::Front => {
            if c == 0 {
                VertexPos { x: 1i64, y: 1i64, z: -1i64 }
            } else if c == 1 {
                VertexPos { x: 1i64, y: -1i64, z: -1i64 }
            } else if c == 2 {
                VertexPos { x: -1i64, y: -1i64, z: -1i64 }
            } else {
                VertexPos { x: -1i64, y: 1i64, z: -1i64 }
            }
        },
        Direction::Back => {
            if c == 0 {
                VertexPos { x: -1i64, y: 1i64, z: 1i64 }
            } else if c == 1 {
                VertexPos { x: -1i64, y: -1i64, z: 1i64 }
            } else if c == 2 {
                VertexPos { x: 1i64, y: -1i64, z: 1i64 }
            } else {
                VertexPos { x: 1i64, y: 1i64, z: 1i64 }
            }
        },
    }
}

/// Corner `c` of the quad on face `dir` of the block at global
/// position `g`, in half-block units.
pub open spec fn spec_corner(g: GlobalCoord, dir: Direction, c: int) -> VertexPos {
    VertexPos {
        x: (2 * g.x + corner_offset(dir, c).x) as i64,
        y: (2 * g.y + corner_offset(dir, c).y) as i64,
        z: (2 * g.z + corner_offset(dir, c).z) as i64,
    }
}

/// Whether the build emits the face of block `i` in direction `d`:
/// the block is opaque, and its neighbor in `d` either falls outside
/// the chunk (a boundary face is always emitted) or is not opaque.
pub open spec fn spec_emits(blocks: Seq<Block>, i: int, d: Direction) -> bool {
    let pos = spec_block_at(i);
    blocks[i].spec_opaque() && (pos.spec_on_chunk_edge(d) || !blocks[pos.spec_neighbor(
        d,
    ).spec_flatten()].spec_opaque())
}

/// The face pairs are ranked `m = 6 * block_index + direction_rank`;
/// this is whether pair `m` emits a quad.
pub open spec fn pair_emits(blocks: Seq<Block>, m: int) -> bool {
    spec_emits(blocks, m / 6, all_dirs()[m % 6])
}

/// The ranks below `m` whose pair emits a quad, in ascending order:
/// the quads of the mesh, in emission order.
pub open spec fn emitted_pairs(blocks: Seq<Block>, m: int) -> Seq<int>
    decreases m,
{
    if m <= 0 {
        Seq::empty()
    } else if pair_emits(blocks, m - 1) {
        emitted_pairs(blocks, m - 1).push(m - 1)
    } else {
        emitted_pairs(blocks, m - 1)
    }
}

/// Number of quads the build emits for this block grid.
pub open spec fn quad_count(blocks: Seq<Block>) -> int {
    emitted_pairs(blocks, 24576).len() as int
}

/// The vertex for corner `c` of the quad of pair `m`.
pub open spec fn spec_quad_vertex(coord: ChunkCoord, blocks: Seq<Block>, m: int, c: int) -> Vertex {
    Vertex {
        position: spec_corner(coord.spec_to_global(spec_block_at(m / 6)), all_dirs()[m % 6], c),
        color: blocks[m / 6].spec_color(),
    }
}

/// Index pattern of one quad: two triangles with consistent winding.
pub open spec fn index_offset(t: int) -> int {
    if t == 0 {
        0
    } else if t == 1 {
        1
    } else if t == 2 {
        2
    } else if t == 3 {
        0
    } else if t == 4 {
        2
    } else {
        3
    }
}

/// What the vertex and index lists hold once the first `m` face pairs
/// have been processed.
pub open spec fn mesh_upto(
    coord: ChunkCoord,
    blocks: Seq<Block>,
    vs: Seq<Vertex>,
    is: Seq<u32>,
    m: int,
) -> bool {
    let e = emitted_pairs(blocks, m);
    &&& vs.len() == 4 * e.len()
    &&& is.len() == 6 * e.len()
    &&& forall|k: int|
        0 <= k < vs.len() ==> #[trigger] vs[k] == spec_quad_vertex(coord, blocks, e[k / 4], k % 4)
    &&& forall|k: int|
        0 <= k < is.len() ==> #[trigger] is[k] == (4 * (k / 6) + index_offset(k % 6)) as u32
}

proof fn lemma_emitted_len_le(blocks: Seq<Block>, m: int)
    requires
        0 <= m,
    ensures
        0 <= emitted_pairs(blocks, m).len() <= m,
    decreases m,
{
    if m > 0 {
        lemma_emitted_len_le(blocks, m - 1);
    }
}

/// Exec corner table; see `corner_offset`.
fn quad_corner(g: GlobalCoord, dir: Direction, c: usize) -> (p: VertexPos)
    requires
        c < 4,
    ensures
        p == spec_corner(g, dir, c as int),
{
    let bx: i64 = 2 * (g.x as i64);
    let by: i64 = 2 * (g.y as i64);
    let bz: i64 = 2 * (g.z as i64);
    match dir {
        Direction::Down => {
            if c == 0 {
                VertexPos { x: bx + 1, y: by - 1, z: bz - 1 }
            } else if c == 1 {
                VertexPos { x: bx + 1, y: by - 1, z: bz + 1 }
            } else if c == 2 {
                VertexPos { x: bx - 1, y: by - 1, z: bz + 1 }
            } else {
                VertexPos { x: bx - 1, y: by - 1, z: bz - 1 }
            }
        },
        Direction::Up => {
            if c == 0 {
                VertexPos { x: bx + 1, y: by + 1, z: bz + 1 }
            } else if c == 1 {
                VertexPos { x: bx + 1, y: by + 1, z: bz - 1 }
            } else if c == 2 {
                VertexPos { x: bx - 1, y: by + 1, z: bz - 1 }
            } else {
                VertexPos { x: bx - 1, y: by + 1, z: bz + 1 }
            }
        },
        Direction::Left => {
            if c == 0 {
                VertexPos { x: bx - 1, y: by + 1, z: bz - 1 }
            } else if c == 1 {
                VertexPos { x: bx - 1, y: by - 1, z: bz - 1 }
            } else if c == 2 {
                VertexPos { x: bx - 1, y: by - 1, z: bz + 1 }
            } else {
                VertexPos { x: bx - 1, y: by + 1, z: bz + 1 }
            }
        },
        Direction::Right => {
            if c == 0 {
                VertexPos { x: bx + 1, y: by + 1, z: bz + 1 }
            } else if c == 1 {
                VertexPos { x: bx + 1, y: by - 1, z: bz + 1 }
            } else if c == 2 {
                VertexPos { x: bx + 1, y: by - 1, z: bz - 1 }
            } else {
                VertexPos { x: bx + 1, y: by + 1, z: bz - 1 }
            }
        },
        Direction::Front => {
            if c == 0 {
                VertexPos { x: bx + 1, y: by + 1, z: bz - 1 }
            } else if c == 1 {
                VertexPos { x: bx + 1, y: by - 1, z: bz - 1 }
            } else if c == 2 {
                VertexPos { x: bx - 1, y: by - 1, z: bz - 1 }
            } else {
                VertexPos { x: bx - 1, y: by + 1, z: bz - 1 }
            }
        },
        Direction::Back => {
            if c == 0 {
                VertexPos { x: bx - 1, y: by + 1, z: bz + 1 }
            } else if c == 1 {
                VertexPos { x: bx - 1, y: by - 1, z: bz + 1 }
            } else if c == 2 {
                VertexPos { x: bx + 1, y: by - 1, z: bz + 1 }
            } else {
                VertexPos { x: bx + 1, y: by + 1, z: bz + 1 }
            }
        },
    }
}

impl TerrainMesh {
    /// Visible-face mesh extraction: a pure function of the chunk
    /// origin and its block grid. For every opaque block, a quad is
    /// emitted for each of its six faces whose neighbor lies outside
    /// the chunk or is not opaque; each quad contributes four corner
    /// vertices and six indices forming two triangles. A chunk with no
    /// opaque block yields empty lists, which callers treat as
    /// "nothing to draw".
    pub fn build(coord: ChunkCoord, blocks: &Vec<Block>) -> (r: TerrainMesh)
        requires
            blocks@.len() == 4096,
            coord.in_global_range(),
        ensures
            r.vertices@.len() == 4 * quad_count(blocks@),
            r.indices@.len() == 6 * quad_count(blocks@),
            forall|k: int|
                0 <= k < r.vertices@.len() ==> #[trigger] r.vertices@[k] == spec_quad_vertex(
                    coord,
                    blocks@,
                    emitted_pairs(blocks@, 24576)[k / 4],
                    k % 4,
                ),
            forall|k: int|
                0 <= k < r.indices@.len() ==> #[trigger] r.indices@[k] == (4 * (k / 6)
                    + index_offset(k % 6)) as u32,
    {
        let mut vertices: Vec<Vertex> = Vec::new();
        let mut indices: Vec<u32> = Vec::new();
        let mut i: usize = 0;
        while i < CHUNK_CUBE
            invariant
                blocks@.len() == 4096,
                coord.in_global_range(),
                i <= 4096,
                mesh_upto(coord, blocks@, vertices@, indices@, 6 * i as int),
            decreases 4096 - i,
        {
            let pos = BlockCoord::from(i);
            proof {
                crate::coord::lemma_block_at_wf(i as int);
            }
            assert(pos.wf());
            let g = coord.to_global(&pos);
            let mut d: usize = 0;
            while d < 6
                invariant
                    blocks@.len() == 4096,
                    coord.in_global_range(),
                    i < 4096,
                    d <= 6,
                    pos == spec_block_at(i as int),
                    pos.wf(),
                    g == coord.spec_to_global(pos),
                    mesh_upto(coord, blocks@, vertices@, indices@, 6 * i + d),
                decreases 6 - d,
            {
                let ghost m: int = 6 * i + d;
                proof {
                    vstd::arithmetic::div_mod::lemma_fundamental_div_mod_converse(
                        m,
                        6,
                        i as int,
                        d as int,
                    );
                }
                let dir = dir_at(d);
                let emit = blocks[i].opaque() && (pos.on_chunk_edge(dir) || {
                    let nb = pos.neighbor(dir);
                    assert(nb.wf());
                    !blocks[nb.flatten()].opaque()
                });
                assert(emit == pair_emits(blocks@, m));
                let ghost e_old = emitted_pairs(blocks@, m);
                assert(emitted_pairs(blocks@, m + 1) == if pair_emits(blocks@, m) {
                    e_old.push(m)
                } else {
                    e_old
                });
                if emit {
                    proof {
                        lemma_emitted_len_le(blocks@, m);
                    }
                    let b: u32 = vertices.len() as u32;
                    let color = blocks[i].color();
                    let p0 = quad_corner(g, dir, 0);
                    vertices.push(Vertex { position: p0, color });
                    let p1 = quad_corner(g, dir, 1);
                    vertices.push(Vertex { position: p1, color });
                    let p2 = quad_corner(g, dir, 2);
                    vertices.push(Vertex { position: p2, color });
                    let p3 = quad_corner(g, dir, 3);
                    vertices.push(Vertex { position: p3, color });
                    indices.push(b);
                    indices.push(b + 1);
                    indices.push(b + 2);
                    indices.push(b);
                    indices.push(b + 2);
                    indices.push(b + 3);
                    proof {
                        let e_new = emitted_pairs(blocks@, m + 1);
                        let vl = e_old.len() as int;
                        assert forall|k: int| 0 <= k < vertices@.len() implies #[trigger] vertices@[k]
                            == spec_quad_vertex(coord, blocks@, e_new[k / 4], k % 4) by {
                            if k < 4 * vl {
                                assert(0 <= k / 4 < vl) by {
                                    vstd::arithmetic::div_mod::lemma_div_is_ordered(
                                        k,
                                        4 * vl - 1,
                                        4,
                                    );
                                    assert((4 * vl - 1) / 4 == vl - 1) by {
                                        vstd::arithmetic::div_mod::lemma_fundamental_div_mod_converse(
                                            4 * vl - 1,
                                            4,
                                            vl - 1,
                                            3,
                                        );
                                    }
                                }
                                assert(e_new[k / 4] == e_old[k / 4]);
                            } else {
                                vstd::arithmetic::div_mod::lemma_fundamental_div_mod_converse(
                                    k,
                                    4,
                                    vl,
                                    k - 4 * vl,
                                );
                                assert(e_new[k / 4] == m);
                            }
                        }
                        assert forall|k: int| 0 <= k < indices@.len() implies #[trigger] indices@[k]
                            == (4 * (k / 6) + index_offset(k % 6)) as u32 by {
                            if k < 6 * vl {
                            } else {
                                vstd::arithmetic::div_mod::lemma_fundamental_div_mod_converse(
                                    k,
                                    6,
                                    vl,
                                    k - 6 * vl,
                                );
                            }
                        }
                    }
                }
                d = d + 1;
            }
            i = i + 1;
        }
        TerrainMesh { vertices, indices }
    }

    /// Whether the build produced no geometry at all.
    pub fn is_empty(&self) -> (r: bool)
        ensures
            r == (self.vertices@.len() == 0),
    {
        self.vertices.len() == 0
    }
}

proof fn lemma_no_opaque_no_pairs(blocks: Seq<Block>, m: int)
    requires
        blocks.len() == 4096,
        forall|i: int| 0 <= i < 4096 ==> !blocks[i].spec_opaque(),
        0 <= m <= 24576,
    ensures
        emitted_pairs(blocks, m).len() == 0,
    decreases m,
{
    if m > 0 {
        lemma_no_opaque_no_pairs(blocks, m - 1);
        assert(0 <= (m - 1) / 6 < 4096) by {
            vstd::arithmetic::div_mod::lemma_div_is_ordered(m - 1, 24575, 6);
            assert(24575int / 6 == 4095) by {
                vstd::arithmetic::div_mod::lemma_fundamental_div_mod_converse(24575, 6, 4095, 5);
            }
        }
        assert(!pair_emits(blocks, m - 1));
    }
}

/// Law: a chunk without a single opaque block meshes to nothing; the
/// build returns zero vertices and zero indices for it.
pub proof fn lemma_empty_chunk_mesh(blocks: Seq<Block>)
    requires
        blocks.len() == 4096,
        forall|i: int| 0 <= i < 4096 ==> !blocks[i].spec_opaque(),
    ensures
        quad_count(blocks) == 0,
{
    lemma_no_opaque_no_pairs(blocks, 24576);
}

/// How many of the first `m` face pairs belong to block `i0`.
spec fn lone_count(i0: int, m: int) -> int {
    if m <= 6 * i0 {
        0
    } else if m < 6 * i0 + 6 {
        m - 6 * i0
    } else {
        6
    }
}

proof fn lemma_lone_pairs(blocks: Seq<Block>, i0: int, m: int)
    requires
        blocks.len() == 4096,
        0 <= i0 < 4096,
        blocks[i0].spec_opaque(),
        forall|i: int| 0 <= i < 4096 && i != i0 ==> !(#[trigger] blocks[i]).spec_opaque(),
        forall|d: Direction| !spec_block_at(i0).spec_on_chunk_edge(d),
        0 <= m <= 24576,
    ensures
        emitted_pairs(blocks, m).len() == lone_count(i0, m),
    decreases m,
{
    if m > 0 {
        lemma_lone_pairs(blocks, i0, m - 1);
        let i = (m - 1) / 6;
        let dd = (m - 1) % 6;
        assert(0 <= i < 4096 && 0 <= dd < 6) by {
            vstd::arithmetic::div_mod::lemma_div_is_ordered(m - 1, 24575, 6);
            assert(24575int / 6 == 4095) by {
                vstd::arithmetic::div_mod::lemma_fundamental_div_mod_converse(24575, 6, 4095, 5);
            }
            vstd::arithmetic::div_mod::lemma_fundamental_div_mod(m - 1, 6);
        }
        vstd::arithmetic::div_mod::lemma_fundamental_div_mod(m - 1, 6);
        if i == i0 {
            let pos = spec_block_at(i0);
            let dir = all_dirs()[dd];
            assert(!pos.spec_on_chunk_edge(dir));
            crate::coord::lemma_block_at_wf(i0);
            assert(pos.wf() && pos.spec_flatten() == i0);
            let nb = pos.spec_neighbor(dir);
            let ni = nb.spec_flatten();
            assert(0 <= ni < 4096 && ni != i0);
            assert(!blocks[ni].spec_opaque());
            assert(pair_emits(blocks, m - 1));
        } else {
            assert(!blocks[i].spec_opaque());
            assert(!pair_emits(blocks, m - 1));
        }
    }
}

/// Law: a chunk with exactly one opaque block, standing clear of every
/// chunk edge, meshes to exactly six quads: one per face, so 24
/// vertices and 36 indices.
pub proof fn lemma_lone_block_mesh(blocks: Seq<Block>, i0: int)
    requires
        blocks.len() == 4096,
        0 <= i0 < 4096,
        blocks[i0].spec_opaque(),
        forall|i: int| 0 <= i < 4096 && i != i0 ==> !(#[trigger] blocks[i]).spec_opaque(),
        forall|d: Direction| !spec_block_at(i0).spec_on_chunk_edge(d),
    ensures
        quad_count(blocks) == 6,
{
    lemma_lone_pairs(blocks, i0, 24576);
}

} // verus!
