use vstd::prelude::*;

use crate::area::LoadArea;
use crate::block::Block;
use crate::chunk::{LogicChunk, TerrainStatus};
use crate::chunk_map::{
    assoc_get, assoc_has, assoc_keep, assoc_pos, assoc_remove, assoc_set, assoc_uniq,
    lemma_assoc_keep, lemma_assoc_pos, lemma_assoc_remove, lemma_assoc_set, lemma_keys_preserved,
    ChunkMap,
};
use crate::coord::{ChunkCoord, ChunkId, GlobalCoord};
use crate::mesh::TerrainMesh;

verus! {

/// The drawable side of a chunk: the geometry a renderer uploads to
/// the GPU. It is created from a completed mesh build and replaced
/// whenever its chunk is remeshed.
pub struct TerrainChunk {
    pub mesh: TerrainMesh,
}

impl TerrainChunk {
    pub fn new(mesh: TerrainMesh) -> (r: Self)
        ensures
            r.mesh == mesh,
    {
        TerrainChunk { mesh }
    }
}

/// A meshing job for the worker pool: the chunk's id, its origin in
/// block units, and an owned snapshot of its blocks.
pub struct MeshJob {
    pub id: ChunkId,
    pub coord: ChunkCoord,
    pub blocks: Vec<Block>,
}

/// Abstraction of a meshing job for contracts.
pub open spec fn job_view(j: MeshJob) -> (ChunkId, ChunkCoord, Seq<Block>) {
    (j.id, j.coord, j.blocks@)
}

/// What one maintenance tick asks the surrounding runtime to do:
/// which drawable chunks were rebuilt this tick (their GPU buffers
/// need replacing), which meshing jobs and which generation jobs to
/// hand to the worker pool.
pub struct MaintainActions {
    pub built: Vec<ChunkId>,
    pub mesh_jobs: Vec<MeshJob>,
    pub gen_jobs: Vec<ChunkId>,
}

/// Model of the manager's mutable state: the logical-chunk map, the
/// drawable-chunk map, and the set of chunk ids whose generation is
/// in flight, each in its insertion order.
pub struct MgrState {
    pub logic: Seq<(ChunkId, LogicChunk)>,
    pub terrain: Seq<(ChunkId, TerrainChunk)>,
    pub gen: Seq<ChunkId>,
}

/// No id occurs twice.
pub open spec fn ids_uniq(g: Seq<ChunkId>) -> bool {
    forall|i: int, j: int| 0 <= i < j < g.len() ==> g[i] != g[j]
}

/// Well-formed manager state: duplicate-free maps and in-flight set,
/// and every logical chunk holding a full block grid under a key whose
/// block positions are representable.
pub open spec fn st_wf(s: MgrState) -> bool {
    &&& assoc_uniq(s.logic)
    &&& assoc_uniq(s.terrain)
    &&& ids_uniq(s.gen)
    &&& forall|k: ChunkId| #![trigger assoc_has(s.logic, k)]
        assoc_has(s.logic, k) ==> assoc_get(s.logic, k).wf() && k.in_world_range()
}

/// The chunk streaming invariant: a drawable chunk never outlives its
/// logical chunk's presence in the map.
pub open spec fn drawn_covered(s: MgrState) -> bool {
    forall|k: ChunkId| #![trigger assoc_has(s.terrain, k)]
        assoc_has(s.terrain, k) ==> assoc_has(s.logic, k)
}

/// One mesh result applied: if the chunk still exists and still
/// expects this mesh (status `Pending`), the drawable chunk is built
/// or replaced and the status becomes `Built`; otherwise the stale
/// result is discarded.
pub open spec fn step_mesh_one(s: MgrState, r: (ChunkCoord, TerrainMesh)) -> MgrState {
    let id = r.0.spec_to_id();
    if assoc_has(s.logic, id) && assoc_get(s.logic, id).status == TerrainStatus::Pending {
        MgrState {
            logic: assoc_set(
                s.logic,
                id,
                LogicChunk { blocks: assoc_get(s.logic, id).blocks, status: TerrainStatus::Built },
            ),
            terrain: assoc_set(s.terrain, id, TerrainChunk { mesh: r.1 }),
            gen: s.gen,
        }
    } else {
        s
    }
}

/// All drained mesh results applied in arrival order.
pub open spec fn step_mesh(s: MgrState, rs: Seq<(ChunkCoord, TerrainMesh)>) -> MgrState
    decreases rs.len(),
{
    if rs.len() == 0 {
        s
    } else {
        step_mesh(step_mesh_one(s, rs[0]), rs.drop_first())
    }
}

/// Ids whose drawable chunk the mesh results rebuilt, in order.
pub open spec fn built_ids(s: MgrState, rs: Seq<(ChunkCoord, TerrainMesh)>) -> Seq<ChunkId>
    decreases rs.len(),
{
    if rs.len() == 0 {
        Seq::empty()
    } else {
        let id = rs[0].0.spec_to_id();
        let applied = assoc_has(s.logic, id) && assoc_get(s.logic, id).status
            == TerrainStatus::Pending;
        (if applied {
            seq![id]
        } else {
            Seq::empty()
        }) + built_ids(step_mesh_one(s, rs[0]), rs.drop_first())
    }
}

/// The in-flight set without `id` (first occurrence).
pub open spec fn seq_remove_id(g: Seq<ChunkId>, id: ChunkId) -> Seq<ChunkId>
    decreases g.len(),
{
    if g.len() == 0 {
        g
    } else if g[0] == id {
        g.drop_first()
    } else {
        seq![g[0]] + seq_remove_id(g.drop_first(), id)
    }
}

/// One generation result applied: the id leaves the in-flight set and
/// the generated chunk enters the logical map.
pub open spec fn step_gen_one(s: MgrState, r: (ChunkId, LogicChunk)) -> MgrState {
    MgrState {
        logic: assoc_set(s.logic, r.0, r.1),
        terrain: s.terrain,
        gen: seq_remove_id(s.gen, r.0),
    }
}

/// All drained generation results applied in arrival order.
pub open spec fn step_gen(s: MgrState, rs: Seq<(ChunkId, LogicChunk)>) -> MgrState
    decreases rs.len(),
{
    if rs.len() == 0 {
        s
    } else {
        step_gen(step_gen_one(s, rs[0]), rs.drop_first())
    }
}

/// Meshing work selected from entry `i` on while budget `b` lasts:
/// a dirty chunk with an opaque block becomes a job and `Pending`; a
/// dirty chunk without one loses its stale drawable chunk and becomes
/// `Built` outright; others are passed over. Both outcomes consume
/// budget, as a processed dirty chunk.
pub open spec fn step_select(s: MgrState, i: int, b: int) -> (MgrState, Seq<
    (ChunkId, ChunkCoord, Seq<Block>),
>)
    decreases s.logic.len() - i,
{
    if i < 0 || i >= s.logic.len() || b <= 0 {
        (s, Seq::empty())
    } else {
        let e = s.logic[i];
        if e.1.status == TerrainStatus::Dirty {
            if exists|k: int| 0 <= k < e.1.blocks@.len() && e.1.blocks@[k].spec_opaque() {
                let s2 = MgrState {
                    logic: s.logic.update(
                        i,
                        (e.0, LogicChunk { blocks: e.1.blocks, status: TerrainStatus::Pending }),
                    ),
                    ..s
                };
                let r = step_select(s2, i + 1, b - 1);
                (r.0, seq![(e.0, e.0.spec_to_coord(), e.1.blocks@)] + r.1)
            } else {
                let s2 = MgrState {
                    logic: s.logic.update(
                        i,
                        (e.0, LogicChunk { blocks: e.1.blocks, status: TerrainStatus::Built }),
                    ),
                    terrain: assoc_remove(s.terrain, e.0),
                    gen: s.gen,
                };
                step_select(s2, i + 1, b - 1)
            }
        } else {
            step_select(s, i + 1, b)
        }
    }
}

/// Generation work selected from the area enumeration: an id neither
/// resident nor in flight is dispatched and recorded in flight, while
/// the per-tick budget lasts and the in-flight set stays below its
/// capacity.
pub open spec fn step_pick_gen(s: MgrState, ids: Seq<ChunkId>, j: int, b: int, cap: int) -> (
    MgrState,
    Seq<ChunkId>,
)
    decreases ids.len() - j,
{
    if j < 0 || j >= ids.len() || b <= 0 {
        (s, Seq::empty())
    } else {
        let id = ids[j];
        if s.gen.len() < cap && !assoc_has(s.logic, id) && !s.gen.contains(id) {
            let s2 = MgrState { gen: s.gen.push(id), ..s };
            let r = step_pick_gen(s2, ids, j + 1, b - 1, cap);
            (r.0, seq![id] + r.1)
        } else {
            step_pick_gen(s, ids, j + 1, b, cap)
        }
    }
}

/// Chunks whose id left the load area are unloaded from both maps.
pub open spec fn step_evict(s: MgrState, area: LoadArea) -> MgrState {
    MgrState {
        logic: assoc_keep(s.logic, area),
        terrain: assoc_keep(s.terrain, area),
        gen: s.gen,
    }
}

/// Everything one maintenance tick leaves behind.
pub struct MaintainOut {
    pub state: MgrState,
    pub built: Seq<ChunkId>,
    pub mesh_jobs: Seq<(ChunkId, ChunkCoord, Seq<Block>)>,
    pub gen_jobs: Seq<ChunkId>,
}

/// The whole maintenance tick: apply mesh results, apply generation
/// results, select meshing work, select generation work around the
/// observer, evict what left the load area.
pub open spec fn maintain_spec(
    s0: MgrState,
    mesh_rs: Seq<(ChunkCoord, TerrainMesh)>,
    gen_rs: Seq<(ChunkId, LogicChunk)>,
    observer: GlobalCoord,
    dd: int,
    bt: int,
    cc: int,
) -> MaintainOut {
    let s1 = step_mesh(s0, mesh_rs);
    let s2 = step_gen(s1, gen_rs);
    let sel = step_select(s2, 0, 8 * bt);
    let area = crate::area::spec_cuboid(observer.spec_to_chunk_id(), dd);
    let picked = step_pick_gen(sel.0, area.spec_ids(), 0, 4 * bt, cc);
    MaintainOut {
        state: step_evict(picked.0, area),
        built: built_ids(s0, mesh_rs),
        mesh_jobs: sel.1,
        gen_jobs: picked.1,
    }
}

/// The observer stands where the whole load area exists on the chunk
/// grid and every id in it has representable block positions.
pub open spec fn observer_ok(observer: GlobalCoord, dd: int) -> bool {
    let c = observer.spec_to_chunk_id();
    &&& -134217728 <= c.x - dd
    &&& c.x + dd <= 134217712
    &&& -134217728 <= c.y - dd
    &&& c.y + dd <= 134217712
    &&& -134217728 <= c.z - dd
    &&& c.z + dd <= 134217712
}

proof fn lemma_step_mesh_one_wf(s: MgrState, r: (ChunkCoord, TerrainMesh))
    requires
        st_wf(s),
    ensures
        st_wf(step_mesh_one(s, r)),
        step_mesh_one(s, r).gen == s.gen,
        forall|k: ChunkId| #![trigger assoc_has(step_mesh_one(s, r).logic, k)]
            assoc_has(step_mesh_one(s, r).logic, k) <==> assoc_has(s.logic, k),
        forall|k: ChunkId| #![trigger assoc_has(step_mesh_one(s, r).terrain, k)]
            assoc_has(step_mesh_one(s, r).terrain, k) ==> assoc_has(s.terrain, k) || assoc_has(
                s.logic,
                k,
            ),
{
    let id = r.0.spec_to_id();
    if assoc_has(s.logic, id) && assoc_get(s.logic, id).status == TerrainStatus::Pending {
        let v = LogicChunk { blocks: assoc_get(s.logic, id).blocks, status: TerrainStatus::Built };
        lemma_assoc_set(s.logic, id, v);
        lemma_assoc_set(s.terrain, id, TerrainChunk { mesh: r.1 });
        let t = step_mesh_one(s, r);
        assert forall|k: ChunkId| assoc_has(t.logic, k) implies assoc_get(t.logic, k).wf()
            && k.in_world_range() by {
            assert(assoc_has(assoc_set(s.logic, id, v), k));
            assert(assoc_has(s.logic, k));
            if k == id {
                assert(assoc_get(t.logic, k) == v);
            } else {
                assert(assoc_get(assoc_set(s.logic, id, v), k) == assoc_get(s.logic, k));
            }
        }
    }
}

proof fn lemma_step_mesh_wf(s: MgrState, rs: Seq<(ChunkCoord, TerrainMesh)>)
    requires
        st_wf(s),
    ensures
        st_wf(step_mesh(s, rs)),
        step_mesh(s, rs).gen == s.gen,
        forall|k: ChunkId| #![trigger assoc_has(step_mesh(s, rs).logic, k)]
            assoc_has(step_mesh(s, rs).logic, k) <==> assoc_has(s.logic, k),
        forall|k: ChunkId| #![trigger assoc_has(step_mesh(s, rs).terrain, k)]
            assoc_has(step_mesh(s, rs).terrain, k) ==> assoc_has(s.terrain, k) || assoc_has(
                s.logic,
                k,
            ),
    decreases rs.len(),
{
    if rs.len() > 0 {
        lemma_step_mesh_one_wf(s, rs[0]);
        lemma_step_mesh_wf(step_mesh_one(s, rs[0]), rs.drop_first());
    }
}

proof fn lemma_seq_remove_id(g: Seq<ChunkId>, id: ChunkId)
    requires
        ids_uniq(g),
    ensures
        ids_uniq(seq_remove_id(g, id)),
        forall|k: ChunkId| #![trigger seq_remove_id(g, id).contains(k)]
            seq_remove_id(g, id).contains(k) <==> (g.contains(k) && k != id),
        seq_remove_id(g, id).len() <= g.len(),
    decreases g.len(),
{
    let t = seq_remove_id(g, id);
    if g.len() == 0 {
        assert forall|k: ChunkId| #![trigger t.contains(k)] !t.contains(k) by {
            assert(t.len() == 0);
        }
    } else if g[0] == id {
        assert(t == g.drop_first());
        assert forall|i: int, j: int| 0 <= i < j < t.len() implies t[i] != t[j] by {
            assert(g[i + 1] != g[j + 1]);
        }
        assert forall|k: ChunkId| t.contains(k) implies (g.contains(k) && k != id) by {
            let w = choose|i: int| 0 <= i < t.len() && t[i] == k;
            assert(g[w + 1] == k);
            assert(g[0] != g[w + 1]);
        }
        assert forall|k: ChunkId| g.contains(k) && k != id implies t.contains(k) by {
            let w = choose|i: int| 0 <= i < g.len() && g[i] == k;
            assert(w > 0);
            assert(t[w - 1] == k);
        }
    } else {
        let g1 = g.drop_first();
        assert(ids_uniq(g1)) by {
            assert forall|i: int, j: int| 0 <= i < j < g1.len() implies g1[i] != g1[j] by {
                assert(g[i + 1] != g[j + 1]);
            }
        }
        lemma_seq_remove_id(g1, id);
        let t1 = seq_remove_id(g1, id);
        assert(t == seq![g[0]] + t1);
        assert forall|i: int, j: int| 0 <= i < j < t.len() implies t[i] != t[j] by {
            if i == 0 {
                assert(t[j] == t1[j - 1]);
                assert(t1.contains(t1[j - 1]));
                assert(g1.contains(t1[j - 1]));
                let w = choose|x: int| 0 <= x < g1.len() && g1[x] == t1[j - 1];
                assert(g[w + 1] == t1[j - 1]);
                assert(g[0] != g[w + 1]);
            } else {
                assert(t[i] == t1[i - 1] && t[j] == t1[j - 1]);
            }
        }
        assert forall|k: ChunkId| t.contains(k) implies (g.contains(k) && k != id) by {
            let w = choose|i: int| 0 <= i < t.len() && t[i] == k;
            if w == 0 {
                assert(g[0] == k);
                assert(g.contains(k));
            } else {
                assert(t1.contains(t1[w - 1]));
                assert(g1.contains(k));
                let u = choose|x: int| 0 <= x < g1.len() && g1[x] == k;
                assert(g[u + 1] == k);
                assert(g.contains(k));
            }
        }
        assert forall|k: ChunkId| g.contains(k) && k != id implies t.contains(k) by {
            let w = choose|i: int| 0 <= i < g.len() && g[i] == k;
            if w == 0 {
                assert(t[0] == k);
            } else {
                assert(g1[w - 1] == k);
                assert(g1.contains(k));
                assert(t1.contains(k));
                let u = choose|x: int| 0 <= x < t1.len() && t1[x] == k;
                assert(t[u + 1] == k);
            }
        }
    }
}

proof fn lemma_step_gen_one_wf(s: MgrState, r: (ChunkId, LogicChunk))
    requires
        st_wf(s),
        r.1.wf(),
        r.0.in_world_range(),
    ensures
        st_wf(step_gen_one(s, r)),
        step_gen_one(s, r).terrain == s.terrain,
        forall|k: ChunkId| #![trigger assoc_has(step_gen_one(s, r).logic, k)]
            assoc_has(step_gen_one(s, r).logic, k) <==> (assoc_has(s.logic, k) || k == r.0),
{
    lemma_assoc_set(s.logic, r.0, r.1);
    lemma_seq_remove_id(s.gen, r.0);
    let t = step_gen_one(s, r);
    assert forall|k: ChunkId| assoc_has(t.logic, k) implies assoc_get(t.logic, k).wf()
        && k.in_world_range() by {
        assert(assoc_has(assoc_set(s.logic, r.0, r.1), k));
        if k == r.0 {
            assert(assoc_get(t.logic, k) == r.1);
        } else {
            assert(assoc_has(s.logic, k));
            assert(assoc_get(assoc_set(s.logic, r.0, r.1), k) == assoc_get(s.logic, k));
        }
    }
}

proof fn lemma_step_gen_wf(s: MgrState, rs: Seq<(ChunkId, LogicChunk)>)
    requires
        st_wf(s),
        forall|k: int|
            0 <= k < rs.len() ==> (#[trigger] rs[k]).1.wf() && rs[k].0.in_world_range(),
    ensures
        st_wf(step_gen(s, rs)),
        step_gen(s, rs).terrain == s.terrain,
        forall|k: ChunkId| #![trigger assoc_has(step_gen(s, rs).logic, k)]
            assoc_has(s.logic, k) ==> assoc_has(step_gen(s, rs).logic, k),
    decreases rs.len(),
{
    if rs.len() > 0 {
        lemma_step_gen_one_wf(s, rs[0]);
        let s1 = step_gen_one(s, rs[0]);
        let rs1 = rs.drop_first();
        assert(forall|k: int|
            0 <= k < rs1.len() ==> (#[trigger] rs1[k]).1.wf() && rs1[k].0.in_world_range())
            by {
            assert forall|k: int|
                0 <= k < rs1.len() implies (#[trigger] rs1[k]).1.wf()
                && rs1[k].0.in_world_range() by {
                assert(rs1[k] == rs[k + 1]);
                assert(rs[k + 1].1.wf() && rs[k + 1].0.in_world_range());
            }
        }
        lemma_step_gen_wf(s1, rs1);
    }
}

proof fn lemma_step_select_wf(s: MgrState, i: int, b: int)
    requires
        st_wf(s),
    ensures
        st_wf(step_select(s, i, b).0),
        step_select(s, i, b).0.gen == s.gen,
        step_select(s, i, b).0.logic.len() == s.logic.len(),
        forall|k: int|
            0 <= k < s.logic.len() ==> (#[trigger] step_select(s, i, b).0.logic[k]).0
                == s.logic[k].0,
        forall|k: ChunkId| #![trigger assoc_has(step_select(s, i, b).0.terrain, k)]
            assoc_has(step_select(s, i, b).0.terrain, k) ==> assoc_has(s.terrain, k),
    decreases s.logic.len() - i,
{
    if !(i < 0 || i >= s.logic.len() || b <= 0) {
        let e = s.logic[i];
        if e.1.status == TerrainStatus::Dirty {
            lemma_assoc_pos(s.logic, e.0, i);
            if exists|k: int| 0 <= k < e.1.blocks@.len() && e.1.blocks@[k].spec_opaque() {
                let v = LogicChunk { blocks: e.1.blocks, status: TerrainStatus::Pending };
                let s2 = MgrState { logic: s.logic.update(i, (e.0, v)), ..s };
                assert(s2.logic == assoc_set(s.logic, e.0, v));
                lemma_assoc_set(s.logic, e.0, v);
                assert(st_wf(s2)) by {
                    assert forall|k: ChunkId| assoc_has(s2.logic, k) implies assoc_get(
                        s2.logic,
                        k,
                    ).wf() && k.in_world_range() by {
                        assert(assoc_has(assoc_set(s.logic, e.0, v), k));
                        assert(assoc_has(s.logic, k));
                        if k == e.0 {
                            assert(assoc_get(s2.logic, k) == v);
                            assert(assoc_get(s.logic, e.0) == e.1);
                        } else {
                            assert(assoc_get(assoc_set(s.logic, e.0, v), k) == assoc_get(
                                s.logic,
                                k,
                            ));
                        }
                    }
                }
                lemma_step_select_wf(s2, i + 1, b - 1);
            } else {
                let v = LogicChunk { blocks: e.1.blocks, status: TerrainStatus::Built };
                let s2 = MgrState {
                    logic: s.logic.update(i, (e.0, v)),
                    terrain: assoc_remove(s.terrain, e.0),
                    gen: s.gen,
                };
                assert(s2.logic == assoc_set(s.logic, e.0, v));
                lemma_assoc_set(s.logic, e.0, v);
                lemma_assoc_remove(s.terrain, e.0);
                assert(st_wf(s2)) by {
                    assert forall|k: ChunkId| assoc_has(s2.logic, k) implies assoc_get(
                        s2.logic,
                        k,
                    ).wf() && k.in_world_range() by {
                        assert(assoc_has(assoc_set(s.logic, e.0, v), k));
                        assert(assoc_has(s.logic, k));
                        if k == e.0 {
                            assert(assoc_get(s2.logic, k) == v);
                            assert(assoc_get(s.logic, e.0) == e.1);
                        } else {
                            assert(assoc_get(assoc_set(s.logic, e.0, v), k) == assoc_get(
                                s.logic,
                                k,
                            ));
                        }
                    }
                }
                lemma_step_select_wf(s2, i + 1, b - 1);
            }
        } else {
            lemma_step_select_wf(s, i + 1, b);
        }
    }
}

proof fn lemma_step_pick_gen_wf(s: MgrState, ids: Seq<ChunkId>, j: int, b: int, cap: int)
    requires
        st_wf(s),
    ensures
        st_wf(step_pick_gen(s, ids, j, b, cap).0),
        step_pick_gen(s, ids, j, b, cap).0.logic == s.logic,
        step_pick_gen(s, ids, j, b, cap).0.terrain == s.terrain,
    decreases ids.len() - j,
{
    if !(j < 0 || j >= ids.len() || b <= 0) {
        let id = ids[j];
        if s.gen.len() < cap && !assoc_has(s.logic, id) && !s.gen.contains(id) {
            let s2 = MgrState { gen: s.gen.push(id), ..s };
            assert(ids_uniq(s2.gen)) by {
                assert forall|x: int, y: int| 0 <= x < y < s2.gen.len() implies s2.gen[x]
                    != s2.gen[y] by {
                    if y == s.gen.len() {
                        assert(s2.gen[y] == id);
                        assert(s.gen[x] == s2.gen[x]);
                        if s2.gen[x] == id {
                            assert(s.gen.contains(id));
                        }
                    }
                }
            }
            lemma_step_pick_gen_wf(s2, ids, j + 1, b - 1, cap);
        } else {
            lemma_step_pick_gen_wf(s, ids, j + 1, b, cap);
        }
    }
}

proof fn lemma_step_evict_wf(s: MgrState, area: LoadArea)
    requires
        st_wf(s),
    ensures
        st_wf(step_evict(s, area)),
{
    lemma_assoc_keep(s.logic, area);
    lemma_assoc_keep(s.terrain, area);
    assert forall|k: ChunkId| assoc_has(step_evict(s, area).logic, k) implies assoc_get(
        step_evict(s, area).logic,
        k,
    ).wf() && k.in_world_range() by {
        assert(assoc_has(s.logic, k));
        assert(assoc_get(assoc_keep(s.logic, area), k) == assoc_get(s.logic, k));
    }
}

proof fn lemma_seq_remove_id_at(g: Seq<ChunkId>, id: ChunkId, j: int)
    requires
        0 <= j < g.len(),
        g[j] == id,
        forall|k: int| 0 <= k < j ==> g[k] != id,
    ensures
        seq_remove_id(g, id) == g.remove(j),
    decreases j,
{
    if j == 0 {
        assert(seq_remove_id(g, id) =~= g.remove(0));
    } else {
        let g1 = g.drop_first();
        assert forall|k: int| 0 <= k < j - 1 implies g1[k] != id by {
            assert(g1[k] == g[k + 1]);
        }
        assert(g1[j - 1] == id);
        lemma_seq_remove_id_at(g1, id, j - 1);
        assert(seq![g[0]] + g1.remove(j - 1) =~= g.remove(j));
    }
}

proof fn lemma_seq_remove_id_absent(g: Seq<ChunkId>, id: ChunkId)
    requires
        forall|k: int| 0 <= k < g.len() ==> g[k] != id,
    ensures
        seq_remove_id(g, id) == g,
    decreases g.len(),
{
    if g.len() > 0 {
        let g1 = g.drop_first();
        assert forall|k: int| 0 <= k < g1.len() implies g1[k] != id by {
            assert(g1[k] == g[k + 1]);
        }
        lemma_seq_remove_id_absent(g1, id);
        assert(seq![g[0]] + g1 =~= g);
    }
}

/// Removes the first occurrence of `id`, if any.
fn vec_remove_id(v: &mut Vec<ChunkId>, id: ChunkId)
    ensures
        final(v)@ == seq_remove_id(old(v)@, id),
{
    let mut i: usize = 0;
    while i < v.len()
        invariant
            i <= v@.len(),
            v@ == old(v)@,
            forall|k: int| 0 <= k < i ==> v@[k] != id,
        decreases v@.len() - i,
    {
        if v[i] == id {
            proof {
                lemma_seq_remove_id_at(v@, id, i as int);
            }
            v.remove(i);
            return;
        }
        i = i + 1;
    }
    proof {
        lemma_seq_remove_id_absent(v@, id);
    }
}

/// Whether `id` occurs in the vector.
fn vec_contains_id(v: &Vec<ChunkId>, id: ChunkId) -> (r: bool)
    ensures
        r == v@.contains(id),
{
    let mut i: usize = 0;
    while i < v.len()
        invariant
            i <= v@.len(),
            forall|k: int| 0 <= k < i ==> v@[k] != id,
        decreases v@.len() - i,
    {
        if v[i] == id {
            return true;
        }
        i = i + 1;
    }
    false
}

/// The single stateful orchestrator of chunk streaming: it owns the
/// logical and drawable chunk maps, tracks in-flight generation, and
/// decides each tick what to mesh, what to generate and what to
/// unload. Pool sizing is passed in once at construction.
pub struct ChunkManager {
    pub draw_distance: u16,
    pub blocking_threads: usize,
    pub cpu_cores: usize,
    pub chunk_gen_ids: Vec<ChunkId>,
    pub logic: ChunkMap<LogicChunk>,
    pub terrain: ChunkMap<TerrainChunk>,
}

impl ChunkManager {
    pub const MIN_DRAW_DISTANCE: u16 = 2;

    pub const MAX_DRAW_DISTANCE: u16 = 256;

    /// The manager's mutable state as a mathematical value.
    pub open spec fn model(self) -> MgrState {
        MgrState { logic: self.logic@, terrain: self.terrain@, gen: self.chunk_gen_ids@ }
    }

    /// Well-formed manager: sound state and configuration within the
    /// bounds the budgets are computed under.
    pub open spec fn wf(self) -> bool {
        &&& st_wf(self.model())
        &&& 1 <= self.draw_distance <= 256
        &&& 1 <= self.blocking_threads <= 8192
        &&& 1 <= self.cpu_cores <= 65536
    }

    /// A fresh manager with empty maps, the minimum draw distance and
    /// the given pool sizing.
    pub fn new(blocking_threads: usize, cpu_cores: usize) -> (r: Self)
        requires
            1 <= blocking_threads <= 8192,
            1 <= cpu_cores <= 65536,
        ensures
            r.wf(),
            r.draw_distance == 2,
            r.blocking_threads == blocking_threads,
            r.cpu_cores == cpu_cores,
            r.model().logic == Seq::<(ChunkId, LogicChunk)>::empty(),
            r.model().terrain == Seq::<(ChunkId, TerrainChunk)>::empty(),
            r.model().gen == Seq::<ChunkId>::empty(),
    {
        ChunkManager {
            draw_distance: Self::MIN_DRAW_DISTANCE,
            blocking_threads,
            cpu_cores,
            chunk_gen_ids: Vec::new(),
            logic: ChunkMap::new(),
            terrain: ChunkMap::new(),
        }
    }

    /// Releases spare backing storage of both maps; a memory
    /// reclamation hint with no observable effect on the state.
    pub fn cleanup(&mut self)
        ensures
            final(self).model() == old(self).model(),
            final(self).draw_distance == old(self).draw_distance,
            final(self).blocking_threads == old(self).blocking_threads,
            final(self).cpu_cores == old(self).cpu_cores,
    {
        self.logic.shrink_to_fit();
        self.terrain.shrink_to_fit();
    }

    /// Marks every chunk dirty and drops every drawable chunk, forcing
    /// a full remesh over the following ticks.
    pub fn clear_mesh(&mut self)
        requires
            old(self).wf(),
        ensures
            final(self).wf(),
            final(self).draw_distance == old(self).draw_distance,
            final(self).blocking_threads == old(self).blocking_threads,
            final(self).cpu_cores == old(self).cpu_cores,
            final(self).model().terrain == Seq::<(ChunkId, TerrainChunk)>::empty(),
            final(self).model().gen == old(self).model().gen,
            final(self).model().logic.len() == old(self).model().logic.len(),
            forall|k: int|
                0 <= k < old(self).model().logic.len() ==> {
                    let oe = old(self).model().logic[k];
                    #[trigger] final(self).model().logic[k] == (oe.0, LogicChunk {
                        blocks: oe.1.blocks,
                        status: TerrainStatus::Dirty,
                    })
                },
    {
        let ghost orig = self.logic@;
        let mut i: usize = 0;
        while i < self.logic.len()
            invariant
                self.logic@.len() == orig.len(),
                i <= orig.len(),
                self.draw_distance == old(self).draw_distance,
                self.blocking_threads == old(self).blocking_threads,
                self.cpu_cores == old(self).cpu_cores,
                self.terrain@ == old(self).terrain@,
                self.chunk_gen_ids@ == old(self).chunk_gen_ids@,
                forall|k: int|
                    0 <= k < i ==> #[trigger] self.logic@[k] == (orig[k].0, LogicChunk {
                        blocks: orig[k].1.blocks,
                        status: TerrainStatus::Dirty,
                    }),
                forall|k: int| i <= k < orig.len() ==> #[trigger] self.logic@[k] == orig[k],
            decreases orig.len() - i,
        {
            let c = self.logic.value_at_mut(i);
            c.status = TerrainStatus::Dirty;
            i = i + 1;
        }
        self.terrain.clear();
        proof {
            lemma_keys_preserved(orig, self.logic@);
            assert forall|k: ChunkId| assoc_has(self.logic@, k) implies assoc_get(
                self.logic@,
                k,
            ).wf() && k.in_world_range() by {
                assert(assoc_has(orig, k));
                let p = assoc_pos(orig, k);
                assert(assoc_pos(self.logic@, k) == p);
                assert(orig[p].1.wf());
            }
        }
    }

    /// One maintenance tick. Applies the drained mesh and generation
    /// results, selects meshing work for dirty chunks and generation
    /// work for missing ids around the observer within the configured
    /// budgets, and evicts chunks that left the load area. Returns the
    /// work for the surrounding runtime to dispatch.
    ///
    /// The tick equals `maintain_spec` on the state model;
    /// `lemma_no_duplicate_dispatch`, `lemma_eviction_consistency` and
    /// `lemma_drawn_covered_preserved` state the laws every tick obeys.
    pub fn maintain(
        &mut self,
        observer: GlobalCoord,
        mesh_results: Vec<(ChunkCoord, TerrainMesh)>,
        gen_results: Vec<(ChunkId, LogicChunk)>,
    ) -> (acts: MaintainActions)
        requires
            old(self).wf(),
            observer_ok(observer, old(self).draw_distance as int),
            forall|k: int|
                0 <= k < gen_results@.len() ==> (#[trigger] gen_results@[k]).1.wf()
                    && gen_results@[k].0.in_world_range(),
        ensures
            final(self).wf(),
            final(self).draw_distance == old(self).draw_distance,
            final(self).blocking_threads == old(self).blocking_threads,
            final(self).cpu_cores == old(self).cpu_cores,
            ({
                let out = maintain_spec(
                    old(self).model(),
                    mesh_results@,
                    gen_results@,
                    observer,
                    old(self).draw_distance as int,
                    old(self).blocking_threads as int,
                    old(self).cpu_cores as int,
                );
                &&& final(self).model() == out.state
                &&& acts.built@ == out.built
                &&& acts.mesh_jobs@.map_values(|j: MeshJob| job_view(j)) == out.mesh_jobs
                &&& acts.gen_jobs@ == out.gen_jobs
            }),
    {
        let ghost s0 = old(self).model();
        let ghost rs_mesh = mesh_results@;
        let ghost rs_gen = gen_results@;

        // Apply drained mesh results, discarding stale ones.
        let mut mesh_results = mesh_results;
        let mut built: Vec<ChunkId> = Vec::new();
        proof {
            assert(built@ + built_ids(s0, rs_mesh) =~= built_ids(s0, rs_mesh));
        }
        while mesh_results.len() > 0
            invariant
                st_wf(self.model()),
                self.draw_distance == old(self).draw_distance,
                self.blocking_threads == old(self).blocking_threads,
                self.cpu_cores == old(self).cpu_cores,
                self.chunk_gen_ids@ == s0.gen,
                step_mesh(self.model(), mesh_results@) == step_mesh(s0, rs_mesh),
                built@ + built_ids(self.model(), mesh_results@) == built_ids(s0, rs_mesh),
            decreases mesh_results@.len(),
        {
            let ghost pre = self.model();
            let ghost rs_pre = mesh_results@;
            let (coord, mesh) = mesh_results.remove(0);
            proof {
                assert(mesh_results@ =~= rs_pre.drop_first());
            }
            let id = coord.to_id();
            let ghost applied = assoc_has(pre.logic, id) && assoc_get(pre.logic, id).status
                == TerrainStatus::Pending;
            match self.logic.position(id) {
                Some(i) => {
                    proof {
                        lemma_assoc_pos(pre.logic, id, i as int);
                    }
                    let pending = matches!(self.logic.value_at(i).status, TerrainStatus::Pending);
                    if pending {
                        self.terrain.insert(id, TerrainChunk::new(mesh));
                        let c = self.logic.value_at_mut(i);
                        c.status = TerrainStatus::Built;
                        built.push(id);
                        proof {
                            assert(applied);
                            let v = LogicChunk {
                                blocks: assoc_get(pre.logic, id).blocks,
                                status: TerrainStatus::Built,
                            };
                            assert(self.logic@ == assoc_set(pre.logic, id, v));
                            assert(self.model() == step_mesh_one(pre, rs_pre[0]));
                        }
                    } else {
                        proof {
                            assert(!applied);
                            assert(self.model() == step_mesh_one(pre, rs_pre[0]));
                        }
                    }
                },
                None => {
                    proof {
                        assert(!applied);
                        assert(self.model() == step_mesh_one(pre, rs_pre[0]));
                    }
                },
            }
            proof {
                lemma_step_mesh_one_wf(pre, rs_pre[0]);
                assert(step_mesh(pre, rs_pre) == step_mesh(self.model(), mesh_results@));
                if applied {
                    assert(built_ids(pre, rs_pre) == seq![id] + built_ids(
                        self.model(),
                        mesh_results@,
                    ));
                    assert(built@.drop_last() + (seq![id] + built_ids(
                        self.model(),
                        mesh_results@,
                    )) =~= built@ + built_ids(self.model(), mesh_results@));
                } else {
                    assert(built_ids(pre, rs_pre) =~= Seq::<ChunkId>::empty() + built_ids(
                        self.model(),
                        mesh_results@,
                    ));
                    assert(built_ids(pre, rs_pre) == built_ids(self.model(), mesh_results@));
                }
            }
        }
        let ghost s1 = self.model();
        proof {
            assert(step_mesh(s1, mesh_results@) == s1);
            assert(s1 == step_mesh(s0, rs_mesh));
            assert(built@ + built_ids(s1, mesh_results@) =~= built@);
            assert(built@ == built_ids(s0, rs_mesh));
        }

        // Apply drained generation results.
        let mut gen_results = gen_results;
        while gen_results.len() > 0
            invariant
                st_wf(self.model()),
                self.draw_distance == old(self).draw_distance,
                self.blocking_threads == old(self).blocking_threads,
                self.cpu_cores == old(self).cpu_cores,
                forall|k: int|
                    0 <= k < gen_results@.len() ==> (#[trigger] gen_results@[k]).1.wf()
                        && gen_results@[k].0.in_world_range(),
                step_gen(self.model(), gen_results@) == step_gen(s1, rs_gen),
            decreases gen_results@.len(),
        {
            let ghost pre = self.model();
            let ghost rs_pre = gen_results@;
            let (id, chunk) = gen_results.remove(0);
            proof {
                assert(gen_results@ =~= rs_pre.drop_first());
                assert forall|k: int|
                    0 <= k < gen_results@.len() implies (#[trigger] gen_results@[k]).1.wf()
                    && gen_results@[k].0.in_world_range() by {
                    assert(gen_results@[k] == rs_pre[k + 1]);
                    assert(rs_pre[k + 1].1.wf() && rs_pre[k + 1].0.in_world_range());
                }
            }
            vec_remove_id(&mut self.chunk_gen_ids, id);
            self.logic.insert(id, chunk);
            proof {
                assert(self.model() == step_gen_one(pre, rs_pre[0]));
                lemma_step_gen_one_wf(pre, rs_pre[0]);
                assert(step_gen(pre, rs_pre) == step_gen(self.model(), gen_results@));
            }
        }
        let ghost s2 = self.model();
        proof {
            assert(s2 == step_gen(s1, rs_gen));
        }

        // Select meshing work for dirty chunks, within the budget.
        let ghost sel = step_select(s2, 0, 8 * old(self).blocking_threads as int);
        let mut mesh_jobs: Vec<MeshJob> = Vec::new();
        let mut b: usize = self.blocking_threads * 8;
        let mut i: usize = 0;
        proof {
            assert(mesh_jobs@.map_values(|j: MeshJob| job_view(j)) + sel.1 =~= sel.1);
        }
        while i < self.logic.len() && b > 0
            invariant
                st_wf(self.model()),
                self.draw_distance == old(self).draw_distance,
                self.blocking_threads == old(self).blocking_threads,
                self.cpu_cores == old(self).cpu_cores,
                i <= self.logic@.len(),
                step_select(self.model(), i as int, b as int).0 == sel.0,
                mesh_jobs@.map_values(|j: MeshJob| job_view(j)) + step_select(
                    self.model(),
                    i as int,
                    b as int,
                ).1 == sel.1,
            decreases self.logic@.len() - i,
        {
            let ghost pre = self.model();
            let ghost e = pre.logic[i as int];
            let dirty = matches!(self.logic.value_at(i).status, TerrainStatus::Dirty);
            if dirty {
                proof {
                    lemma_assoc_pos(pre.logic, e.0, i as int);
                    assert(assoc_has(pre.logic, e.0));
                }
                if self.logic.value_at(i).has_opaque() {
                    let id = self.logic.key_at(i);
                    let blocks = self.logic.value_at(i).snapshot();
                    let coord = id.to_coord();
                    mesh_jobs.push(MeshJob { id, coord, blocks });
                    let c = self.logic.value_at_mut(i);
                    c.status = TerrainStatus::Pending;
                    b = b - 1;
                    proof {
                        lemma_select_one_wf(pre, i as int, TerrainStatus::Pending);
                        let v = LogicChunk { blocks: e.1.blocks, status: TerrainStatus::Pending };
                        assert(self.logic@ == pre.logic.update(i as int, (e.0, v)));
                        assert(step_select(pre, i as int, b + 1).0 == step_select(
                            self.model(),
                            i + 1,
                            b as int,
                        ).0);
                        assert(step_select(pre, i as int, b + 1).1 == seq![
                            (e.0, e.0.spec_to_coord(), e.1.blocks@),
                        ] + step_select(self.model(), i + 1, b as int).1);
                        assert(job_view(MeshJob { id, coord, blocks }) == (
                            e.0,
                            e.0.spec_to_coord(),
                            e.1.blocks@,
                        ));
                        assert(mesh_jobs@.map_values(|j: MeshJob| job_view(j))
                            =~= mesh_jobs@.drop_last().map_values(|j: MeshJob| job_view(j)).push(
                            (e.0, e.0.spec_to_coord(), e.1.blocks@),
                        ));
                        assert(mesh_jobs@.map_values(|j: MeshJob| job_view(j)) + step_select(
                            self.model(),
                            i + 1,
                            b as int,
                        ).1 =~= mesh_jobs@.drop_last().map_values(|j: MeshJob| job_view(j))
                            + step_select(pre, i as int, b + 1).1);
                    }
                } else {
                    let id = self.logic.key_at(i);
                    self.terrain.remove(id);
                    let c = self.logic.value_at_mut(i);
                    c.status = TerrainStatus::Built;
                    b = b - 1;
                    proof {
                        lemma_select_one_wf(pre, i as int, TerrainStatus::Built);
                        let v = LogicChunk { blocks: e.1.blocks, status: TerrainStatus::Built };
                        assert(self.logic@ == pre.logic.update(i as int, (e.0, v)));
                        assert(self.terrain@ == assoc_remove(pre.terrain, e.0));
                        assert(step_select(pre, i as int, b + 1) == step_select(
                            self.model(),
                            i + 1,
                            b as int,
                        ));
                    }
                }
            } else {
                proof {
                    assert(step_select(pre, i as int, b as int) == step_select(
                        self.model(),
                        i + 1,
                        b as int,
                    ));
                }
            }
            i = i + 1;
        }
        let ghost s3 = self.model();
        proof {
            assert(step_select(s3, i as int, b as int) == (s3, Seq::<
                (ChunkId, ChunkCoord, Seq<Block>),
            >::empty()));
            assert(s3 == sel.0);
            assert(mesh_jobs@.map_values(|j: MeshJob| job_view(j)) + Seq::<
                (ChunkId, ChunkCoord, Seq<Block>),
            >::empty() =~= mesh_jobs@.map_values(|j: MeshJob| job_view(j)));
            assert(mesh_jobs@.map_values(|j: MeshJob| job_view(j)) == sel.1);
        }

        // Select generation work for missing ids around the observer.
        let center = observer.to_chunk_id();
        let dist: i32 = self.draw_distance as i32;
        let area = LoadArea::new_cuboid(center, dist);
        let ids = area.ids();
        let ghost picked = step_pick_gen(
            s3,
            area.spec_ids(),
            0,
            4 * old(self).blocking_threads as int,
            old(self).cpu_cores as int,
        );
        let mut gen_jobs: Vec<ChunkId> = Vec::new();
        let mut gb: usize = self.blocking_threads * 4;
        let mut j: usize = 0;
        proof {
            assert(gen_jobs@ + picked.1 =~= picked.1);
        }
        while j < ids.len() && gb > 0
            invariant
                st_wf(self.model()),
                self.draw_distance == old(self).draw_distance,
                self.blocking_threads == old(self).blocking_threads,
                self.cpu_cores == old(self).cpu_cores,
                j <= ids@.len(),
                ids@ == area.spec_ids(),
                self.logic@ == s3.logic,
                self.terrain@ == s3.terrain,
                step_pick_gen(self.model(), ids@, j as int, gb as int, self.cpu_cores as int).0
                    == picked.0,
                gen_jobs@ + step_pick_gen(
                    self.model(),
                    ids@,
                    j as int,
                    gb as int,
                    self.cpu_cores as int,
                ).1 == picked.1,
            decreases ids@.len() - j,
        {
            let ghost pre = self.model();
            let id = ids[j];
            let free = self.chunk_gen_ids.len() < self.cpu_cores;
            if free && !self.logic.contains_id(id) && !vec_contains_id(&self.chunk_gen_ids, id) {
                self.chunk_gen_ids.push(id);
                gen_jobs.push(id);
                gb = gb - 1;
                proof {
                    assert(self.model() == MgrState { gen: pre.gen.push(id), ..pre });
                    assert(step_pick_gen(pre, ids@, j as int, gb + 1, self.cpu_cores as int).0
                        == step_pick_gen(
                        self.model(),
                        ids@,
                        j + 1,
                        gb as int,
                        self.cpu_cores as int,
                    ).0);
                    assert(step_pick_gen(pre, ids@, j as int, gb + 1, self.cpu_cores as int).1
                        == seq![id] + step_pick_gen(
                        self.model(),
                        ids@,
                        j + 1,
                        gb as int,
                        self.cpu_cores as int,
                    ).1);
                    assert(gen_jobs@ =~= gen_jobs@.drop_last().push(id));
                    assert(gen_jobs@ + step_pick_gen(
                        self.model(),
                        ids@,
                        j + 1,
                        gb as int,
                        self.cpu_cores as int,
                    ).1 =~= gen_jobs@.drop_last() + (seq![id] + step_pick_gen(
                        self.model(),
                        ids@,
                        j + 1,
                        gb as int,
                        self.cpu_cores as int,
                    ).1));
                    assert(ids_uniq(self.model().gen)) by {
                        assert forall|x: int, y: int|
                            0 <= x < y < self.model().gen.len() implies self.model().gen[x]
                            != self.model().gen[y] by {
                            if y == pre.gen.len() {
                                if self.model().gen[x] == id {
                                    assert(pre.gen.contains(id));
                                }
                            }
                        }
                    }
                }
            } else {
                proof {
                    assert(step_pick_gen(pre, ids@, j as int, gb as int, self.cpu_cores as int)
                        == step_pick_gen(
                        self.model(),
                        ids@,
                        j + 1,
                        gb as int,
                        self.cpu_cores as int,
                    ));
                }
            }
            j = j + 1;
        }
        proof {
            assert(step_pick_gen(
                self.model(),
                ids@,
                j as int,
                gb as int,
                self.cpu_cores as int,
            ) == (self.model(), Seq::<ChunkId>::empty()));
            assert(self.model() == picked.0);
            assert(gen_jobs@ + Seq::<ChunkId>::empty() =~= gen_jobs@);
            assert(gen_jobs@ == picked.1);
        }

        // Unload chunks that left the load area.
        let ghost s4 = self.model();
        self.logic.retain_area(&area);
        self.terrain.retain_area(&area);
        proof {
            lemma_step_evict_wf(s4, area);
            assert(self.model() == step_evict(s4, area));
        }

        MaintainActions { built, mesh_jobs, gen_jobs }
    }
}

proof fn lemma_select_one_wf(s: MgrState, i: int, st: TerrainStatus)
    requires
        st_wf(s),
        0 <= i < s.logic.len(),
    ensures
        st_wf(
            MgrState {
                logic: s.logic.update(
                    i,
                    (s.logic[i].0, LogicChunk { blocks: s.logic[i].1.blocks, status: st }),
                ),
                terrain: s.terrain,
                gen: s.gen,
            },
        ),
        st_wf(
            MgrState {
                logic: s.logic.update(
                    i,
                    (s.logic[i].0, LogicChunk { blocks: s.logic[i].1.blocks, status: st }),
                ),
                terrain: assoc_remove(s.terrain, s.logic[i].0),
                gen: s.gen,
            },
        ),
{
    let e = s.logic[i];
    lemma_assoc_pos(s.logic, e.0, i);
    lemma_assoc_remove(s.terrain, e.0);
    let v = LogicChunk { blocks: e.1.blocks, status: st };
    assert(s.logic.update(i, (e.0, v)) == assoc_set(s.logic, e.0, v));
    lemma_assoc_set(s.logic, e.0, v);
    let t = assoc_set(s.logic, e.0, v);
    assert forall|k: ChunkId| assoc_has(t, k) implies assoc_get(t, k).wf()
        && k.in_world_range() by {
        assert(assoc_has(s.logic, k));
        if k == e.0 {
            assert(assoc_get(t, k) == v);
            assert(assoc_get(s.logic, e.0) == e.1);
        } else {
            assert(assoc_get(t, k) == assoc_get(s.logic, k));
        }
    }
}

proof fn lemma_pick_gen_props(s: MgrState, ids: Seq<ChunkId>, j: int, b: int, cap: int)
    ensures
        ({
            let r = step_pick_gen(s, ids, j, b, cap);
            &&& r.0.logic == s.logic
            &&& r.0.terrain == s.terrain
            &&& r.0.gen == s.gen + r.1
            &&& forall|a: int, c: int| 0 <= a < c < r.1.len() ==> r.1[a] != r.1[c]
            &&& forall|a: int|
                0 <= a < r.1.len() ==> !s.gen.contains(#[trigger] r.1[a]) && !assoc_has(
                    s.logic,
                    r.1[a],
                )
        }),
    decreases ids.len() - j,
{
    let r = step_pick_gen(s, ids, j, b, cap);
    if j < 0 || j >= ids.len() || b <= 0 {
        assert(s.gen + r.1 =~= s.gen);
    } else {
        let id = ids[j];
        if s.gen.len() < cap && !assoc_has(s.logic, id) && !s.gen.contains(id) {
            let s2 = MgrState { gen: s.gen.push(id), ..s };
            lemma_pick_gen_props(s2, ids, j + 1, b - 1, cap);
            let r2 = step_pick_gen(s2, ids, j + 1, b - 1, cap);
            assert(r.1 == seq![id] + r2.1);
            assert(r.0.gen == s2.gen + r2.1);
            assert(s.gen + r.1 =~= s.gen.push(id) + r2.1);
            assert forall|a: int|
                0 <= a < r2.1.len() implies r2.1[a] != id && !s.gen.contains(#[trigger] r2.1[a])
                && !assoc_has(s.logic, r2.1[a]) by {
                assert(!s2.gen.contains(r2.1[a]));
                assert(s2.gen[s.gen.len() as int] == id);
                if r2.1[a] == id {
                    assert(s2.gen.contains(id));
                }
                if s.gen.contains(r2.1[a]) {
                    let w = choose|x: int| 0 <= x < s.gen.len() && s.gen[x] == r2.1[a];
                    assert(s2.gen[w] == r2.1[a]);
                }
            }
            assert forall|a: int, c: int| 0 <= a < c < r.1.len() implies r.1[a] != r.1[c] by {
                if a == 0 {
                    assert(r.1[c] == r2.1[c - 1]);
                } else {
                    assert(r.1[a] == r2.1[a - 1] && r.1[c] == r2.1[c - 1]);
                }
            }
        } else {
            lemma_pick_gen_props(s, ids, j + 1, b, cap);
        }
    }
}

/// A selected meshing job is sound: some entry at or past `lo` in the
/// pre-selection state is the dirty chunk it was taken from, and that
/// entry stands `Pending` in the post-selection state.
pub open spec fn selected_job_ok(
    s: MgrState,
    lo: int,
    t: MgrState,
    jb: (ChunkId, ChunkCoord, Seq<Block>),
) -> bool {
    exists|k: int|
        #![trigger s.logic[k]]
        lo <= k < s.logic.len() && s.logic[k].0 == jb.0 && s.logic[k].1.status
            == TerrainStatus::Dirty && jb.1 == s.logic[k].0.spec_to_coord() && jb.2
            == s.logic[k].1.blocks@ && t.logic[k].1.status == TerrainStatus::Pending
}

proof fn lemma_job_ok_mono(
    s2: MgrState,
    s: MgrState,
    lo2: int,
    lo: int,
    t: MgrState,
    jb: (ChunkId, ChunkCoord, Seq<Block>),
)
    requires
        selected_job_ok(s2, lo2, t, jb),
        lo <= lo2,
        s.logic.len() == s2.logic.len(),
        forall|k: int| lo2 <= k < s2.logic.len() ==> s.logic[k] == s2.logic[k],
    ensures
        selected_job_ok(s, lo, t, jb),
{
    let k = choose|k: int|
        #![trigger s2.logic[k]]
        lo2 <= k < s2.logic.len() && s2.logic[k].0 == jb.0 && s2.logic[k].1.status
            == TerrainStatus::Dirty && jb.1 == s2.logic[k].0.spec_to_coord() && jb.2
            == s2.logic[k].1.blocks@ && t.logic[k].1.status == TerrainStatus::Pending;
    assert(s.logic[k] == s2.logic[k]);
}

proof fn lemma_job_ok_key_ne(
    s: MgrState,
    lo: int,
    t: MgrState,
    jb: (ChunkId, ChunkCoord, Seq<Block>),
    i: int,
)
    requires
        selected_job_ok(s, lo, t, jb),
        assoc_uniq(s.logic),
        0 <= i < lo,
    ensures
        jb.0 != s.logic[i].0,
{
    let k = choose|k: int|
        #![trigger s.logic[k]]
        lo <= k < s.logic.len() && s.logic[k].0 == jb.0 && s.logic[k].1.status
            == TerrainStatus::Dirty && jb.1 == s.logic[k].0.spec_to_coord() && jb.2
            == s.logic[k].1.blocks@ && t.logic[k].1.status == TerrainStatus::Pending;
    assert(s.logic[i].0 != s.logic[k].0);
}

proof fn lemma_job_ok_lookup(
    s: MgrState,
    lo: int,
    t: MgrState,
    jb: (ChunkId, ChunkCoord, Seq<Block>),
)
    requires
        0 <= lo,
        selected_job_ok(s, lo, t, jb),
        assoc_uniq(s.logic),
        t.logic.len() == s.logic.len(),
        forall|k: int| 0 <= k < s.logic.len() ==> (#[trigger] t.logic[k]).0 == s.logic[k].0,
    ensures
        assoc_has(s.logic, jb.0),
        assoc_get(s.logic, jb.0).status == TerrainStatus::Dirty,
        assoc_has(t.logic, jb.0),
        assoc_get(t.logic, jb.0).status == TerrainStatus::Pending,
{
    let k = choose|k: int|
        #![trigger s.logic[k]]
        lo <= k < s.logic.len() && s.logic[k].0 == jb.0 && s.logic[k].1.status
            == TerrainStatus::Dirty && jb.1 == s.logic[k].0.spec_to_coord() && jb.2
            == s.logic[k].1.blocks@ && t.logic[k].1.status == TerrainStatus::Pending;
    lemma_assoc_pos(s.logic, jb.0, k);
    assert(assoc_uniq(t.logic)) by {
        assert forall|x: int, y: int| 0 <= x < y < t.logic.len() implies (#[trigger] t.logic[x]).0
            != (#[trigger] t.logic[y]).0 by {
            assert(s.logic[x].0 != s.logic[y].0);
        }
    }
    assert(t.logic[k].0 == jb.0);
    lemma_assoc_pos(t.logic, jb.0, k);
}

proof fn lemma_select_props(s: MgrState, i: int, b: int)
    requires
        assoc_uniq(s.logic),
    ensures
        ({
            let r = step_select(s, i, b);
            &&& r.0.logic.len() == s.logic.len()
            &&& forall|k: int|
                0 <= k < s.logic.len() ==> (#[trigger] r.0.logic[k]).0 == s.logic[k].0
            &&& forall|k: int| 0 <= k < i && k < s.logic.len() ==> r.0.logic[k] == s.logic[k]
            &&& forall|a: int|
                0 <= a < r.1.len() ==> selected_job_ok(s, i, r.0, #[trigger] r.1[a])
            &&& forall|a: int, c: int| 0 <= a < c < r.1.len() ==> r.1[a].0 != r.1[c].0
        }),
    decreases s.logic.len() - i,
{
    let r = step_select(s, i, b);
    if i < 0 || i >= s.logic.len() || b <= 0 {
    } else {
        let e = s.logic[i];
        if e.1.status == TerrainStatus::Dirty {
            if exists|k: int| 0 <= k < e.1.blocks@.len() && e.1.blocks@[k].spec_opaque() {
                let v = LogicChunk { blocks: e.1.blocks, status: TerrainStatus::Pending };
                let s2 = MgrState { logic: s.logic.update(i, (e.0, v)), ..s };
                assert(assoc_uniq(s2.logic)) by {
                    assert forall|x: int, y: int|
                        0 <= x < y < s2.logic.len() implies (#[trigger] s2.logic[x]).0 != (
                    #[trigger] s2.logic[y]).0 by {
                        assert(s2.logic[x].0 == s.logic[x].0 && s2.logic[y].0 == s.logic[y].0);
                    }
                }
                lemma_select_props(s2, i + 1, b - 1);
                let r2 = step_select(s2, i + 1, b - 1);
                assert(r.0 == r2.0);
                assert(r.1 == seq![(e.0, e.0.spec_to_coord(), e.1.blocks@)] + r2.1);
                assert forall|k: int|
                    0 <= k < s.logic.len() implies (#[trigger] r.0.logic[k]).0
                    == s.logic[k].0 by {
                    assert(r2.0.logic[k].0 == s2.logic[k].0);
                    assert(s2.logic[k].0 == s.logic[k].0);
                }
                assert forall|k: int|
                    0 <= k < i && k < s.logic.len() implies r.0.logic[k] == s.logic[k] by {
                    assert(r2.0.logic[k] == s2.logic[k]);
                    assert(s2.logic[k] == s.logic[k]);
                }
                assert forall|a: int|
                    0 <= a < r.1.len() implies selected_job_ok(s, i, r.0, #[trigger] r.1[a]) by {
                    if a == 0 {
                        assert(r.0.logic[i] == s2.logic[i]);
                        assert(s.logic[i].0 == r.1[0].0);
                        assert(s.logic[i].1.status == TerrainStatus::Dirty);
                        assert(r.0.logic[i].1.status == TerrainStatus::Pending);
                    } else {
                        assert(r.1[a] == r2.1[a - 1]);
                        assert(selected_job_ok(s2, i + 1, r2.0, r2.1[a - 1]));
                        assert forall|k: int|
                            i + 1 <= k < s2.logic.len() implies s.logic[k] == s2.logic[k] by {}
                        lemma_job_ok_mono(s2, s, i + 1, i, r2.0, r2.1[a - 1]);
                    }
                }
                assert forall|a: int, c: int| 0 <= a < c < r.1.len() implies r.1[a].0
                    != r.1[c].0 by {
                    if a == 0 {
                        assert(r.1[c] == r2.1[c - 1]);
                        assert(selected_job_ok(s2, i + 1, r2.0, r2.1[c - 1]));
                        lemma_job_ok_key_ne(s2, i + 1, r2.0, r2.1[c - 1], i);
                        assert(s2.logic[i].0 == s.logic[i].0);
                    } else {
                        assert(r.1[a] == r2.1[a - 1] && r.1[c] == r2.1[c - 1]);
                    }
                }
            } else {
                let v = LogicChunk { blocks: e.1.blocks, status: TerrainStatus::Built };
                let s2 = MgrState {
                    logic: s.logic.update(i, (e.0, v)),
                    terrain: assoc_remove(s.terrain, e.0),
                    gen: s.gen,
                };
                assert(assoc_uniq(s2.logic)) by {
                    assert forall|x: int, y: int|
                        0 <= x < y < s2.logic.len() implies (#[trigger] s2.logic[x]).0 != (
                    #[trigger] s2.logic[y]).0 by {
                        assert(s2.logic[x].0 == s.logic[x].0 && s2.logic[y].0 == s.logic[y].0);
                    }
                }
                lemma_select_props(s2, i + 1, b - 1);
                let r2 = step_select(s2, i + 1, b - 1);
                assert(r == r2);
                assert forall|k: int|
                    0 <= k < s.logic.len() implies (#[trigger] r.0.logic[k]).0
                    == s.logic[k].0 by {
                    assert(r2.0.logic[k].0 == s2.logic[k].0);
                    assert(s2.logic[k].0 == s.logic[k].0);
                }
                assert forall|k: int|
                    0 <= k < i && k < s.logic.len() implies r.0.logic[k] == s.logic[k] by {
                    assert(r2.0.logic[k] == s2.logic[k]);
                    assert(s2.logic[k] == s.logic[k]);
                }
                assert forall|a: int|
                    0 <= a < r.1.len() implies selected_job_ok(s, i, r.0, #[trigger] r.1[a]) by {
                    assert(selected_job_ok(s2, i + 1, r2.0, r2.1[a]));
                    assert forall|k: int|
                        i + 1 <= k < s2.logic.len() implies s.logic[k] == s2.logic[k] by {}
                    lemma_job_ok_mono(s2, s, i + 1, i, r2.0, r2.1[a]);
                }
            }
        } else {
            lemma_select_props(s, i + 1, b);
            let r2 = step_select(s, i + 1, b);
            assert(r == r2);
            assert forall|a: int|
                0 <= a < r.1.len() implies selected_job_ok(s, i, r.0, #[trigger] r.1[a]) by {
                assert(selected_job_ok(s, i + 1, r2.0, r2.1[a]));
                lemma_job_ok_mono(s, s, i + 1, i, r2.0, r2.1[a]);
            }
        }
    }
}

/// Law: no duplicate dispatch. Within one maintenance tick, every
/// dispatched generation id is distinct, was neither resident nor
/// already in flight, and the in-flight set stays duplicate-free; and
/// every dispatched meshing job belongs to a distinct chunk that was
/// dirty when selected and stands `Pending` afterwards, so a chunk
/// whose mesh is already pending is never meshed a second time.
pub proof fn lemma_no_duplicate_dispatch(
    s0: MgrState,
    mesh_rs: Seq<(ChunkCoord, TerrainMesh)>,
    gen_rs: Seq<(ChunkId, LogicChunk)>,
    observer: GlobalCoord,
    dd: int,
    bt: int,
    cc: int,
)
    requires
        st_wf(s0),
        forall|k: int|
            0 <= k < gen_rs.len() ==> (#[trigger] gen_rs[k]).1.wf()
                && gen_rs[k].0.in_world_range(),
    ensures
        ({
            let out = maintain_spec(s0, mesh_rs, gen_rs, observer, dd, bt, cc);
            let s2 = step_gen(step_mesh(s0, mesh_rs), gen_rs);
            let sel = step_select(s2, 0, 8 * bt);
            &&& forall|a: int, c: int|
                0 <= a < c < out.gen_jobs.len() ==> out.gen_jobs[a] != out.gen_jobs[c]
            &&& forall|a: int|
                0 <= a < out.gen_jobs.len() ==> !sel.0.gen.contains(#[trigger] out.gen_jobs[a])
                    && !assoc_has(sel.0.logic, out.gen_jobs[a])
            &&& ids_uniq(out.state.gen)
            &&& forall|a: int, c: int|
                0 <= a < c < out.mesh_jobs.len() ==> out.mesh_jobs[a].0 != out.mesh_jobs[c].0
            &&& forall|a: int|
                0 <= a < out.mesh_jobs.len() ==> assoc_has(
                    s2.logic,
                    (#[trigger] out.mesh_jobs[a]).0,
                ) && assoc_get(s2.logic, out.mesh_jobs[a].0).status == TerrainStatus::Dirty
                    && assoc_has(sel.0.logic, out.mesh_jobs[a].0) && assoc_get(
                    sel.0.logic,
                    out.mesh_jobs[a].0,
                ).status == TerrainStatus::Pending
        }),
{
    let s1 = step_mesh(s0, mesh_rs);
    lemma_step_mesh_wf(s0, mesh_rs);
    let s2 = step_gen(s1, gen_rs);
    lemma_step_gen_wf(s1, gen_rs);
    let sel = step_select(s2, 0, 8 * bt);
    lemma_step_select_wf(s2, 0, 8 * bt);
    lemma_select_props(s2, 0, 8 * bt);
    let area = crate::area::spec_cuboid(observer.spec_to_chunk_id(), dd);
    let picked = step_pick_gen(sel.0, area.spec_ids(), 0, 4 * bt, cc);
    lemma_pick_gen_props(sel.0, area.spec_ids(), 0, 4 * bt, cc);
    let out = maintain_spec(s0, mesh_rs, gen_rs, observer, dd, bt, cc);
    assert(out.gen_jobs == picked.1);
    assert(out.mesh_jobs == sel.1);
    assert(out.state.gen == picked.0.gen);
    assert(ids_uniq(out.state.gen)) by {
        assert(picked.0.gen == sel.0.gen + picked.1);
        assert forall|x: int, y: int|
            0 <= x < y < picked.0.gen.len() implies picked.0.gen[x] != picked.0.gen[y] by {
            let n = sel.0.gen.len() as int;
            if y < n {
                assert(picked.0.gen[x] == sel.0.gen[x] && picked.0.gen[y] == sel.0.gen[y]);
            } else if x < n {
                assert(picked.0.gen[y] == picked.1[y - n]);
                assert(!sel.0.gen.contains(picked.1[y - n]));
                if picked.0.gen[x] == picked.0.gen[y] {
                    assert(sel.0.gen[x] == picked.1[y - n]);
                    assert(sel.0.gen.contains(picked.1[y - n]));
                }
            } else {
                assert(picked.0.gen[x] == picked.1[x - n] && picked.0.gen[y] == picked.1[y - n]);
            }
        }
    }
    assert forall|a: int|
        0 <= a < out.mesh_jobs.len() implies assoc_has(s2.logic, (#[trigger] out.mesh_jobs[a]).0)
        && assoc_get(s2.logic, out.mesh_jobs[a].0).status == TerrainStatus::Dirty && assoc_has(
        sel.0.logic,
        out.mesh_jobs[a].0,
    ) && assoc_get(sel.0.logic, out.mesh_jobs[a].0).status == TerrainStatus::Pending by {
        assert(selected_job_ok(s2, 0, sel.0, sel.1[a]));
        lemma_job_ok_lookup(s2, 0, sel.0, sel.1[a]);
    }
}

/// Law: eviction consistency. After a maintenance tick, any chunk id
/// outside the load area computed from the observer is absent from
/// both the logical and the drawable map.
pub proof fn lemma_eviction_consistency(
    s0: MgrState,
    mesh_rs: Seq<(ChunkCoord, TerrainMesh)>,
    gen_rs: Seq<(ChunkId, LogicChunk)>,
    observer: GlobalCoord,
    dd: int,
    bt: int,
    cc: int,
    id: ChunkId,
)
    requires
        st_wf(s0),
        forall|k: int|
            0 <= k < gen_rs.len() ==> (#[trigger] gen_rs[k]).1.wf()
                && gen_rs[k].0.in_world_range(),
        !crate::area::spec_cuboid(observer.spec_to_chunk_id(), dd).spec_contains(id),
    ensures
        !assoc_has(maintain_spec(s0, mesh_rs, gen_rs, observer, dd, bt, cc).state.logic, id),
        !assoc_has(maintain_spec(s0, mesh_rs, gen_rs, observer, dd, bt, cc).state.terrain, id),
{
    let s1 = step_mesh(s0, mesh_rs);
    lemma_step_mesh_wf(s0, mesh_rs);
    let s2 = step_gen(s1, gen_rs);
    lemma_step_gen_wf(s1, gen_rs);
    let sel = step_select(s2, 0, 8 * bt);
    lemma_step_select_wf(s2, 0, 8 * bt);
    let area = crate::area::spec_cuboid(observer.spec_to_chunk_id(), dd);
    let picked = step_pick_gen(sel.0, area.spec_ids(), 0, 4 * bt, cc);
    lemma_step_pick_gen_wf(sel.0, area.spec_ids(), 0, 4 * bt, cc);
    lemma_assoc_keep(picked.0.logic, area);
    lemma_assoc_keep(picked.0.terrain, area);
}

/// Law: a drawable chunk never outlives its logical chunk. If every
/// drawable chunk's id is in the logical map before a maintenance
/// tick, the same holds after it.
pub proof fn lemma_drawn_covered_preserved(
    s0: MgrState,
    mesh_rs: Seq<(ChunkCoord, TerrainMesh)>,
    gen_rs: Seq<(ChunkId, LogicChunk)>,
    observer: GlobalCoord,
    dd: int,
    bt: int,
    cc: int,
)
    requires
        st_wf(s0),
        drawn_covered(s0),
        forall|k: int|
            0 <= k < gen_rs.len() ==> (#[trigger] gen_rs[k]).1.wf()
                && gen_rs[k].0.in_world_range(),
    ensures
        drawn_covered(maintain_spec(s0, mesh_rs, gen_rs, observer, dd, bt, cc).state),
{
    let s1 = step_mesh(s0, mesh_rs);
    lemma_step_mesh_wf(s0, mesh_rs);
    assert(drawn_covered(s1)) by {
        assert forall|k: ChunkId| assoc_has(s1.terrain, k) implies assoc_has(s1.logic, k) by {
            assert(assoc_has(s0.terrain, k) || assoc_has(s0.logic, k));
            assert(assoc_has(s0.logic, k));
        }
    }
    let s2 = step_gen(s1, gen_rs);
    lemma_step_gen_wf(s1, gen_rs);
    assert(drawn_covered(s2)) by {
        assert forall|k: ChunkId| assoc_has(s2.terrain, k) implies assoc_has(s2.logic, k) by {
            assert(assoc_has(s1.terrain, k));
            assert(assoc_has(s1.logic, k));
        }
    }
    let sel = step_select(s2, 0, 8 * bt);
    lemma_step_select_wf(s2, 0, 8 * bt);
    lemma_select_props(s2, 0, 8 * bt);
    assert(drawn_covered(sel.0)) by {
        lemma_keys_preserved(s2.logic, sel.0.logic);
        assert forall|k: ChunkId| assoc_has(sel.0.terrain, k) implies assoc_has(
            sel.0.logic,
            k,
        ) by {
            assert(assoc_has(s2.terrain, k));
            assert(assoc_has(s2.logic, k));
        }
    }
    let area = crate::area::spec_cuboid(observer.spec_to_chunk_id(), dd);
    let picked = step_pick_gen(sel.0, area.spec_ids(), 0, 4 * bt, cc);
    lemma_pick_gen_props(sel.0, area.spec_ids(), 0, 4 * bt, cc);
    lemma_step_pick_gen_wf(sel.0, area.spec_ids(), 0, 4 * bt, cc);
    lemma_assoc_keep(picked.0.logic, area);
    lemma_assoc_keep(picked.0.terrain, area);
    let out = maintain_spec(s0, mesh_rs, gen_rs, observer, dd, bt, cc).state;
    assert forall|k: ChunkId| assoc_has(out.terrain, k) implies assoc_has(out.logic, k) by {
        assert(assoc_has(picked.0.terrain, k) && area.spec_contains(k));
        assert(assoc_has(picked.0.logic, k));
    }
}

} // verus!
