use vstd::prelude::*;

use crate::coord::{ChunkId, GlobalUnit};

verus! {

/// The bounded axis-aligned cuboid of chunk ids that should stay
/// resident around the observer: inclusive `start` and `end` corners,
/// plus a cursor for sequential enumeration.
#[derive(Clone, Copy, Debug, PartialEq, Eq, Structural)]
pub struct LoadArea {
    pub start: ChunkId,
    pub end: ChunkId,
    pub current: ChunkId,
}

impl LoadArea {
    /// Ids spanned along the `x` axis.
    pub open spec fn nx(self) -> int {
        self.end.x - self.start.x + 1
    }

    pub open spec fn ny(self) -> int {
        self.end.y - self.start.y + 1
    }

    pub open spec fn nz(self) -> int {
        self.end.z - self.start.z + 1
    }

    /// Number of chunk ids in the cuboid.
    pub open spec fn spec_len(self) -> int {
        self.nx() * self.ny() * self.nz()
    }

    /// A well-formed area is non-empty on every axis, leaves room for
    /// the cursor's resting place past the last `z` row, and holds a
    /// cursor that is either inside the cuboid or at that resting
    /// place.
    pub open spec fn wf(self) -> bool {
        &&& self.start.x <= self.end.x
        &&& self.start.y <= self.end.y
        &&& self.start.z <= self.end.z
        &&& self.end.z < i32::MAX
        &&& {
            ||| {
                &&& self.start.x <= self.current.x <= self.end.x
                &&& self.start.y <= self.current.y <= self.end.y
                &&& self.start.z <= self.current.z <= self.end.z
            }
            ||| self.current == (ChunkId {
                x: self.start.x,
                y: self.start.y,
                z: (self.end.z + 1) as GlobalUnit,
            })
        }
    }

    /// Whether the cursor has passed the last id.
    pub open spec fn spec_done(self) -> bool {
        self.current.z > self.end.z
    }

    /// Number of ids already yielded: the cursor's rank in row-major
    /// order.
    pub open spec fn spec_pos(self) -> int {
        if self.spec_done() {
            self.spec_len()
        } else {
            (self.current.z - self.start.z) * self.nx() * self.ny() + (self.current.y
                - self.start.y) * self.nx() + (self.current.x - self.start.x)
        }
    }

    /// The `k`-th chunk id of the cuboid in row-major order: `x`
    /// varies fastest, then `y`, then `z`.
    pub open spec fn spec_id_at(self, k: int) -> ChunkId {
        ChunkId {
            x: (self.start.x + k % self.nx()) as GlobalUnit,
            y: (self.start.y + (k / self.nx()) % self.ny()) as GlobalUnit,
            z: (self.start.z + k / (self.nx() * self.ny())) as GlobalUnit,
        }
    }

    /// The full enumeration of the cuboid in row-major order.
    pub open spec fn spec_ids(self) -> Seq<ChunkId> {
        Seq::new(self.spec_len() as nat, |k: int| self.spec_id_at(k))
    }

    /// Whether `id` lies inside the cuboid.
    pub open spec fn spec_contains(self, id: ChunkId) -> bool {
        &&& self.start.x <= id.x <= self.end.x
        &&& self.start.y <= id.y <= self.end.y
        &&& self.start.z <= id.z <= self.end.z
    }

    fn new(start: ChunkId, end: ChunkId) -> (r: Self)
        ensures
            r == (LoadArea { start, end, current: start }),
    {
        LoadArea { start, end, current: start }
    }

    /// The cube of ids within `dist` chunks of `center` on every axis.
    pub fn new_cube(center: ChunkId, dist: GlobalUnit) -> (r: Self)
        requires
            0 <= dist,
            i32::MIN <= center.x - dist,
            i32::MIN <= center.y - dist,
            i32::MIN <= center.z - dist,
            center.x + dist <= i32::MAX,
            center.y + dist <= i32::MAX,
            center.z + dist < i32::MAX,
        ensures
            r.wf(),
            !r.spec_done(),
            r.spec_pos() == 0,
            r.start == (ChunkId {
                x: (center.x - dist) as GlobalUnit,
                y: (center.y - dist) as GlobalUnit,
                z: (center.z - dist) as GlobalUnit,
            }),
            r.end == (ChunkId {
                x: (center.x + dist) as GlobalUnit,
                y: (center.y + dist) as GlobalUnit,
                z: (center.z + dist) as GlobalUnit,
            }),
            r.current == r.start,
    {
        let r = Self::new(
            ChunkId::new(center.x - dist, center.y - dist, center.z - dist),
            ChunkId::new(center.x + dist, center.y + dist, center.z + dist),
        );
        proof {
            lemma_pos_at_start(r);
        }
        r
    }

    /// The cuboid of ids within `dist` chunks of `center` on the
    /// horizontal axes but only `dist / 2` on the vertical axis, since
    /// worlds are wider than tall.
    pub fn new_cuboid(center: ChunkId, dist: GlobalUnit) -> (r: Self)
        requires
            0 <= dist,
            i32::MIN <= center.x - dist,
            i32::MIN <= center.y - dist,
            i32::MIN <= center.z - dist,
            center.x + dist <= i32::MAX,
            center.y + dist <= i32::MAX,
            center.z + dist < i32::MAX,
        ensures
            r.wf(),
            !r.spec_done(),
            r.spec_pos() == 0,
            r.start == (ChunkId {
                x: (center.x - dist) as GlobalUnit,
                y: (center.y - dist / 2) as GlobalUnit,
                z: (center.z - dist) as GlobalUnit,
            }),
            r.end == (ChunkId {
                x: (center.x + dist) as GlobalUnit,
                y: (center.y + dist / 2) as GlobalUnit,
                z: (center.z + dist) as GlobalUnit,
            }),
            r.current == r.start,
            r == spec_cuboid(center, dist as int),
    {
        let half = dist / 2;
        let r = Self::new(
            ChunkId::new(center.x - dist, center.y - half, center.z - dist),
            ChunkId::new(center.x + dist, center.y + half, center.z + dist),
        );
        proof {
            lemma_pos_at_start(r);
        }
        r
    }

    /// O(1) membership test for the cuboid.
    pub fn contains(&self, id: ChunkId) -> (r: bool)
        ensures
            r == self.spec_contains(id),
    {
        !(id.x < self.start.x || id.x > self.end.x || id.y < self.start.y || id.y > self.end.y
            || id.z < self.start.z || id.z > self.end.z)
    }

    /// Yields the next id of the enumeration and advances the cursor;
    /// `None` once every id of the cuboid has been yielded.
    pub fn next(&mut self) -> (r: Option<ChunkId>)
        requires
            old(self).wf(),
        ensures
            final(self).wf(),
            final(self).start == old(self).start,
            final(self).end == old(self).end,
            old(self).spec_done() ==> r == Option::<ChunkId>::None && *final(self) == *old(self),
            !old(self).spec_done() ==> {
                &&& r == Some(old(self).spec_ids()[old(self).spec_pos()])
                &&& final(self).spec_pos() == old(self).spec_pos() + 1
            },
    {
        proof {
            if !self.spec_done() {
                lemma_pos_of_cursor(*self);
            }
        }
        if self.current.z > self.end.z {
            return None;
        }
        let item = self.current;
        if self.current.x < self.end.x {
            self.current.x = self.current.x + 1;
        } else {
            self.current.x = self.start.x;
            if self.current.y < self.end.y {
                self.current.y = self.current.y + 1;
            } else {
                self.current.y = self.start.y;
                if self.current.z < self.end.z + 1 {
                    self.current.z = self.current.z + 1;
                }
            }
        }
        proof {
            lemma_step_pos(*old(self), *self);
        }
        Some(item)
    }

    /// The whole enumeration as a vector, restarting from the first
    /// id whatever the cursor's position.
    pub fn ids(&self) -> (r: Vec<ChunkId>)
        requires
            self.wf(),
        ensures
            r@ == self.spec_ids(),
    {
        let mut a = LoadArea { start: self.start, end: self.end, current: self.start };
        proof {
            lemma_pos_at_start(a);
        }
        let mut v: Vec<ChunkId> = Vec::new();
        while a.current.z <= a.end.z
            invariant
                a.wf(),
                a.start == self.start,
                a.end == self.end,
                0 <= a.spec_pos() <= a.spec_len(),
                v@.len() == a.spec_pos(),
                v@ == self.spec_ids().take(a.spec_pos()),
            decreases a.spec_len() - a.spec_pos(),
        {
            proof {
                lemma_pos_of_cursor(a);
            }
            match a.next() {
                Some(id) => {
                    v.push(id);
                    assert(v@ =~= self.spec_ids().take(a.spec_pos()));
                }
                None => {
                    assert(false);
                }
            }
        }
        assert(a.spec_pos() == a.spec_len());
        assert(v@ =~= self.spec_ids());
        v
    }
}

/// The cuboid load area around `center`: `dist` chunks on the
/// horizontal axes, `dist / 2` on the vertical axis, with the cursor
/// on its first id.
pub open spec fn spec_cuboid(center: ChunkId, dist: int) -> LoadArea {
    LoadArea {
        start: ChunkId {
            x: (center.x - dist) as GlobalUnit,
            y: (center.y - dist / 2) as GlobalUnit,
            z: (center.z - dist) as GlobalUnit,
        },
        end: ChunkId {
            x: (center.x + dist) as GlobalUnit,
            y: (center.y + dist / 2) as GlobalUnit,
            z: (center.z + dist) as GlobalUnit,
        },
        current: ChunkId {
            x: (center.x - dist) as GlobalUnit,
            y: (center.y - dist / 2) as GlobalUnit,
            z: (center.z - dist) as GlobalUnit,
        },
    }
}

/// A cursor standing on the first id has rank zero.
proof fn lemma_pos_at_start(a: LoadArea)
    requires
        a.current == a.start,
    ensures
        a.spec_pos() == 0 || a.spec_done(),
{
    if !a.spec_done() {
        assert((a.current.z - a.start.z) * a.nx() == 0) by {
            vstd::arithmetic::mul::lemma_mul_basics(a.nx());
        }
        assert(((a.current.z - a.start.z) * a.nx()) * a.ny() == 0) by {
            vstd::arithmetic::mul::lemma_mul_basics(a.ny());
        }
        assert((a.current.y - a.start.y) * a.nx() == 0) by {
            vstd::arithmetic::mul::lemma_mul_basics(a.nx());
        }
    }
}

/// An in-cuboid cursor's rank is in range, and the id at that rank is
/// the cursor itself.
proof fn lemma_pos_of_cursor(a: LoadArea)
    requires
        a.wf(),
        !a.spec_done(),
    ensures
        0 <= a.spec_pos() < a.spec_len(),
        a.spec_id_at(a.spec_pos()) == a.current,
{
    let nx = a.nx();
    let ny = a.ny();
    let nz = a.nz();
    let dx = a.current.x - a.start.x;
    let dy = a.current.y - a.start.y;
    let dz = a.current.z - a.start.z;
    let k = a.spec_pos();
    let q1 = dz * ny + dy;
    assert(k == q1 * nx + dx) by (nonlinear_arith)
        requires
            k == dz * nx * ny + dy * nx + dx,
            q1 == dz * ny + dy,
    ;
    assert(0 <= q1 && q1 < ny * nz) by (nonlinear_arith)
        requires
            q1 == dz * ny + dy,
            0 <= dy < ny,
            0 <= dz < nz,
            0 < ny,
    ;
    vstd::arithmetic::div_mod::lemma_fundamental_div_mod_converse(k, nx, q1, dx);
    vstd::arithmetic::div_mod::lemma_fundamental_div_mod_converse(q1, ny, dz, dy);
    assert(0 <= k && k < a.spec_len()) by (nonlinear_arith)
        requires
            k == q1 * nx + dx,
            a.spec_len() == nx * ny * nz,
            0 <= q1 < ny * nz,
            0 <= dx < nx,
            0 < nx,
    ;
    vstd::arithmetic::div_mod::lemma_div_denominator(k, nx, ny);
    assert(k / (nx * ny) == q1 / ny);
    assert(a.spec_id_at(k).x == a.current.x);
    assert(a.spec_id_at(k).y == a.current.y);
    assert(a.spec_id_at(k).z == a.current.z);
}

/// Advancing the cursor by one step of the row-major walk raises its
/// rank by exactly one.
proof fn lemma_step_pos(a: LoadArea, b: LoadArea)
    requires
        a.wf(),
        !a.spec_done(),
        b.start == a.start,
        b.end == a.end,
        b == (if a.current.x < a.end.x {
            LoadArea { current: ChunkId { x: (a.current.x + 1) as GlobalUnit, ..a.current }, ..a }
        } else if a.current.y < a.end.y {
            LoadArea {
                current: ChunkId {
                    x: a.start.x,
                    y: (a.current.y + 1) as GlobalUnit,
                    z: a.current.z,
                },
                ..a
            }
        } else {
            LoadArea {
                current: ChunkId {
                    x: a.start.x,
                    y: a.start.y,
                    z: (a.current.z + 1) as GlobalUnit,
                },
                ..a
            }
        }),
    ensures
        b.wf(),
        b.spec_pos() == a.spec_pos() + 1,
{
    let nx = a.nx();
    let ny = a.ny();
    let nz = a.nz();
    let dx = a.current.x - a.start.x;
    let dy = a.current.y - a.start.y;
    let dz = a.current.z - a.start.z;
    if a.current.x < a.end.x {
        assert(b.spec_pos() == a.spec_pos() + 1);
    } else if a.current.y < a.end.y {
        assert(b.spec_pos() == a.spec_pos() + 1) by (nonlinear_arith)
            requires
                a.spec_pos() == dz * nx * ny + dy * nx + dx,
                b.spec_pos() == dz * nx * ny + (dy + 1) * nx + 0,
                dx == nx - 1,
        ;
    } else if a.current.z < a.end.z {
        assert(b.spec_pos() == a.spec_pos() + 1) by (nonlinear_arith)
            requires
                a.spec_pos() == dz * nx * ny + dy * nx + dx,
                b.spec_pos() == (dz + 1) * nx * ny + 0 * nx + 0,
                dx == nx - 1,
                dy == ny - 1,
        ;
    } else {
        assert(b.spec_done());
        assert(b.spec_pos() == b.spec_len());
        assert(b.spec_len() == a.spec_pos() + 1) by (nonlinear_arith)
            requires
                a.spec_pos() == dz * nx * ny + dy * nx + dx,
                b.spec_len() == nx * ny * nz,
                dx == nx - 1,
                dy == ny - 1,
                dz == nz - 1,
        ;
    }
}

/// Each position of the enumeration decomposes uniquely into its
/// three axis digits.
proof fn lemma_area_digits(a: LoadArea, k: int)
    requires
        a.wf(),
        0 <= k < a.spec_len(),
    ensures
        0 <= k % a.nx() < a.nx(),
        0 <= (k / a.nx()) % a.ny() < a.ny(),
        0 <= k / (a.nx() * a.ny()) < a.nz(),
        k == (a.nx() * a.ny()) * (k / (a.nx() * a.ny())) + a.nx() * ((k / a.nx()) % a.ny()) + k
            % a.nx(),
{
    let nx = a.nx();
    let ny = a.ny();
    let nz = a.nz();
    vstd::arithmetic::mul::lemma_mul_strictly_positive(nx, ny);
    vstd::arithmetic::div_mod::lemma_fundamental_div_mod(k, nx * ny);
    vstd::arithmetic::div_mod::lemma_breakdown(k, nx, ny);
    vstd::arithmetic::div_mod::lemma_div_pos_is_pos(k, nx * ny);
    vstd::arithmetic::div_mod::lemma_multiply_divide_lt(k, nx * ny, nz);
}

/// Law: the enumeration visits every id of the cuboid exactly once.
/// Distinct positions hold distinct ids, and an id occurs in the
/// enumeration exactly when the cuboid contains it.
pub proof fn lemma_area_enumerates_once(a: LoadArea)
    requires
        a.wf(),
    ensures
        forall|k1: int, k2: int|
            0 <= k1 < k2 < a.spec_ids().len() ==> a.spec_ids()[k1] != a.spec_ids()[k2],
        forall|id: ChunkId| #![trigger a.spec_contains(id)]
            a.spec_contains(id) <==> a.spec_ids().contains(id),
{
    let nx = a.nx();
    let ny = a.ny();
    assert forall|k1: int, k2: int|
        0 <= k1 < k2 < a.spec_ids().len() implies a.spec_ids()[k1] != a.spec_ids()[k2] by {
        lemma_area_digits(a, k1);
        lemma_area_digits(a, k2);
        if a.spec_id_at(k1) == a.spec_id_at(k2) {
            assert(k1 % nx == k2 % nx);
            assert((k1 / nx) % ny == (k2 / nx) % ny);
            assert(k1 / (nx * ny) == k2 / (nx * ny));
            assert(k1 == k2);
        }
    }
    assert forall|id: ChunkId| a.spec_contains(id) implies a.spec_ids().contains(id) by {
        let b = LoadArea { start: a.start, end: a.end, current: id };
        lemma_pos_of_cursor(b);
        let k = b.spec_pos();
        assert(a.spec_id_at(k) == id);
        assert(a.spec_ids()[k] == id);
    }
    assert forall|id: ChunkId| a.spec_ids().contains(id) implies a.spec_contains(id) by {
        let k = choose|k: int| 0 <= k < a.spec_ids().len() && a.spec_ids()[k] == id;
        lemma_area_digits(a, k);
        assert(a.spec_id_at(k) == id);
    }
}

} // verus!
