use vstd::prelude::*;

use crate::area::LoadArea;
use crate::coord::ChunkId;

verus! {

/// Sequence of the keys of an association list.
pub open spec fn assoc_keys<V>(s: Seq<(ChunkId, V)>) -> Seq<ChunkId> {
    s.map_values(|e: (ChunkId, V)| e.0)
}

/// No key occurs twice.
pub open spec fn assoc_uniq<V>(s: Seq<(ChunkId, V)>) -> bool {
    forall|i: int, j: int| 0 <= i < j < s.len() ==> (#[trigger] s[i]).0 != (#[trigger] s[j]).0
}

/// Whether some entry carries key `id`.
pub open spec fn assoc_has<V>(s: Seq<(ChunkId, V)>, id: ChunkId) -> bool {
    exists|i: int| 0 <= i < s.len() && (#[trigger] s[i]).0 == id
}

/// Position of the entry with key `id` (meaningful when `assoc_has`).
pub open spec fn assoc_pos<V>(s: Seq<(ChunkId, V)>, id: ChunkId) -> int {
    choose|i: int| 0 <= i < s.len() && (#[trigger] s[i]).0 == id
}

/// Value stored under key `id` (meaningful when `assoc_has`).
pub open spec fn assoc_get<V>(s: Seq<(ChunkId, V)>, id: ChunkId) -> V {
    s[assoc_pos(s, id)].1
}

/// The list after binding `id` to `v`: the entry is replaced in place
/// when the key is present, appended otherwise.
pub open spec fn assoc_set<V>(s: Seq<(ChunkId, V)>, id: ChunkId, v: V) -> Seq<(ChunkId, V)> {
    if assoc_has(s, id) {
        s.update(assoc_pos(s, id), (id, v))
    } else {
        s.push((id, v))
    }
}

/// The list after unbinding `id`; unchanged when the key is absent.
pub open spec fn assoc_remove<V>(s: Seq<(ChunkId, V)>, id: ChunkId) -> Seq<(ChunkId, V)> {
    if assoc_has(s, id) {
        s.remove(assoc_pos(s, id))
    } else {
        s
    }
}

/// The entries whose key lies inside `area`, keeping their order.
pub open spec fn assoc_keep<V>(s: Seq<(ChunkId, V)>, area: LoadArea) -> Seq<(ChunkId, V)>
    decreases s.len(),
{
    if s.len() == 0 {
        s
    } else {
        let rest = assoc_keep(s.drop_first(), area);
        if area.spec_contains(s[0].0) {
            seq![s[0]] + rest
        } else {
            rest
        }
    }
}

/// On a duplicate-free list every entry with key `id` stands at
/// `assoc_pos`.
pub proof fn lemma_assoc_pos<V>(s: Seq<(ChunkId, V)>, id: ChunkId, i: int)
    requires
        assoc_uniq(s),
        0 <= i < s.len(),
        s[i].0 == id,
    ensures
        assoc_has(s, id),
        assoc_pos(s, id) == i,
{
    assert(assoc_has(s, id));
    let j = assoc_pos(s, id);
    if i != j {
        assert(s[i].0 != s[j].0);
    }
}

/// How `assoc_set` acts on membership, lookup and well-formedness.
pub proof fn lemma_assoc_set<V>(s: Seq<(ChunkId, V)>, id: ChunkId, v: V)
    requires
        assoc_uniq(s),
    ensures
        assoc_uniq(assoc_set(s, id, v)),
        forall|k: ChunkId| #![trigger assoc_has(assoc_set(s, id, v), k)] #![trigger assoc_has(s, k)]
            assoc_has(assoc_set(s, id, v), k) <==> (assoc_has(s, k) || k == id),
        assoc_get(assoc_set(s, id, v), id) == v,
        forall|k: ChunkId| #![trigger assoc_get(assoc_set(s, id, v), k)] #![trigger assoc_get(s, k)]
            assoc_has(s, k) && k != id ==> assoc_get(assoc_set(s, id, v), k) == assoc_get(s, k),
        assoc_set(s, id, v).len() == if assoc_has(s, id) {
            s.len()
        } else {
            s.len() + 1
        },
        forall|i: int|
            0 <= i < s.len() && (#[trigger] s[i]).0 != id ==> assoc_set(s, id, v)[i] == s[i],
        assoc_has(s, id) ==> forall|i: int|
            0 <= i < s.len() ==> (#[trigger] assoc_set(s, id, v)[i]).0 == s[i].0,
{
    let t = assoc_set(s, id, v);
    if assoc_has(s, id) {
        let p = assoc_pos(s, id);
        assert(0 <= p < s.len() && s[p].0 == id);
        assert(t == s.update(p, (id, v)));
        assert forall|i: int, j: int| 0 <= i < j < t.len() implies (#[trigger] t[i]).0 != (
        #[trigger] t[j]).0 by {
            assert(s[i].0 != s[j].0);
        }
        assert forall|k: ChunkId| assoc_has(t, k) implies (assoc_has(s, k) || k == id) by {
            let w = choose|i: int| 0 <= i < t.len() && (#[trigger] t[i]).0 == k;
            if w != p {
                assert(s[w].0 == k);
            }
        }
        assert forall|k: ChunkId| assoc_has(s, k) || k == id implies assoc_has(t, k) by {
            if k == id {
                assert(t[p].0 == id);
            } else {
                let w = choose|i: int| 0 <= i < s.len() && (#[trigger] s[i]).0 == k;
                assert(t[w].0 == k);
            }
        }
        lemma_assoc_pos(t, id, p);
        assert forall|k: ChunkId| assoc_has(s, k) && k != id implies assoc_get(t, k) == assoc_get(
            s,
            k,
        ) by {
            let w = choose|i: int| 0 <= i < s.len() && (#[trigger] s[i]).0 == k;
            lemma_assoc_pos(s, k, w);
            lemma_assoc_pos(t, k, w);
        }
    } else {
        assert(t == s.push((id, v)));
        assert forall|i: int, j: int| 0 <= i < j < t.len() implies (#[trigger] t[i]).0 != (
        #[trigger] t[j]).0 by {
            if j < s.len() {
                assert(s[i].0 != s[j].0);
            } else {
                assert(t[j].0 == id);
                assert(s[i].0 == t[i].0);
                if s[i].0 == id {
                    assert(assoc_has(s, id));
                }
            }
        }
        assert forall|k: ChunkId| assoc_has(t, k) implies (assoc_has(s, k) || k == id) by {
            let w = choose|i: int| 0 <= i < t.len() && (#[trigger] t[i]).0 == k;
            if w < s.len() {
                assert(s[w].0 == k);
            }
        }
        assert forall|k: ChunkId| assoc_has(s, k) || k == id implies assoc_has(t, k) by {
            if k == id {
                assert(t[s.len() as int].0 == id);
            } else {
                let w = choose|i: int| 0 <= i < s.len() && (#[trigger] s[i]).0 == k;
                assert(t[w].0 == k);
            }
        }
        lemma_assoc_pos(t, id, s.len() as int);
        assert forall|k: ChunkId| assoc_has(s, k) && k != id implies assoc_get(t, k) == assoc_get(
            s,
            k,
        ) by {
            let w = choose|i: int| 0 <= i < s.len() && (#[trigger] s[i]).0 == k;
            lemma_assoc_pos(s, k, w);
            lemma_assoc_pos(t, k, w);
        }
    }
}

/// How `assoc_remove` acts on membership, lookup and well-formedness.
pub proof fn lemma_assoc_remove<V>(s: Seq<(ChunkId, V)>, id: ChunkId)
    requires
        assoc_uniq(s),
    ensures
        assoc_uniq(assoc_remove(s, id)),
        forall|k: ChunkId| #![trigger assoc_has(assoc_remove(s, id), k)] #![trigger assoc_has(s, k)]
            assoc_has(assoc_remove(s, id), k) <==> (assoc_has(s, k) && k != id),
        forall|k: ChunkId| #![trigger assoc_get(assoc_remove(s, id), k)] #![trigger assoc_get(s, k)]
            assoc_has(s, k) && k != id ==> assoc_get(assoc_remove(s, id), k) == assoc_get(s, k),
{
    let t = assoc_remove(s, id);
    if assoc_has(s, id) {
        let p = assoc_pos(s, id);
        assert(t == s.remove(p));
        assert forall|i: int, j: int| 0 <= i < j < t.len() implies (#[trigger] t[i]).0 != (
        #[trigger] t[j]).0 by {
            let si = if i < p {
                i
            } else {
                i + 1
            };
            let sj = if j < p {
                j
            } else {
                j + 1
            };
            assert(t[i] == s[si] && t[j] == s[sj]);
            assert(s[si].0 != s[sj].0);
        }
        assert forall|k: ChunkId| assoc_has(t, k) implies (assoc_has(s, k) && k != id) by {
            let w = choose|i: int| 0 <= i < t.len() && (#[trigger] t[i]).0 == k;
            let sw = if w < p {
                w
            } else {
                w + 1
            };
            assert(s[sw].0 == k);
            if k == id {
                lemma_assoc_pos(s, id, sw);
            }
        }
        assert forall|k: ChunkId| assoc_has(s, k) && k != id implies assoc_has(t, k) by {
            let w = choose|i: int| 0 <= i < s.len() && (#[trigger] s[i]).0 == k;
            if w < p {
                assert(t[w].0 == k);
            } else {
                assert(w != p);
                assert(t[w - 1].0 == k);
            }
        }
        assert forall|k: ChunkId| assoc_has(s, k) && k != id implies assoc_get(t, k) == assoc_get(
            s,
            k,
        ) by {
            let w = choose|i: int| 0 <= i < s.len() && (#[trigger] s[i]).0 == k;
            lemma_assoc_pos(s, k, w);
            if w < p {
                lemma_assoc_pos(t, k, w);
            } else {
                lemma_assoc_pos(t, k, w - 1);
            }
        }
    }
}

/// How `assoc_keep` acts on membership and lookup: exactly the keys
/// inside the area survive, with their values.
pub proof fn lemma_assoc_keep<V>(s: Seq<(ChunkId, V)>, area: LoadArea)
    requires
        assoc_uniq(s),
    ensures
        assoc_uniq(assoc_keep(s, area)),
        forall|k: ChunkId| #![trigger assoc_has(assoc_keep(s, area), k)] #![trigger assoc_has(s, k)]
            assoc_has(assoc_keep(s, area), k) <==> (assoc_has(s, k) && area.spec_contains(k)),
        forall|k: ChunkId| #![trigger assoc_get(assoc_keep(s, area), k)] #![trigger assoc_get(s, k)]
            assoc_has(s, k) && area.spec_contains(k) ==> assoc_get(assoc_keep(s, area), k)
                == assoc_get(s, k),
    decreases s.len(),
{
    let t = assoc_keep(s, area);
    if s.len() == 0 {
    } else {
        let s1 = s.drop_first();
        assert(assoc_uniq(s1)) by {
            assert forall|i: int, j: int| 0 <= i < j < s1.len() implies (#[trigger] s1[i]).0 != (
            #[trigger] s1[j]).0 by {
                assert(s[i + 1].0 != s[j + 1].0);
            }
        }
        lemma_assoc_keep(s1, area);
        let r1 = assoc_keep(s1, area);
        assert forall|k: ChunkId| assoc_has(s, k) implies (k == s[0].0 || assoc_has(s1, k)) by {
            let w = choose|i: int| 0 <= i < s.len() && (#[trigger] s[i]).0 == k;
            if w > 0 {
                assert(s1[w - 1].0 == k);
            }
        }
        assert forall|k: ChunkId| assoc_has(s1, k) implies assoc_has(s, k) && k != s[0].0 by {
            let w = choose|i: int| 0 <= i < s1.len() && (#[trigger] s1[i]).0 == k;
            assert(s[w + 1].0 == k);
            assert(s[0].0 != s[w + 1].0);
        }
        if area.spec_contains(s[0].0) {
            assert(t == seq![s[0]] + r1);
            assert(t[0] == s[0]);
            assert forall|i: int| 0 <= i < r1.len() implies t[i + 1] == r1[i] by {}
            assert forall|i: int, j: int| 0 <= i < j < t.len() implies (#[trigger] t[i]).0 != (
            #[trigger] t[j]).0 by {
                if i == 0 {
                    assert(t[j] == r1[j - 1]);
                    assert(assoc_has(r1, r1[j - 1].0)) by {
                        lemma_assoc_pos(r1, r1[j - 1].0, j - 1);
                    }
                } else {
                    assert(t[i] == r1[i - 1] && t[j] == r1[j - 1]);
                    assert(r1[i - 1].0 != r1[j - 1].0);
                }
            }
            assert forall|k: ChunkId| assoc_has(t, k) implies (assoc_has(s, k)
                && area.spec_contains(k)) by {
                let w = choose|i: int| 0 <= i < t.len() && (#[trigger] t[i]).0 == k;
                if w > 0 {
                    assert(r1[w - 1].0 == k);
                    lemma_assoc_pos(r1, k, w - 1);
                    assert(assoc_has(assoc_keep(s1, area), k));
                    assert(assoc_has(s1, k));
                } else {
                    assert(s[0].0 == k);
                }
                assert(assoc_has(s, k));
            }
            assert forall|k: ChunkId| assoc_has(s, k) && area.spec_contains(k) implies assoc_has(
                t,
                k,
            ) by {
                if k == s[0].0 {
                    assert(t[0].0 == k);
                } else {
                    assert(assoc_has(s1, k));
                    let w = choose|i: int| 0 <= i < r1.len() && (#[trigger] r1[i]).0 == k;
                    assert(t[w + 1].0 == k);
                }
            }
            assert forall|k: ChunkId| assoc_has(s, k) && area.spec_contains(k) implies assoc_get(
                t,
                k,
            ) == assoc_get(s, k) by {
                if k == s[0].0 {
                    lemma_assoc_pos(t, k, 0);
                    lemma_assoc_pos(s, k, 0);
                } else {
                    let u = choose|i: int| 0 <= i < s.len() && (#[trigger] s[i]).0 == k;
                    assert(u > 0);
                    assert(s1[u - 1].0 == k);
                    lemma_assoc_pos(s1, k, u - 1);
                    lemma_assoc_pos(s, k, u);
                    assert(assoc_has(s1, k));
                    assert(assoc_get(assoc_keep(s1, area), k) == assoc_get(s1, k));
                    assert(assoc_has(assoc_keep(s1, area), k));
                    let w = choose|i: int| 0 <= i < r1.len() && (#[trigger] r1[i]).0 == k;
                    lemma_assoc_pos(r1, k, w);
                    assert(t[w + 1] == r1[w]);
                    lemma_assoc_pos(t, k, w + 1);
                    assert(assoc_get(t, k) == t[w + 1].1);
                    assert(assoc_get(s, k) == s[u].1);
                    assert(assoc_get(s1, k) == s1[u - 1].1);
                    assert(s[u] == s1[u - 1]);
                }
            }
        } else {
            assert(t == r1);
            assert forall|k: ChunkId| assoc_has(s, k) && area.spec_contains(k) implies assoc_has(
                t,
                k,
            ) && assoc_get(t, k) == assoc_get(s, k) by {
                assert(k != s[0].0);
                assert(assoc_has(s1, k));
                let u = choose|i: int| 0 <= i < s1.len() && (#[trigger] s1[i]).0 == k;
                lemma_assoc_pos(s1, k, u);
                lemma_assoc_pos(s, k, u + 1);
            }
        }
    }
}


/// Two lists with the same keys at the same places agree on
/// membership and entry position.
pub proof fn lemma_keys_preserved<V, W>(s: Seq<(ChunkId, V)>, t: Seq<(ChunkId, W)>)
    requires
        assoc_uniq(s),
        s.len() == t.len(),
        forall|k: int| 0 <= k < s.len() ==> (#[trigger] t[k]).0 == s[k].0,
    ensures
        assoc_uniq(t),
        forall|k: ChunkId| #![trigger assoc_has(t, k)] #![trigger assoc_has(s, k)]
            assoc_has(t, k) <==> assoc_has(s, k),
        forall|k: ChunkId| #![trigger assoc_pos(t, k)]
            assoc_has(s, k) ==> assoc_pos(t, k) == assoc_pos(s, k),
{
    assert forall|i: int, j: int| 0 <= i < j < t.len() implies (#[trigger] t[i]).0 != (
    #[trigger] t[j]).0 by {
        assert(s[i].0 != s[j].0);
    }
    assert forall|k: ChunkId| assoc_has(t, k) implies assoc_has(s, k) by {
        let w = choose|i: int| 0 <= i < t.len() && (#[trigger] t[i]).0 == k;
        assert(s[w].0 == k);
    }
    assert forall|k: ChunkId| assoc_has(s, k) implies assoc_has(t, k) by {
        let w = choose|i: int| 0 <= i < s.len() && (#[trigger] s[i]).0 == k;
        assert(t[w].0 == k);
    }
    assert forall|k: ChunkId| assoc_has(s, k) implies #[trigger] assoc_pos(t, k) == assoc_pos(
        s,
        k,
    ) by {
        let w = choose|i: int| 0 <= i < s.len() && (#[trigger] s[i]).0 == k;
        lemma_assoc_pos(s, k, w);
        assert(t[w].0 == k);
        lemma_assoc_pos(t, k, w);
    }
}

/// A map from chunk ids to values, backed by a duplicate-free
/// association vector that keeps its insertion order; the manager
/// walks it in that order when it selects work.
pub struct ChunkMap<V> {
    pub entries: Vec<(ChunkId, V)>,
}

impl<V> View for ChunkMap<V> {
    type V = Seq<(ChunkId, V)>;

    open spec fn view(&self) -> Seq<(ChunkId, V)> {
        self.entries@
    }
}

impl<V> ChunkMap<V> {
    /// Keys never repeat.
    pub open spec fn wf(self) -> bool {
        assoc_uniq(self@)
    }

    /// The empty map.
    pub fn new() -> (r: Self)
        ensures
            r@ == Seq::<(ChunkId, V)>::empty(),
            r.wf(),
    {
        ChunkMap { entries: Vec::new() }
    }

    /// Number of entries.
    pub fn len(&self) -> (r: usize)
        ensures
            r == self@.len(),
    {
        self.entries.len()
    }

    /// Index of the entry holding `id`, if any.
    pub(crate) fn position(&self, id: ChunkId) -> (r: Option<usize>)
        requires
            self.wf(),
        ensures
            r is Some <==> assoc_has(self@, id),
            r matches Some(i) ==> 0 <= i < self@.len() && self@[i as int].0 == id && i as int
                == assoc_pos(self@, id),
    {
        let mut i: usize = 0;
        while i < self.entries.len()
            invariant
                self.wf(),
                i <= self@.len(),
                forall|k: int| 0 <= k < i ==> (#[trigger] self@[k]).0 != id,
            decreases self@.len() - i,
        {
            if self.entries[i].0 == id {
                proof {
                    lemma_assoc_pos(self@, id, i as int);
                }
                return Some(i);
            }
            i = i + 1;
        }
        None
    }

    /// Whether the map binds `id`.
    pub fn contains_id(&self, id: ChunkId) -> (r: bool)
        requires
            self.wf(),
        ensures
            r == assoc_has(self@, id),
    {
        self.position(id).is_some()
    }

    /// The value bound to `id`, if any.
    pub fn get(&self, id: ChunkId) -> (r: Option<&V>)
        requires
            self.wf(),
        ensures
            r is Some <==> assoc_has(self@, id),
            r matches Some(v) ==> *v == assoc_get(self@, id),
    {
        match self.position(id) {
            Some(i) => Some(&self.entries[i].1),
            None => None,
        }
    }

    /// Binds `id` to `v`, replacing in place or appending.
    pub fn insert(&mut self, id: ChunkId, v: V)
        requires
            old(self).wf(),
        ensures
            final(self)@ == assoc_set(old(self)@, id, v),
            final(self).wf(),
    {
        proof {
            lemma_assoc_set(self@, id, v);
        }
        match self.position(id) {
            Some(i) => {
                self.entries[i] = (id, v);
                assert(self@ =~= assoc_set(old(self)@, id, v));
            },
            None => {
                self.entries.push((id, v));
            },
        }
    }

    /// Unbinds `id` if present.
    pub fn remove(&mut self, id: ChunkId)
        requires
            old(self).wf(),
        ensures
            final(self)@ == assoc_remove(old(self)@, id),
            final(self).wf(),
    {
        proof {
            lemma_assoc_remove(self@, id);
        }
        match self.position(id) {
            Some(i) => {
                self.entries.remove(i);
            },
            None => {},
        }
    }

    /// Key of the entry at position `i`.
    pub fn key_at(&self, i: usize) -> (r: ChunkId)
        requires
            i < self@.len(),
        ensures
            r == self@[i as int].0,
    {
        self.entries[i].0
    }

    /// Value of the entry at position `i`.
    pub fn value_at(&self, i: usize) -> (r: &V)
        requires
            i < self@.len(),
        ensures
            *r == self@[i as int].1,
    {
        &self.entries[i].1
    }

    /// Mutable access to the value at position `i`; the key stays.
    pub fn value_at_mut(&mut self, i: usize) -> (r: &mut V)
        requires
            i < old(self)@.len(),
        ensures
            *r == old(self)@[i as int].1,
            final(self)@ == old(self)@.update(i as int, (old(self)@[i as int].0, *final(r))),
    {
        let e = &mut self.entries[i];
        &mut e.1
    }

    /// Drops every entry whose key left `area`.
    pub fn retain_area(&mut self, area: &LoadArea)
        requires
            old(self).wf(),
        ensures
            final(self)@ == assoc_keep(old(self)@, *area),
            final(self).wf(),
    {
        proof {
            lemma_assoc_keep(old(self)@, *area);
        }
        let mut i: usize = self.entries.len();
        while i > 0
            invariant
                i <= old(self)@.len(),
                self@ == old(self)@.take(i as int) + assoc_keep(old(self)@.skip(i as int), *area),
            decreases i,
        {
            let ghost s0 = old(self)@;
            assert(self@[i - 1] == s0[i - 1]);
            let keep = area.contains(self.entries[i - 1].0);
            if !keep {
                self.entries.remove(i - 1);
            }
            i = i - 1;
            proof {
                assert(s0.skip(i as int).drop_first() =~= s0.skip(i + 1));
                assert(s0.skip(i as int)[0] == s0[i as int]);
                if keep {
                    assert(self@ =~= s0.take(i as int) + assoc_keep(s0.skip(i as int), *area));
                } else {
                    assert(self@ =~= s0.take(i as int) + assoc_keep(s0.skip(i as int), *area));
                }
            }
        }
        proof {
            assert(old(self)@.skip(0) =~= old(self)@);
            assert(self@ =~= assoc_keep(old(self)@, *area));
        }
    }

    /// Drops every entry.
    pub fn clear(&mut self)
        ensures
            final(self)@ == Seq::<(ChunkId, V)>::empty(),
            final(self).wf(),
    {
        self.entries.clear();
    }

    /// The keys, in entry order.
    pub fn ids(&self) -> (r: Vec<ChunkId>)
        ensures
            r@ == assoc_keys(self@),
    {
        let mut v: Vec<ChunkId> = Vec::new();
        let mut i: usize = 0;
        while i < self.entries.len()
            invariant
                i <= self@.len(),
                v@.len() == i,
                forall|k: int| 0 <= k < i ==> v@[k] == (#[trigger] self@[k]).0,
            decreases self@.len() - i,
        {
            v.push(self.entries[i].0);
            i = i + 1;
        }
        assert(v@ =~= assoc_keys(self@));
        v
    }

    /// Releases spare backing storage; the contents stay.
    /// Relies on `Vec::shrink_to_fit`: it only shrinks capacity and
    /// leaves the elements untouched.
    #[verifier::external_body]
    pub fn shrink_to_fit(&mut self)
        ensures
            final(self)@ == old(self)@,
    {
        self.entries.shrink_to_fit();
    }
}

} // verus!
