use crate::face::Face;
use bevy::utils::HashMap;
use vstd::prelude::*;

verus! {

/// The map from the first vertex of each quad to its (voxel, face), held in bevy's hash
/// map (hashbrown's `HashMap` under bevy's default hasher). Verus does not take the map's
/// type itself, whose allocator parameter the crate cannot name, so it stays in a private
/// field here and is reached only through the methods below.
#[verifier::external_body]
pub struct ReverseMap {
    m: HashMap<u32, (usize, Face)>,
}

/// The entries that a reverse map holds.
pub uninterp spec fn reverse_map_contents(m: ReverseMap) -> Map<u32, (usize, Face)>;

impl View for ReverseMap {
    type V = Map<u32, (usize, Face)>;

    open spec fn view(&self) -> Map<u32, (usize, Face)> {
        reverse_map_contents(*self)
    }
}

impl ReverseMap {
    /// Relies on `HashMap::default` (hashbrown): a map with no entries.
    #[verifier::external_body]
    pub fn new() -> (result: ReverseMap)
        ensures
            reverse_map_contents(result) =~= Map::empty(),
    {
        ReverseMap { m: HashMap::default() }
    }

    /// Relies on hashbrown's `HashMap::insert`: afterwards `k` maps to `v`, and every
    /// other entry stays.
    #[verifier::external_body]
    pub fn insert(&mut self, k: u32, v: (usize, Face))
        ensures
            reverse_map_contents(*final(self)) == reverse_map_contents(*old(self)).insert(k, v),
    {
        self.m.insert(k, v);
    }

    /// Relies on hashbrown's `HashMap::remove`: the value at `k` if there was one, and
    /// the map without `k`.
    #[verifier::external_body]
    pub fn remove(&mut self, k: u32) -> (r: Option<(usize, Face)>)
        ensures
            reverse_map_contents(*final(self)) == reverse_map_contents(*old(self)).remove(k),
            r == if reverse_map_contents(*old(self)).contains_key(k) {
                Some(reverse_map_contents(*old(self))[k])
            } else {
                None
            },
    {
        self.m.remove(&k)
    }

    /// Relies on hashbrown's `HashMap::get`: the value at `k`, if any.
    #[verifier::external_body]
    pub fn get(&self, k: u32) -> (r: Option<(usize, Face)>)
        ensures
            r == if reverse_map_contents(*self).contains_key(k) {
                Some(reverse_map_contents(*self)[k])
            } else {
                None
            },
    {
        self.m.get(&k).copied()
    }

    /// Relies on hashbrown's `HashMap::len`: the number of entries.
    #[verifier::external_body]
    pub fn len(&self) -> (r: usize)
        ensures
            r == reverse_map_contents(*self).len(),
    {
        self.m.len()
    }
}

/// The reverse index of a mesh: for each voxel the quads emitted for it, as (face, first
/// vertex) pairs, and for each first vertex the (voxel, face) of its quad.
pub struct VIVI {
    pub vivi: Vec<Vec<(Face, u32)>>,
    pub map: ReverseMap,
}

impl View for VIVI {
    type V = Map<u32, (usize, Face)>;

    /// First vertex of each tracked quad, to the voxel and face of the quad.
    open spec fn view(&self) -> Map<u32, (usize, Face)> {
        self.map@
    }
}

/// The first vertex of the quad tracked for `(voxel, face)` in `m`, if any.
pub open spec fn has_quad(m: Map<u32, (usize, Face)>, voxel: usize, face: Face) -> bool {
    exists|x: u32| #[trigger] m.contains_key(x) && m[x] == (voxel, face)
}

impl VIVI {
    /// The two directions agree: every per-voxel entry is in the map and back, and no
    /// voxel lists a face twice.
    pub open spec fn wf(&self) -> bool {
        &&& forall|v: usize, j: int|
            v < self.vivi@.len() && 0 <= j < self.vivi@[v as int]@.len() ==> {
                let e = #[trigger] self.vivi@[v as int]@[j];
                self.map@.contains_key(e.1) && self.map@[e.1] == (v, e.0)
            }
        &&& forall|x: u32| #[trigger]
            self.map@.contains_key(x) ==> {
                &&& self.map@[x].0 < self.vivi@.len()
                &&& exists|j: int|
                    0 <= j < self.vivi@[self.map@[x].0 as int]@.len()
                        && #[trigger] self.vivi@[self.map@[x].0 as int]@[j] == (self.map@[x].1, x)
            }
        &&& forall|v: int, j: int, k: int|
            0 <= v < self.vivi@.len() && 0 <= j < self.vivi@[v]@.len() && 0 <= k
                < self.vivi@[v]@.len() && j != k ==> #[trigger] self.vivi@[v]@[j].0
                != #[trigger] self.vivi@[v]@[k].0
    }

    /// The number of voxels that the index covers.
    pub open spec fn voxels(&self) -> nat {
        self.vivi@.len()
    }

    /// An empty index for a grid of `voxel_count` voxels.
    pub fn new(voxel_count: usize) -> (r: VIVI)
        ensures
            r.wf(),
            r@ == Map::<u32, (usize, Face)>::empty(),
            r.voxels() == voxel_count,
    {
        let mut vivi: Vec<Vec<(Face, u32)>> = Vec::new();
        let mut i: usize = 0;
        while i < voxel_count
            invariant
                i <= voxel_count,
                vivi@.len() == i,
                forall|v: int| 0 <= v < i ==> (#[trigger] vivi@[v])@.len() == 0,
            decreases voxel_count - i,
        {
            vivi.push(Vec::new());
            i += 1;
        }
        VIVI { vivi, map: ReverseMap::new() }
    }

    /// Records that the quad of `face` on voxel `voxel_index` starts at vertex `vertex`.
    pub fn insert(&mut self, face: Face, voxel_index: usize, vertex: u32)
        requires
            old(self).wf(),
            voxel_index < old(self).voxels(),
            !old(self)@.contains_key(vertex),
            !has_quad(old(self)@, voxel_index, face),
        ensures
            final(self).wf(),
            final(self).voxels() == old(self).voxels(),
            final(self)@ == old(self)@.insert(vertex, (voxel_index, face)),
    {
        let ghost old_vivi = self.vivi@;
        let ghost old_list = self.vivi@[voxel_index as int]@;
        self.vivi[voxel_index].push((face, vertex));
        self.map.insert(vertex, (voxel_index, face));
        proof {
            assert(self.vivi@[voxel_index as int]@ == old_list.push((face, vertex)));
            assert forall|v: usize, j: int|
                v < self.vivi@.len() && 0 <= j < self.vivi@[v as int]@.len() implies {
                    let e = #[trigger] self.vivi@[v as int]@[j];
                    self.map@.contains_key(e.1) && self.map@[e.1] == (v, e.0)
                } by {
                if v != voxel_index || j < old_list.len() {
                    let e = old_vivi[v as int]@[j];
                    assert(old(self).map@.contains_key(e.1));
                    assert(e.1 != vertex);
                }
            }
            assert forall|x: u32| #[trigger]
                self.map@.contains_key(x) implies {
                    &&& self.map@[x].0 < self.vivi@.len()
                    &&& exists|j: int|
                        0 <= j < self.vivi@[self.map@[x].0 as int]@.len()
                            && #[trigger] self.vivi@[self.map@[x].0 as int]@[j] == (self.map@[x].1, x)
                } by {
                if x == vertex {
                    assert(self.vivi@[voxel_index as int]@[old_list.len() as int] == (face, vertex));
                } else {
                    let (v, f) = old(self).map@[x];
                    let j = choose|j: int|
                        0 <= j < old_vivi[v as int]@.len() && #[trigger] old_vivi[v as int]@[j] == (
                            f,
                            x,
                        );
                    assert(self.vivi@[v as int]@[j] == (f, x));
                }
            }
            assert forall|v: int, j: int, k: int|
                0 <= v < self.vivi@.len() && 0 <= j < self.vivi@[v]@.len() && 0 <= k
                    < self.vivi@[v]@.len() && j != k implies #[trigger] self.vivi@[v]@[j].0
                != #[trigger] self.vivi@[v]@[k].0 by {
                if v == voxel_index {
                    if j == old_list.len() {
                        let e = old_list[k];
                        assert(old(self).map@.contains_key(e.1));
                    } else if k == old_list.len() {
                        let e = old_list[j];
                        assert(old(self).map@.contains_key(e.1));
                    } else {
                        assert(old_vivi[v]@[j] == self.vivi@[v]@[j]);
                        assert(old_vivi[v]@[k] == self.vivi@[v]@[k]);
                    }
                } else {
                    assert(old_vivi[v]@[j] == self.vivi@[v]@[j]);
                    assert(old_vivi[v]@[k] == self.vivi@[v]@[k]);
                }
            }
        }
    }

    /// The number of tracked quads.
    pub fn len(&self) -> (r: usize)
        ensures
            r == self@.len(),
    {
        self.map.len()
    }

    /// The number of voxels that the index covers.
    pub fn voxel_count(&self) -> (r: usize)
        ensures
            r == self.voxels(),
    {
        self.vivi.len()
    }

    /// The first vertex of the quad of `face` on voxel `voxel_index`, if one is tracked.
    pub fn get_quad_index(&self, face: Face, voxel_index: usize) -> (r: Option<u32>)
        requires
            self.wf(),
            voxel_index < self.voxels(),
        ensures
            match r {
                Some(x) => self@.contains_key(x) && self@[x] == (voxel_index, face),
                None => !has_quad(self@, voxel_index, face),
            },
    {
        let list = &self.vivi[voxel_index];
        let mut j: usize = 0;
        while j < list.len()
            invariant
                self.wf(),
                voxel_index < self.voxels(),
                list@ == self.vivi@[voxel_index as int]@,
                j <= list@.len(),
                forall|k: int| 0 <= k < j ==> (#[trigger] list@[k]).0 != face,
            decreases list@.len() - j,
        {
            let (f, x) = list[j];
            if f == face {
                return Some(x);
            }
            j += 1;
        }
        proof {
            if has_quad(self@, voxel_index, face) {
                let x = choose|x: u32| #[trigger]
                    self@.contains_key(x) && self@[x] == (voxel_index, face);
                let k = choose|k: int|
                    0 <= k < self.vivi@[voxel_index as int]@.len()
                        && #[trigger] self.vivi@[voxel_index as int]@[k] == (face, x);
                assert(list@[k].0 == face);
            }
        }
        None
    }

    /// The position of `(face, x)` in the list of voxel `v`.
    fn find_entry(&self, v: usize, face: Face, x: u32) -> (r: usize)
        requires
            self.wf(),
            self@.contains_key(x),
            self@[x] == (v, face),
        ensures
            v < self.vivi@.len(),
            r < self.vivi@[v as int]@.len(),
            self.vivi@[v as int]@[r as int] == (face, x),
    {
        proof {
            assert(self.map@.contains_key(x));
        }
        let list = &self.vivi[v];
        let ghost jj = choose|j: int|
            0 <= j < self.vivi@[v as int]@.len() && #[trigger] self.vivi@[v as int]@[j] == (face, x);
        let mut j: usize = 0;
        while j < list.len()
            invariant
                v < self.vivi@.len(),
                list@ == self.vivi@[v as int]@,
                j <= jj,
                0 <= jj < list@.len(),
                list@[jj] == (face, x),
            decreases list@.len() - j,
        {
            let e = list[j];
            if e.0 == face && e.1 == x {
                return j;
            }
            j += 1;
        }
        j
    }

    /// Moves the tracked quad that starts at `old_vertex` to start at `new_vertex`.
    pub fn change_quad_index(&mut self, old_vertex: u32, new_vertex: u32)
        requires
            old(self).wf(),
            old(self)@.contains_key(old_vertex),
            !old(self)@.contains_key(new_vertex),
        ensures
            final(self).wf(),
            final(self).voxels() == old(self).voxels(),
            final(self)@ == old(self)@.remove(old_vertex).insert(new_vertex, old(self)@[old_vertex]),
    {
        let (v, face) = self.map.get(old_vertex).unwrap();
        let j = self.find_entry(v, face, old_vertex);
        let ghost old_vivi = self.vivi@;
        let ghost old_list = self.vivi@[v as int]@;
        self.vivi[v].set(j, (face, new_vertex));
        self.map.remove(old_vertex);
        self.map.insert(new_vertex, (v, face));
        proof {
            assert(self.vivi@[v as int]@ == old_list.update(j as int, (face, new_vertex)));
            assert forall|w: usize, i: int|
                w < self.vivi@.len() && 0 <= i < self.vivi@[w as int]@.len() implies {
                    let e = #[trigger] self.vivi@[w as int]@[i];
                    self.map@.contains_key(e.1) && self.map@[e.1] == (w, e.0)
                } by {
                if w != v || i != j {
                    let e = old_vivi[w as int]@[i];
                    assert(old(self).map@.contains_key(e.1));
                    if e.1 == old_vertex {
                        assert(old_vivi[v as int]@[j as int] == (face, old_vertex));
                    }
                }
            }
            assert forall|x: u32| #[trigger]
                self.map@.contains_key(x) implies {
                    &&& self.map@[x].0 < self.vivi@.len()
                    &&& exists|i: int|
                        0 <= i < self.vivi@[self.map@[x].0 as int]@.len()
                            && #[trigger] self.vivi@[self.map@[x].0 as int]@[i] == (self.map@[x].1, x)
                } by {
                if x == new_vertex {
                    assert(self.vivi@[v as int]@[j as int] == (face, new_vertex));
                } else {
                    let (w, f) = old(self).map@[x];
                    let i = choose|i: int|
                        0 <= i < old_vivi[w as int]@.len() && #[trigger] old_vivi[w as int]@[i] == (
                            f,
                            x,
                        );
                    assert(self.vivi@[w as int]@[i] == (f, x));
                }
            }
            assert forall|w: int, a: int, b: int|
                0 <= w < self.vivi@.len() && 0 <= a < self.vivi@[w]@.len() && 0 <= b
                    < self.vivi@[w]@.len() && a != b implies #[trigger] self.vivi@[w]@[a].0
                != #[trigger] self.vivi@[w]@[b].0 by {
                assert(old_vivi[w]@[a].0 == self.vivi@[w]@[a].0);
                assert(old_vivi[w]@[b].0 == self.vivi@[w]@[b].0);
            }
            assert(self.map@ =~= old(self)@.remove(old_vertex).insert(new_vertex, old(self)@[old_vertex]));
        }
    }

    /// Stops tracking the quad that starts at `old_vertex`.
    pub fn remove_quad(&mut self, old_vertex: u32)
        requires
            old(self).wf(),
            old(self)@.contains_key(old_vertex),
        ensures
            final(self).wf(),
            final(self).voxels() == old(self).voxels(),
            final(self)@ == old(self)@.remove(old_vertex),
    {
        let (v, face) = self.map.get(old_vertex).unwrap();
        let j = self.find_entry(v, face, old_vertex);
        let ghost old_vivi = self.vivi@;
        let ghost old_list = self.vivi@[v as int]@;
        let last = self.vivi[v].len() - 1;
        let moved = self.vivi[v][last];
        self.vivi[v].set(j, moved);
        self.vivi[v].pop();
        self.map.remove(old_vertex);
        proof {
            let nl = self.vivi@[v as int]@;
            assert(nl == old_list.update(j as int, moved).drop_last());
            assert forall|i: int| 0 <= i < nl.len() implies #[trigger] nl[i] == (if i == j {
                old_list[last as int]
            } else {
                old_list[i]
            }) && (if i == j { last as int } else { i }) != j by {}
            assert forall|w: usize, i: int|
                w < self.vivi@.len() && 0 <= i < self.vivi@[w as int]@.len() implies {
                    let e = #[trigger] self.vivi@[w as int]@[i];
                    self.map@.contains_key(e.1) && self.map@[e.1] == (w, e.0)
                } by {
                let src = if w == v && i == j { last as int } else { i };
                let e = old_vivi[w as int]@[src];
                assert(self.vivi@[w as int]@[i] == e);
                assert(old(self).map@.contains_key(e.1));
                if e.1 == old_vertex {
                    assert(old_vivi[v as int]@[j as int] == (face, old_vertex));
                    assert(old_vivi[w as int]@[src].0 == old_vivi[w as int]@[j as int].0);
                }
            }
            assert forall|x: u32| #[trigger]
                self.map@.contains_key(x) implies {
                    &&& self.map@[x].0 < self.vivi@.len()
                    &&& exists|i: int|
                        0 <= i < self.vivi@[self.map@[x].0 as int]@.len()
                            && #[trigger] self.vivi@[self.map@[x].0 as int]@[i] == (self.map@[x].1, x)
                } by {
                let (w, f) = old(self).map@[x];
                let i = choose|i: int|
                    0 <= i < old_vivi[w as int]@.len() && #[trigger] old_vivi[w as int]@[i] == (f, x);
                if w == v {
                    assert(i != j);
                    if i == last {
                        assert(self.vivi@[w as int]@[j as int] == (f, x));
                    } else {
                        assert(self.vivi@[w as int]@[i] == (f, x));
                    }
                } else {
                    assert(self.vivi@[w as int]@[i] == (f, x));
                }
            }
            assert forall|w: int, a: int, b: int|
                0 <= w < self.vivi@.len() && 0 <= a < self.vivi@[w]@.len() && 0 <= b
                    < self.vivi@[w]@.len() && a != b implies #[trigger] self.vivi@[w]@[a].0
                != #[trigger] self.vivi@[w]@[b].0 by {
                let sa = if w == v && a == j { last as int } else { a };
                let sb = if w == v && b == j { last as int } else { b };
                assert(self.vivi@[w]@[a] == old_vivi[w]@[sa]);
                assert(self.vivi@[w]@[b] == old_vivi[w]@[sb]);
            }
        }
    }
}

impl VIVI {
    /// A (voxel, face) pair is tracked under one first vertex at most.
    pub proof fn lemma_unique(&self, x1: u32, x2: u32)
        requires
            self.wf(),
            self@.contains_key(x1),
            self@.contains_key(x2),
            self@[x1] == self@[x2],
        ensures
            x1 == x2,
    {
        let v = self@[x1].0;
        let f = self@[x1].1;
        let j1 = choose|j: int|
            0 <= j < self.vivi@[v as int]@.len() && #[trigger] self.vivi@[v as int]@[j] == (f, x1);
        let j2 = choose|j: int|
            0 <= j < self.vivi@[v as int]@.len() && #[trigger] self.vivi@[v as int]@[j] == (f, x2);
        if j1 != j2 {
            assert(self.vivi@[v as int]@[j1].0 != self.vivi@[v as int]@[j2].0);
        }
    }
}

} // verus!
