//! The lattice of indexes of a fully indexed dataset: each index is a
//! "citizen" that keys quads by one, two or three of their terms, and is
//! built from a parent citizen that keys them by one more term.
use vstd::prelude::*;
use std::collections::{BTreeMap, BTreeSet};
use vstd::laws_cmp::obeys_cmp;
use crate::full_index::{add_pair, holds, lawful, map_pairs, set_elements};
use crate::quad::{quad_views, quads_of_arrays};
use crate::tree::distinct_quads;

verus! {

broadcast use vstd::std_specs::btree::group_btree_axioms;

/// Index of the PGS citizen among the citizens of level 3.
pub const POS_PGS: usize = 0;
/// Index of the PGO citizen among the citizens of level 3.
pub const POS_PGO: usize = 1;
/// Index of the PSO citizen among the citizens of level 3.
pub const POS_PSO: usize = 2;
/// Index of the GSO citizen among the citizens of level 3.
pub const POS_GSO: usize = 3;

/// Index of the PG citizen among the citizens of level 2.
pub const POS_PG: usize = 0;
/// Index of the PS citizen among the citizens of level 2.
pub const POS_PS: usize = 1;
/// Index of the GS citizen among the citizens of level 2.
pub const POS_GS: usize = 2;
/// Index of the PO citizen among the citizens of level 2.
pub const POS_PO: usize = 3;
/// Index of the GO citizen among the citizens of level 2.
pub const POS_GO: usize = 4;
/// Index of the SO citizen among the citizens of level 2.
pub const POS_SO: usize = 5;

/// Index of the P citizen among the citizens of level 1.
pub const POS_P: usize = 0;
/// Index of the G citizen among the citizens of level 1.
pub const POS_G: usize = 1;
/// Index of the S citizen among the citizens of level 1.
pub const POS_S: usize = 2;
/// Index of the O citizen among the citizens of level 1.
pub const POS_O: usize = 3;

/// The position that stands for "no term" in the list of terms that a
/// citizen keys quads by.
pub const GET_PARENT_CITIZEN_INVALID_INDEX: usize = 99;

/// The citizens of the lattice: three levels, with 4, 6 and 4 citizens.
pub open spec fn is_citizen(level: u8, position: usize) -> bool {
    ||| level == 3 && position < 4
    ||| level == 2 && position < 6
    ||| level == 1 && position < 4
}

/// For a citizen: the positions of the terms it keys quads by (padded with
/// [`GET_PARENT_CITIZEN_INVALID_INDEX`]), the index of its parent citizen
/// in the level above, and the position of the term it maps keys to.
pub open spec fn citizen(level: u8, position: usize) -> (Seq<usize>, usize, usize) {
    let s: usize = 0;
    let p: usize = 1;
    let o: usize = 2;
    let g: usize = 3;
    let i: usize = 99;
    if level == 3 {
        if position == 0 {
            (seq![p, g, s], 0, o)
        } else if position == 1 {
            (seq![p, g, o], 0, s)
        } else if position == 2 {
            (seq![p, s, o], 0, g)
        } else {
            (seq![g, s, o], 0, p)
        }
    } else if level == 2 {
        if position == 0 {
            (seq![p, g, i], 0, s)
        } else if position == 1 {
            (seq![p, s, i], 0, g)
        } else if position == 2 {
            (seq![g, s, i], 0, p)
        } else if position == 3 {
            (seq![p, o, i], 1, g)
        } else if position == 4 {
            (seq![g, o, i], 1, p)
        } else {
            (seq![s, o, i], 2, p)
        }
    } else {
        if position == 0 {
            (seq![p, i, i], 0, g)
        } else if position == 1 {
            (seq![g, i, i], 0, p)
        } else if position == 2 {
            (seq![s, i, i], 1, p)
        } else {
            (seq![o, i, i], 3, p)
        }
    }
}

/// The rank of the first occurrence of `searched_term` in `parent_terms`,
/// which must hold it.
pub fn index_of(searched_term: usize, parent_terms: [usize; 3]) -> (r: usize)
    requires
        parent_terms@.contains(searched_term),
    ensures
        r < 3,
        parent_terms@[r as int] == searched_term,
        forall|k: int| 0 <= k < r ==> parent_terms@[k] != searched_term,
{
    let mut i: usize = 0;
    while i < 3
        invariant
            0 <= i <= 3,
            parent_terms@.contains(searched_term),
            forall|k: int| 0 <= k < i ==> parent_terms@[k] != searched_term,
        decreases 3 - i,
    {
        if parent_terms[i] == searched_term {
            return i;
        }
        i = i + 1;
    }
    proof {
        let k = choose|k: int| 0 <= k < 3 && parent_terms@[k] == searched_term;
        assert(parent_terms@[k] != searched_term);
    }
    0
}

/// The description of a citizen of the lattice (see [`citizen`]): the
/// terms it keys quads by, its parent and the term it maps keys to.
pub fn get_parent_citizen(current_citizen_level: u8, citizen_position: usize) -> (r: (
    [usize; 3],
    usize,
    usize,
))
    requires
        is_citizen(current_citizen_level, citizen_position),
    ensures
        (r.0@, r.1, r.2) == citizen(current_citizen_level, citizen_position),
{
    let s: usize = 0;
    let p: usize = 1;
    let o: usize = 2;
    let g: usize = 3;
    let i: usize = GET_PARENT_CITIZEN_INVALID_INDEX;
    let r = if current_citizen_level == 3 {
        if citizen_position == POS_PGS {
            ([p, g, s], 0, o)
        } else if citizen_position == POS_PGO {
            ([p, g, o], 0, s)
        } else if citizen_position == POS_PSO {
            ([p, s, o], 0, g)
        } else {
            ([g, s, o], 0, p)
        }
    } else if current_citizen_level == 2 {
        if citizen_position == POS_PG {
            ([p, g, i], POS_PGS, s)
        } else if citizen_position == POS_PS {
            ([p, s, i], POS_PGS, g)
        } else if citizen_position == POS_GS {
            ([g, s, i], POS_PGS, p)
        } else if citizen_position == POS_PO {
            ([p, o, i], POS_PGO, g)
        } else if citizen_position == POS_GO {
            ([g, o, i], POS_PGO, p)
        } else {
            ([s, o, i], POS_PSO, p)
        }
    } else {
        if citizen_position == POS_P {
            ([p, i, i], POS_PG, g)
        } else if citizen_position == POS_G {
            ([g, i, i], POS_PG, p)
        } else if citizen_position == POS_S {
            ([s, i, i], POS_PS, p)
        } else {
            ([o, i, i], POS_PO, p)
        }
    };
    proof {
        assert(r.0@ =~= citizen(current_citizen_level, citizen_position).0);
    }
    r
}

/// Every citizen below the top level can be built from its parent: the
/// parent is a citizen of the level above, and it keys quads by every term
/// that the citizen keys them by, and by the term that the citizen maps
/// keys to. So [`index_of`] finds each of them in the parent's terms.
pub proof fn law_parent_keys_child_terms(level: u8, position: usize)
    requires
        is_citizen(level, position),
        level < 3,
    ensures
        ({
            let (terms, parent, mapped) = citizen(level, position);
            let parent_terms = citizen((level + 1) as u8, parent).0;
            &&& is_citizen((level + 1) as u8, parent)
            &&& parent_terms.contains(terms[0])
            &&& level == 2 ==> parent_terms.contains(terms[1])
            &&& parent_terms.contains(mapped)
        }),
{
    let (terms, parent, mapped) = citizen(level, position);
    let parent_terms = citizen((level + 1) as u8, parent).0;
    assert(parent_terms[0] == parent_terms[0]);
    assert(parent_terms[1] == parent_terms[1]);
    assert(parent_terms[2] == parent_terms[2]);
}


/// An index keyed by three terms.
pub type ThreeTermIndex = BTreeMap<(u32, u32, u32), BTreeSet<u32>>;
/// An index keyed by two terms.
pub type TwoTermIndex = BTreeMap<(u32, u32), BTreeSet<u32>>;
/// An index keyed by one term.
pub type OneTermIndex = BTreeMap<u32, BTreeSet<u32>>;

/// The quads that the first index (keyed by predicate, graph name and
/// subject, mapped to objects) holds.
pub open spec fn quads_of_first(m: Map<(u32, u32, u32), BTreeSet<u32>>) -> Set<Seq<u32>> {
    Set::new(|q: Seq<u32>| q.len() == 4 && holds(m, (q[1], q[3], q[0]), q[2]))
}

/// The index keyed by three terms maps, for the citizen whose key terms are
/// `t` and whose mapped term is `m`, each key to the mapped terms of the
/// quads of `quads` that have that key.
pub open spec fn serves3(index: Map<(u32, u32, u32), BTreeSet<u32>>, quads: Set<Seq<u32>>, t: Seq<usize>, m: usize) -> bool {
    forall|k: (u32, u32, u32), v: u32|
        #[trigger] holds(index, k, v) <==> exists|q: Seq<u32>|
            #[trigger] quads.contains(q) && q[t[0] as int] == k.0 && q[t[1] as int] == k.1 && q[t[2] as int] == k.2
                && q[m as int] == v
}

/// The same for an index keyed by two terms.
pub open spec fn serves2(index: Map<(u32, u32), BTreeSet<u32>>, quads: Set<Seq<u32>>, t: Seq<usize>, m: usize) -> bool {
    forall|k: (u32, u32), v: u32|
        #[trigger] holds(index, k, v) <==> exists|q: Seq<u32>|
            #[trigger] quads.contains(q) && q[t[0] as int] == k.0 && q[t[1] as int] == k.1 && q[m as int] == v
}

/// The same for an index keyed by one term.
pub open spec fn serves1(index: Map<u32, BTreeSet<u32>>, quads: Set<Seq<u32>>, t: Seq<usize>, m: usize) -> bool {
    forall|k: u32, v: u32|
        #[trigger] holds(index, k, v) <==> exists|q: Seq<u32>|
            #[trigger] quads.contains(q) && q[t[0] as int] == k && q[m as int] == v
}

/// The keys and values of the indexes are lawfully ordered.
proof fn lemma_lattice_lawful()
    ensures
        lawful::<(u32, u32, u32), u32>(),
        lawful::<(u32, u32), u32>(),
        lawful::<u32, u32>(),
{
    broadcast use vstd::laws_cmp::group_laws_cmp;

    assert(obeys_cmp::<(u32, u32, u32)>());
    assert(obeys_cmp::<(u32, u32)>());
    assert(obeys_cmp::<u32>());
}

/// The indexes of a lattice dataset: one per citizen, each built when a
/// request needs it from the index of its parent citizen. The first index
/// of the top level (PGS, mapped to objects) is always built and holds the
/// quads.
pub struct LatticeData {
    three_indexes: Vec<Option<ThreeTermIndex>>,
    two_indexes: Vec<Option<TwoTermIndex>>,
    one_indexes: Vec<Option<OneTermIndex>>,
}

impl LatticeData {
    /// The quads of the dataset.
    pub closed spec fn quads(&self) -> Set<Seq<u32>> {
        quads_of_first(self.three_indexes@[0]->0@)
    }

    /// Whether the index of the citizen is built.
    pub closed spec fn built(&self, level: u8, position: int) -> bool {
        if level == 3 {
            self.three_indexes@[position] is Some
        } else if level == 2 {
            self.two_indexes@[position] is Some
        } else {
            self.one_indexes@[position] is Some
        }
    }

    /// There is an index for each citizen, the first one is built, and
    /// every built index serves its citizen over the quads of the dataset.
    pub closed spec fn well_formed(&self) -> bool {
        &&& self.three_indexes@.len() == 4
        &&& self.two_indexes@.len() == 6
        &&& self.one_indexes@.len() == 4
        &&& self.three_indexes@[0] is Some
        &&& forall|p: int|
            0 <= p < 4 && (#[trigger] self.three_indexes@[p]) is Some ==> serves3(
                self.three_indexes@[p]->0@,
                self.quads(),
                citizen(3, p as usize).0,
                citizen(3, p as usize).2,
            )
        &&& forall|p: int|
            0 <= p < 6 && (#[trigger] self.two_indexes@[p]) is Some ==> serves2(
                self.two_indexes@[p]->0@,
                self.quads(),
                citizen(2, p as usize).0,
                citizen(2, p as usize).2,
            )
        &&& forall|p: int|
            0 <= p < 4 && (#[trigger] self.one_indexes@[p]) is Some ==> serves1(
                self.one_indexes@[p]->0@,
                self.quads(),
                citizen(1, p as usize).0,
                citizen(1, p as usize).2,
            )
    }

    /// A dataset holding the quads of `quads`, with only its first index
    /// built.
    pub fn from_quads(quads: &Vec<[u32; 4]>) -> (r: LatticeData)
        ensures
            r.well_formed(),
            r.quads() == quads_of_arrays(quads@),
            forall|p: int| 0 <= p < 4 ==> #[trigger] r.built(3, p) == (p == 0),
            forall|p: int| 0 <= p < 6 ==> !#[trigger] r.built(2, p),
            forall|p: int| 0 <= p < 4 ==> !#[trigger] r.built(1, p),
    {
        proof {
            lemma_lattice_lawful();
        }
        let mut first: ThreeTermIndex = BTreeMap::new();
        let mut i: usize = 0;
        while i < quads.len()
            invariant
                0 <= i <= quads@.len(),
                lawful::<(u32, u32, u32), u32>(),
                forall|k: (u32, u32, u32), v: u32|
                    #[trigger] holds(first@, k, v) <==> exists|j: int|
                        0 <= j < i && (#[trigger] quads@[j])@ == seq![k.2, k.0, v, k.1],
            decreases quads@.len() - i,
        {
            let q = quads[i];
            add_pair(&mut first, (q[1], q[3], q[0]), q[2]);
            proof {
                assert forall|k: (u32, u32, u32), v: u32|
                    #[trigger] holds(first@, k, v) <==> exists|j: int|
                        0 <= j < i + 1 && (#[trigger] quads@[j])@ == seq![k.2, k.0, v, k.1] by {
                    if k == (q[1], q[3], q[0]) && v == q[2] {
                        assert(quads@[i as int]@ =~= seq![k.2, k.0, v, k.1]);
                    }
                    if exists|j: int| 0 <= j < i + 1 && (#[trigger] quads@[j])@ == seq![k.2, k.0, v, k.1] {
                        let j = choose|j: int| 0 <= j < i + 1 && (#[trigger] quads@[j])@ == seq![k.2, k.0, v, k.1];
                        if j == i {
                            assert(quads@[j]@[1] == k.0 && quads@[j]@[3] == k.1 && quads@[j]@[0] == k.2 && quads@[j]@[2] == v);
                        }
                    }
                }
            }
            i = i + 1;
        }
        let mut three_indexes: Vec<Option<ThreeTermIndex>> = Vec::new();
        three_indexes.push(Some(first));
        three_indexes.push(None);
        three_indexes.push(None);
        three_indexes.push(None);
        let mut two_indexes: Vec<Option<TwoTermIndex>> = Vec::new();
        let mut k: usize = 0;
        while k < 6
            invariant
                0 <= k <= 6,
                two_indexes@.len() == k,
                forall|p: int| 0 <= p < k ==> (#[trigger] two_indexes@[p]) is None,
            decreases 6 - k,
        {
            two_indexes.push(None);
            k = k + 1;
        }
        let mut one_indexes: Vec<Option<OneTermIndex>> = Vec::new();
        let mut k: usize = 0;
        while k < 4
            invariant
                0 <= k <= 4,
                one_indexes@.len() == k,
                forall|p: int| 0 <= p < k ==> (#[trigger] one_indexes@[p]) is None,
            decreases 4 - k,
        {
            one_indexes.push(None);
            k = k + 1;
        }
        let r = LatticeData { three_indexes, two_indexes, one_indexes };
        proof {
            let f = r.three_indexes@[0]->0@;
            assert(f == first@);
            assert forall|q: Seq<u32>| #[trigger] r.quads().contains(q) <==> quads_of_arrays(quads@).contains(q) by {
                if r.quads().contains(q) {
                    let j = choose|j: int| 0 <= j < quads@.len() && (#[trigger] quads@[j])@ == seq![q[3 - 3], q[1], q[2], q[3]];
                    assert(q =~= quads@[j]@);
                    assert(quad_views(quads@)[j] == q);
                }
                if quads_of_arrays(quads@).contains(q) {
                    let j = choose|j: int| 0 <= j < quad_views(quads@).len() && quad_views(quads@)[j] == q;
                    assert(quads@[j]@ == q);
                    assert(quads@[j]@ =~= seq![q[0], q[1], q[2], q[3]]);
                    assert(holds(f, (q[1], q[3], q[0]), q[2]));
                }
            }
            assert(r.quads() =~= quads_of_arrays(quads@));
            assert(serves3(f, r.quads(), citizen(3, 0usize).0, citizen(3, 0usize).2)) by {
                assert forall|kk: (u32, u32, u32), v: u32|
                    #[trigger] holds(f, kk, v) <==> exists|q: Seq<u32>|
                        #[trigger] r.quads().contains(q) && q[1] == kk.0 && q[3] == kk.1 && q[0] == kk.2 && q[2] == v by {
                    if holds(f, kk, v) {
                        let q = seq![kk.2, kk.0, v, kk.1];
                        assert(r.quads().contains(q));
                    }
                }
            }
        }
        r
    }
}


/// The quad that the first index stores as the key `kv.0` mapped to `kv.1`.
pub open spec fn first_quad(kv: ((u32, u32, u32), u32)) -> Seq<u32> {
    seq![kv.0.2, kv.0.0, kv.1, kv.0.1]
}

/// The terms of `q` at the positions `t[0]`, `t[1]` and `t[2]`.
pub open spec fn key3_of(q: Seq<u32>, t: Seq<usize>) -> (u32, u32, u32) {
    (q[t[0] as int], q[t[1] as int], q[t[2] as int])
}

/// The `i`-th component of a key of three terms.
pub open spec fn at3(k: (u32, u32, u32), i: int) -> u32 {
    if i == 0 {
        k.0
    } else if i == 1 {
        k.1
    } else {
        k.2
    }
}

/// The `i`-th component of a key of three terms.
fn get3(k: (u32, u32, u32), i: usize) -> (r: u32)
    ensures
        r == at3(k, i as int),
{
    if i == 0 {
        k.0
    } else if i == 1 {
        k.1
    } else {
        k.2
    }
}

/// The `i`-th component of a key of two terms.
pub open spec fn at2(k: (u32, u32), i: int) -> u32 {
    if i == 0 {
        k.0
    } else {
        k.1
    }
}

/// The `i`-th component of a key of two terms.
fn get2(k: (u32, u32), i: usize) -> (r: u32)
    ensures
        r == at2(k, i as int),
{
    if i == 0 {
        k.0
    } else {
        k.1
    }
}

impl LatticeData {
    /// Builds, if it is not built yet, the index of the citizen of level 3
    /// at `position`, from the first index.
    pub fn ensure_built_3(&mut self, position: usize)
        requires
            old(self).well_formed(),
            position < 4,
        ensures
            final(self).well_formed(),
            final(self).quads() == old(self).quads(),
            final(self).built(3, position as int),
            forall|p: int| 0 <= p < 4 && p != position ==> #[trigger] final(self).built(3, p) == old(self).built(3, p),
            forall|p: int| 0 <= p < 6 ==> #[trigger] final(self).built(2, p) == old(self).built(2, p),
            forall|p: int| 0 <= p < 4 ==> #[trigger] final(self).built(1, p) == old(self).built(1, p),
    {
        if self.three_indexes[position].is_some() {
            return;
        }
        proof {
            lemma_lattice_lawful();
        }
        let ghost quads = self.quads();
        let (t, _parent, m) = get_parent_citizen(3, position);
        let pairs = match &self.three_indexes[0] {
            Some(first) => map_pairs(first),
            None => Vec::new(),
        };
        let ghost first = self.three_indexes@[0]->0@;
        let mut map: ThreeTermIndex = BTreeMap::new();
        let mut i: usize = 0;
        while i < pairs.len()
            invariant
                0 <= i <= pairs@.len(),
                lawful::<(u32, u32, u32), u32>(),
                t@ == citizen(3, position).0,
                t@[0] < 4 && t@[1] < 4 && t@[2] < 4 && m < 4,
                forall|kk: (u32, u32, u32), vv: u32|
                    #[trigger] holds(map@, kk, vv) <==> exists|j: int|
                        0 <= j < i && key3_of(first_quad(#[trigger] pairs@[j]), t@) == kk && first_quad(pairs@[j])[m as int] == vv,
            decreases pairs@.len() - i,
        {
            let (k, v) = pairs[i];
            let q = [k.2, k.0, v, k.1];
            proof {
                assert(q@ =~= first_quad(pairs@[i as int]));
            }
            add_pair(&mut map, (q[t[0]], q[t[1]], q[t[2]]), q[m]);
            proof {
                assert forall|kk: (u32, u32, u32), vv: u32|
                    #[trigger] holds(map@, kk, vv) <==> exists|j: int|
                        0 <= j < i + 1 && key3_of(first_quad(#[trigger] pairs@[j]), t@) == kk && first_quad(pairs@[j])[m as int] == vv by {
                    if exists|j: int| 0 <= j < i + 1 && key3_of(first_quad(#[trigger] pairs@[j]), t@) == kk && first_quad(pairs@[j])[m as int] == vv {
                        let j = choose|j: int| 0 <= j < i + 1 && key3_of(first_quad(#[trigger] pairs@[j]), t@) == kk && first_quad(pairs@[j])[m as int] == vv;
                        if j < i {
                            assert(exists|j: int| 0 <= j < i && key3_of(first_quad(#[trigger] pairs@[j]), t@) == kk && first_quad(pairs@[j])[m as int] == vv);
                        }
                    }
                }
            }
            i = i + 1;
        }
        proof {
            assert forall|kk: (u32, u32, u32), vv: u32|
                #[trigger] holds(map@, kk, vv) <==> exists|q: Seq<u32>|
                    #[trigger] quads.contains(q) && q[t@[0] as int] == kk.0 && q[t@[1] as int] == kk.1 && q[t@[2] as int] == kk.2
                        && q[m as int] == vv by {
                if holds(map@, kk, vv) {
                    let j = choose|j: int|
                        0 <= j < pairs@.len() && key3_of(first_quad(#[trigger] pairs@[j]), t@) == kk && first_quad(pairs@[j])[m as int] == vv;
                    assert(pairs@.contains(pairs@[j]));
                    assert(holds(first, pairs@[j].0, pairs@[j].1));
                    let q = first_quad(pairs@[j]);
                    assert(quads.contains(q));
                }
                if exists|q: Seq<u32>|
                    #[trigger] quads.contains(q) && q[t@[0] as int] == kk.0 && q[t@[1] as int] == kk.1 && q[t@[2] as int] == kk.2
                        && q[m as int] == vv {
                    let q = choose|q: Seq<u32>|
                        #[trigger] quads.contains(q) && q[t@[0] as int] == kk.0 && q[t@[1] as int] == kk.1 && q[t@[2] as int] == kk.2
                            && q[m as int] == vv;
                    let kv = ((q[1], q[3], q[0]), q[2]);
                    assert(holds(first, kv.0, kv.1));
                    assert(pairs@.contains(kv));
                    let j = choose|j: int| 0 <= j < pairs@.len() && pairs@[j] == kv;
                    assert(first_quad(pairs@[j]) =~= q);
                }
            }
        }
        self.three_indexes.set(position, Some(map));
        proof {
            assert(self.three_indexes@[0] == old(self).three_indexes@[0]);
            assert(self.quads() == quads);
        }
    }
}


/// The entry that the index of a citizen of level 2 gets from the entry
/// `kv` of its parent: the parent's key terms at ranks `i1` and `i2`, mapped
/// to its key term at rank `iv`.
pub open spec fn entry2(kv: ((u32, u32, u32), u32), i1: int, i2: int, iv: int) -> ((u32, u32), u32) {
    ((at3(kv.0, i1), at3(kv.0, i2)), at3(kv.0, iv))
}

/// The entry that the index of a citizen of level 1 gets from the entry
/// `kv` of its parent: the parent's key term at rank `i1`, mapped to its
/// key term at rank `iv`.
pub open spec fn entry1(kv: ((u32, u32), u32), i1: int, iv: int) -> (u32, u32) {
    (at2(kv.0, i1), at2(kv.0, iv))
}

impl LatticeData {
    /// Builds, if it is not built yet, the index of the citizen of level 2
    /// at `position`, from the index of its parent, which is built first if
    /// it is not.
    pub fn ensure_built_2(&mut self, position: usize)
        requires
            old(self).well_formed(),
            position < 6,
        ensures
            final(self).well_formed(),
            final(self).quads() == old(self).quads(),
            final(self).built(2, position as int),
            final(self).built(3, citizen(2, position).1 as int),
            forall|p: int|
                0 <= p < 4 && p != citizen(2, position).1 ==> #[trigger] final(self).built(3, p) == old(self).built(3, p),
            forall|p: int| 0 <= p < 6 && p != position ==> #[trigger] final(self).built(2, p) == old(self).built(2, p),
            forall|p: int| 0 <= p < 4 ==> #[trigger] final(self).built(1, p) == old(self).built(1, p),
    {
        let (t, parent, m) = get_parent_citizen(2, position);
        proof {
            law_parent_keys_child_terms(2, position);
        }
        if self.two_indexes[position].is_some() {
            self.ensure_built_3(parent);
            return;
        }
        self.ensure_built_3(parent);
        proof {
            lemma_lattice_lawful();
        }
        let ghost quads = self.quads();
        let (pt, _grand, pm) = get_parent_citizen(3, parent);
        let i1 = index_of(t[0], pt);
        let i2 = index_of(t[1], pt);
        let iv = index_of(m, pt);
        let pairs = match &self.three_indexes[parent] {
            Some(parent_index) => map_pairs(parent_index),
            None => Vec::new(),
        };
        let ghost pindex = self.three_indexes@[parent as int]->0@;
        proof {
            assert(self.three_indexes@[parent as int] is Some);
            assert(serves3(pindex, quads, pt@, pm));
        }
        let mut map: TwoTermIndex = BTreeMap::new();
        let mut i: usize = 0;
        while i < pairs.len()
            invariant
                0 <= i <= pairs@.len(),
                lawful::<(u32, u32), u32>(),
                i1 < 3 && i2 < 3 && iv < 3,
                forall|kk: (u32, u32), vv: u32|
                    #[trigger] holds(map@, kk, vv) <==> exists|j: int|
                        0 <= j < i && entry2(#[trigger] pairs@[j], i1 as int, i2 as int, iv as int) == (kk, vv),
            decreases pairs@.len() - i,
        {
            let (k, _v) = pairs[i];
            add_pair(&mut map, (get3(k, i1), get3(k, i2)), get3(k, iv));
            proof {
                assert forall|kk: (u32, u32), vv: u32|
                    #[trigger] holds(map@, kk, vv) <==> exists|j: int|
                        0 <= j < i + 1 && entry2(#[trigger] pairs@[j], i1 as int, i2 as int, iv as int) == (kk, vv) by {
                    if exists|j: int| 0 <= j < i + 1 && entry2(#[trigger] pairs@[j], i1 as int, i2 as int, iv as int) == (kk, vv) {
                        let j = choose|j: int| 0 <= j < i + 1 && entry2(#[trigger] pairs@[j], i1 as int, i2 as int, iv as int) == (kk, vv);
                        if j < i {
                            assert(exists|j: int| 0 <= j < i && entry2(#[trigger] pairs@[j], i1 as int, i2 as int, iv as int) == (kk, vv));
                        }
                    }
                }
            }
            i = i + 1;
        }
        proof {
            assert forall|kk: (u32, u32), vv: u32|
                #[trigger] holds(map@, kk, vv) <==> exists|q: Seq<u32>|
                    #[trigger] quads.contains(q) && q[t@[0] as int] == kk.0 && q[t@[1] as int] == kk.1 && q[m as int] == vv by {
                if holds(map@, kk, vv) {
                    let j = choose|j: int|
                        0 <= j < pairs@.len() && entry2(#[trigger] pairs@[j], i1 as int, i2 as int, iv as int) == (kk, vv);
                    assert(pairs@.contains(pairs@[j]));
                    let k3 = pairs@[j].0;
                    assert(holds(pindex, k3, pairs@[j].1));
                    let q = choose|q: Seq<u32>|
                        #[trigger] quads.contains(q) && q[pt@[0] as int] == k3.0 && q[pt@[1] as int] == k3.1 && q[pt@[2] as int] == k3.2
                            && q[pm as int] == pairs@[j].1;
                    assert(at3(k3, i1 as int) == q[pt@[i1 as int] as int]);
                    assert(at3(k3, i2 as int) == q[pt@[i2 as int] as int]);
                    assert(at3(k3, iv as int) == q[pt@[iv as int] as int]);
                    assert(quads.contains(q) && q[t@[0] as int] == kk.0 && q[t@[1] as int] == kk.1 && q[m as int] == vv);
                }
                if exists|q: Seq<u32>|
                    #[trigger] quads.contains(q) && q[t@[0] as int] == kk.0 && q[t@[1] as int] == kk.1 && q[m as int] == vv {
                    let q = choose|q: Seq<u32>|
                        #[trigger] quads.contains(q) && q[t@[0] as int] == kk.0 && q[t@[1] as int] == kk.1 && q[m as int] == vv;
                    let k3 = key3_of(q, pt@);
                    assert(holds(pindex, k3, q[pm as int]));
                    assert(pairs@.contains((k3, q[pm as int])));
                    let j = choose|j: int| 0 <= j < pairs@.len() && pairs@[j] == (k3, q[pm as int]);
                    assert(at3(k3, i1 as int) == q[pt@[i1 as int] as int]);
                    assert(at3(k3, i2 as int) == q[pt@[i2 as int] as int]);
                    assert(at3(k3, iv as int) == q[pt@[iv as int] as int]);
                    assert(entry2(pairs@[j], i1 as int, i2 as int, iv as int) == (kk, vv));
                }
            }
        }
        let ghost mid = *self;
        self.two_indexes.set(position, Some(map));
        proof {
            assert(self.three_indexes@ == mid.three_indexes@);
            assert(self.quads() == quads);
            assert forall|p: int| 0 <= p < 4 && p != citizen(2, position).1 implies #[trigger] self.built(3, p) == old(self).built(3, p) by {
                assert(self.built(3, p) == mid.built(3, p));
                assert(mid.built(3, p) == old(self).built(3, p));
            }
            assert forall|p: int| 0 <= p < 6 && p != position implies #[trigger] self.built(2, p) == old(self).built(2, p) by {
                assert(self.two_indexes@[p] == mid.two_indexes@[p]);
                assert(mid.built(2, p) == old(self).built(2, p));
            }
            assert forall|p: int| 0 <= p < 4 implies #[trigger] self.built(1, p) == old(self).built(1, p) by {
                assert(self.one_indexes@ == mid.one_indexes@);
                assert(mid.built(1, p) == old(self).built(1, p));
            }
        }
    }
}


impl LatticeData {
    /// Builds, if it is not built yet, the index of the citizen of level 1
    /// at `position`, from the index of its parent, which is built first if
    /// it is not (and so on up the lattice).
    pub fn ensure_built_1(&mut self, position: usize)
        requires
            old(self).well_formed(),
            position < 4,
        ensures
            final(self).well_formed(),
            final(self).quads() == old(self).quads(),
            final(self).built(1, position as int),
            final(self).built(2, citizen(1, position).1 as int),
            final(self).built(3, citizen(2, citizen(1, position).1).1 as int),
            forall|p: int|
                0 <= p < 4 && p != citizen(2, citizen(1, position).1).1 ==> #[trigger] final(self).built(3, p) == old(
                    self,
                ).built(3, p),
            forall|p: int|
                0 <= p < 6 && p != citizen(1, position).1 ==> #[trigger] final(self).built(2, p) == old(self).built(2, p),
            forall|p: int| 0 <= p < 4 && p != position ==> #[trigger] final(self).built(1, p) == old(self).built(1, p),
    {
        let (t, parent, m) = get_parent_citizen(1, position);
        proof {
            law_parent_keys_child_terms(1, position);
        }
        if self.one_indexes[position].is_some() {
            self.ensure_built_2(parent);
            return;
        }
        self.ensure_built_2(parent);
        proof {
            lemma_lattice_lawful();
        }
        let ghost quads = self.quads();
        let (pt, _grand, pm) = get_parent_citizen(2, parent);
        let i1 = index_of(t[0], pt);
        let iv = index_of(m, pt);
        proof {
            assert(pt@[2] == 99);
            assert(t@[0] < 4 && m < 4);
        }
        let pairs = match &self.two_indexes[parent] {
            Some(parent_index) => map_pairs(parent_index),
            None => Vec::new(),
        };
        let ghost pindex = self.two_indexes@[parent as int]->0@;
        proof {
            assert(self.two_indexes@[parent as int] is Some);
            assert(serves2(pindex, quads, pt@, pm));
        }
        let mut map: OneTermIndex = BTreeMap::new();
        let mut i: usize = 0;
        while i < pairs.len()
            invariant
                0 <= i <= pairs@.len(),
                lawful::<u32, u32>(),
                i1 < 2 && iv < 2,
                forall|kk: u32, vv: u32|
                    #[trigger] holds(map@, kk, vv) <==> exists|j: int|
                        0 <= j < i && entry1(#[trigger] pairs@[j], i1 as int, iv as int) == (kk, vv),
            decreases pairs@.len() - i,
        {
            let (k, _v) = pairs[i];
            add_pair(&mut map, get2(k, i1), get2(k, iv));
            proof {
                assert forall|kk: u32, vv: u32|
                    #[trigger] holds(map@, kk, vv) <==> exists|j: int|
                        0 <= j < i + 1 && entry1(#[trigger] pairs@[j], i1 as int, iv as int) == (kk, vv) by {
                    if exists|j: int| 0 <= j < i + 1 && entry1(#[trigger] pairs@[j], i1 as int, iv as int) == (kk, vv) {
                        let j = choose|j: int| 0 <= j < i + 1 && entry1(#[trigger] pairs@[j], i1 as int, iv as int) == (kk, vv);
                        if j < i {
                            assert(exists|j: int| 0 <= j < i && entry1(#[trigger] pairs@[j], i1 as int, iv as int) == (kk, vv));
                        }
                    }
                }
            }
            i = i + 1;
        }
        proof {
            assert forall|kk: u32, vv: u32|
                #[trigger] holds(map@, kk, vv) <==> exists|q: Seq<u32>|
                    #[trigger] quads.contains(q) && q[t@[0] as int] == kk && q[m as int] == vv by {
                if holds(map@, kk, vv) {
                    let j = choose|j: int| 0 <= j < pairs@.len() && entry1(#[trigger] pairs@[j], i1 as int, iv as int) == (kk, vv);
                    assert(pairs@.contains(pairs@[j]));
                    let k2 = pairs@[j].0;
                    assert(holds(pindex, k2, pairs@[j].1));
                    let q = choose|q: Seq<u32>|
                        #[trigger] quads.contains(q) && q[pt@[0] as int] == k2.0 && q[pt@[1] as int] == k2.1 && q[pm as int] == pairs@[j].1;
                    assert(at2(k2, i1 as int) == q[pt@[i1 as int] as int]);
                    assert(at2(k2, iv as int) == q[pt@[iv as int] as int]);
                    assert(quads.contains(q) && q[t@[0] as int] == kk && q[m as int] == vv);
                }
                if exists|q: Seq<u32>| #[trigger] quads.contains(q) && q[t@[0] as int] == kk && q[m as int] == vv {
                    let q = choose|q: Seq<u32>| #[trigger] quads.contains(q) && q[t@[0] as int] == kk && q[m as int] == vv;
                    let k2 = (q[pt@[0] as int], q[pt@[1] as int]);
                    assert(holds(pindex, k2, q[pm as int]));
                    assert(pairs@.contains((k2, q[pm as int])));
                    let j = choose|j: int| 0 <= j < pairs@.len() && pairs@[j] == (k2, q[pm as int]);
                    assert(at2(k2, i1 as int) == q[pt@[i1 as int] as int]);
                    assert(at2(k2, iv as int) == q[pt@[iv as int] as int]);
                    assert(entry1(pairs@[j], i1 as int, iv as int) == (kk, vv));
                }
            }
        }
        let ghost mid = *self;
        self.one_indexes.set(position, Some(map));
        proof {
            assert(self.three_indexes@ == mid.three_indexes@);
            assert(self.two_indexes@ == mid.two_indexes@);
            assert(self.quads() == quads);
            assert forall|p: int|
                0 <= p < 4 && p != citizen(2, citizen(1, position).1).1 implies #[trigger] self.built(3, p) == old(self).built(3, p) by {
                assert(self.built(3, p) == mid.built(3, p));
                assert(mid.built(3, p) == old(self).built(3, p));
            }
            assert forall|p: int| 0 <= p < 6 && p != citizen(1, position).1 implies #[trigger] self.built(2, p) == old(self).built(2, p) by {
                assert(self.built(2, p) == mid.built(2, p));
                assert(mid.built(2, p) == old(self).built(2, p));
            }
            assert forall|p: int| 0 <= p < 4 && p != position implies #[trigger] self.built(1, p) == old(self).built(1, p) by {
                assert(self.one_indexes@[p] == mid.one_indexes@[p]);
                assert(mid.built(1, p) == old(self).built(1, p));
            }
        }
    }
}


/// The quad whose terms at the positions `t[0]`, `t[1]` and `t[2]` are
/// those of `k`, and whose term at the position `m` is `v`.
pub open spec fn assemble3(t: Seq<usize>, m: usize, k: (u32, u32, u32), v: u32) -> Seq<u32> {
    Seq::new(
        4,
        |j: int|
            if j == t[0] as int {
                k.0
            } else if j == t[1] as int {
                k.1
            } else if j == t[2] as int {
                k.2
            } else {
                v
            },
    )
}

/// The key terms and the mapped term of a citizen of level 3 are the four
/// positions of a quad: a quad is the one assembled from its key and its
/// mapped term, and an assembled quad has the key and the mapped term it
/// was assembled from.
proof fn lemma_assemble3(p: usize)
    requires
        p < 4,
    ensures
        ({
            let (t, _parent, m) = citizen(3, p);
            &&& forall|q: Seq<u32>| q.len() == 4 ==> #[trigger] assemble3(t, m, key3_of(q, t), q[m as int]) == q
            &&& forall|k: (u32, u32, u32), v: u32|
                #![trigger assemble3(t, m, k, v)]
                key3_of(assemble3(t, m, k, v), t) == k && assemble3(t, m, k, v)[m as int] == v
                    && assemble3(t, m, k, v).len() == 4
        }),
{
    let (t, _parent, m) = citizen(3, p);
    assert forall|q: Seq<u32>| q.len() == 4 implies #[trigger] assemble3(t, m, key3_of(q, t), q[m as int]) == q by {
        assert(assemble3(t, m, key3_of(q, t), q[m as int]) =~= q);
    }
}

impl LatticeData {
    /// Builds, if it is not built yet, the index of the citizen `position`
    /// of `level`, and the indexes it is built from.
    pub fn ensure_built(&mut self, level: u8, position: usize)
        requires
            old(self).well_formed(),
            is_citizen(level, position),
        ensures
            final(self).well_formed(),
            final(self).quads() == old(self).quads(),
            final(self).built(level, position as int),
    {
        if level == 3 {
            self.ensure_built_3(position);
        } else if level == 2 {
            self.ensure_built_2(position);
        } else {
            self.ensure_built_1(position);
        }
    }

    /// The quads whose terms at the key positions of the citizen `position`
    /// of level 3 are `indexes`, read from its index, which must be built.
    pub fn get_iter_3(&self, position: usize, indexes: [u32; 3]) -> (r: Vec<[u32; 4]>)
        requires
            self.well_formed(),
            position < 4,
            self.built(3, position as int),
        ensures
            distinct_quads(r@),
            quads_of_arrays(r@) == self.quads().filter(
                |q: Seq<u32>| key3_of(q, citizen(3, position).0) == (indexes[0], indexes[1], indexes[2]),
            ),
            position == POS_PGS ==> forall|q: Seq<u32>|
                #[trigger] quads_of_arrays(r@).contains(q) <==> self.quads().contains(q) && q[1] == indexes[0]
                    && q[3] == indexes[1] && q[0] == indexes[2],
            position == POS_PGO ==> forall|q: Seq<u32>|
                #[trigger] quads_of_arrays(r@).contains(q) <==> self.quads().contains(q) && q[1] == indexes[0]
                    && q[3] == indexes[1] && q[2] == indexes[2],
            position == POS_PSO ==> forall|q: Seq<u32>|
                #[trigger] quads_of_arrays(r@).contains(q) <==> self.quads().contains(q) && q[1] == indexes[0]
                    && q[0] == indexes[1] && q[2] == indexes[2],
            position == POS_GSO ==> forall|q: Seq<u32>|
                #[trigger] quads_of_arrays(r@).contains(q) <==> self.quads().contains(q) && q[3] == indexes[0]
                    && q[0] == indexes[1] && q[2] == indexes[2],
    {
        proof {
            lemma_lattice_lawful();
            lemma_assemble3(position);
        }
        let ghost quads = self.quads();
        let (t, _parent, m) = get_parent_citizen(3, position);
        let key = (indexes[0], indexes[1], indexes[2]);
        let ghost wanted = quads.filter(|q: Seq<u32>| key3_of(q, t@) == key);
        let index = match &self.three_indexes[position] {
            Some(index) => index,
            None => {
                return Vec::new();
            },
        };
        proof {
            assert(serves3(index@, quads, t@, m));
        }
        let values = match index.get(&key) {
            Some(set) => set_elements(set),
            None => Vec::new(),
        };
        proof {
            assert forall|v: u32| values@.contains(v) == holds(index@, key, v) by {}
        }
        let mut r: Vec<[u32; 4]> = Vec::new();
        let mut i: usize = 0;
        while i < values.len()
            invariant
                0 <= i <= values@.len(),
                values@.no_duplicates(),
                t@ == citizen(3, position).0,
                m == citizen(3, position).2,
                t@[0] < 4 && t@[1] < 4 && t@[2] < 4 && m < 4,
                r@.len() == i,
                forall|x: int| 0 <= x < i ==> (#[trigger] r@[x])@ == assemble3(t@, m, key, values@[x]),
            decreases values@.len() - i,
        {
            let mut q: [u32; 4] = [0, 0, 0, 0];
            q[t[0]] = key.0;
            q[t[1]] = key.1;
            q[t[2]] = key.2;
            q[m] = values[i];
            proof {
                assert(q@ =~= assemble3(t@, m, key, values@[i as int]));
            }
            r.push(q);
            i = i + 1;
        }
        proof {
            assert forall|a: int, b: int| 0 <= a < b < r@.len() implies r@[a]@ != r@[b]@ by {
                assert(assemble3(t@, m, key, values@[a])[m as int] == values@[a]);
                assert(assemble3(t@, m, key, values@[b])[m as int] == values@[b]);
            }
            assert forall|q: Seq<u32>| #[trigger] quads_of_arrays(r@).contains(q) <==> wanted.contains(q) by {
                if quads_of_arrays(r@).contains(q) {
                    let x = choose|x: int| 0 <= x < quad_views(r@).len() && quad_views(r@)[x] == q;
                    assert(q == r@[x]@);
                    assert(holds(index@, key, values@[x]));
                    let w = choose|w: Seq<u32>|
                        #[trigger] quads.contains(w) && w[t@[0] as int] == key.0 && w[t@[1] as int] == key.1
                            && w[t@[2] as int] == key.2 && w[m as int] == values@[x];
                    assert(w.len() == 4);
                    assert(assemble3(t@, m, key3_of(w, t@), w[m as int]) == w);
                    assert(key3_of(w, t@) == key);
                }
                if wanted.contains(q) {
                    assert(q.len() == 4);
                    assert(holds(index@, key, q[m as int]));
                    assert(values@.contains(q[m as int]));
                    let x = choose|x: int| 0 <= x < values@.len() && values@[x] == q[m as int];
                    assert(assemble3(t@, m, key3_of(q, t@), q[m as int]) == q);
                    assert(r@[x]@ == q);
                    assert(quad_views(r@)[x] == q);
                }
            }
            assert(quads_of_arrays(r@) =~= wanted);
            law_lattice_three_term_lookup(quads, position, indexes, r@);
        }
        r
    }

    /// Every quad of the dataset, read from its first index.
    pub fn get_all(&self) -> (r: Vec<[u32; 4]>)
        requires
            self.well_formed(),
        ensures
            distinct_quads(r@),
            quads_of_arrays(r@) == self.quads(),
    {
        proof {
            lemma_lattice_lawful();
        }
        let ghost quads = self.quads();
        let pairs = match &self.three_indexes[0] {
            Some(first) => map_pairs(first),
            None => Vec::new(),
        };
        let ghost first = self.three_indexes@[0]->0@;
        let mut r: Vec<[u32; 4]> = Vec::new();
        let mut i: usize = 0;
        while i < pairs.len()
            invariant
                0 <= i <= pairs@.len(),
                r@.len() == i,
                forall|x: int| 0 <= x < i ==> (#[trigger] r@[x])@ == first_quad(pairs@[x]),
            decreases pairs@.len() - i,
        {
            let (k, v) = pairs[i];
            let q = [k.2, k.0, v, k.1];
            proof {
                assert(q@ =~= first_quad(pairs@[i as int]));
            }
            r.push(q);
            i = i + 1;
        }
        proof {
            assert forall|a: int, b: int| 0 <= a < b < r@.len() implies r@[a]@ != r@[b]@ by {
                if r@[a]@ == r@[b]@ {
                    assert(first_quad(pairs@[a])[0] == first_quad(pairs@[b])[0]);
                    assert(first_quad(pairs@[a])[1] == first_quad(pairs@[b])[1]);
                    assert(first_quad(pairs@[a])[2] == first_quad(pairs@[b])[2]);
                    assert(first_quad(pairs@[a])[3] == first_quad(pairs@[b])[3]);
                    assert(pairs@[a] == pairs@[b]);
                }
            }
            assert forall|q: Seq<u32>| #[trigger] quads_of_arrays(r@).contains(q) <==> quads.contains(q) by {
                if quads_of_arrays(r@).contains(q) {
                    let x = choose|x: int| 0 <= x < quad_views(r@).len() && quad_views(r@)[x] == q;
                    assert(q == r@[x]@);
                    assert(pairs@.contains(pairs@[x]));
                    assert(holds(first, pairs@[x].0, pairs@[x].1));
                }
                if quads.contains(q) {
                    let kv = ((q[1], q[3], q[0]), q[2]);
                    assert(pairs@.contains(kv));
                    let x = choose|x: int| 0 <= x < pairs@.len() && pairs@[x] == kv;
                    assert(first_quad(kv) =~= q);
                    assert(quad_views(r@)[x] == q);
                }
            }
            assert(quads_of_arrays(r@) =~= quads);
        }
        r
    }

    /// The quads with the given subject, predicate and object, read from
    /// the index of the PSO citizen, which is built first if it is not.
    pub fn quads_with_spo(&mut self, s: u32, p: u32, o: u32) -> (r: Vec<[u32; 4]>)
        requires
            old(self).well_formed(),
        ensures
            final(self).well_formed(),
            final(self).quads() == old(self).quads(),
            final(self).built(3, POS_PSO as int),
            distinct_quads(r@),
            quads_of_arrays(r@) == old(self).quads().filter(|q: Seq<u32>| q[0] == s && q[1] == p && q[2] == o),
    {
        self.ensure_built_3(POS_PSO);
        let r = self.get_iter_3(POS_PSO, [p, s, o]);
        proof {
            assert(self.quads().filter(|q: Seq<u32>| key3_of(q, citizen(3, POS_PSO).0) == (p, s, o))
                =~= self.quads().filter(|q: Seq<u32>| q[0] == s && q[1] == p && q[2] == o));
        }
        r
    }
}


/// A lookup in the index of a citizen of level 3 finds the quads named by
/// the citizen, whose key terms come in the order of its name: PGS
/// (predicate, graph name, subject), PGO (predicate, graph name, object),
/// PSO (predicate, subject, object) and GSO (graph name, subject, object).
/// The positions of a quad are 0 for the subject, 1 for the predicate, 2 for
/// the object and 3 for the graph name.
pub proof fn law_lattice_three_term_lookup(quads: Set<Seq<u32>>, position: usize, indexes: [u32; 3], r: Seq<[u32; 4]>)
    requires
        position < 4,
        quads_of_arrays(r) == quads.filter(
            |q: Seq<u32>| key3_of(q, citizen(3, position).0) == (indexes[0], indexes[1], indexes[2]),
        ),
    ensures
        position == POS_PGS ==> forall|q: Seq<u32>|
            #[trigger] quads_of_arrays(r).contains(q) <==> quads.contains(q) && q[1] == indexes[0] && q[3] == indexes[1]
                && q[0] == indexes[2],
        position == POS_PGO ==> forall|q: Seq<u32>|
            #[trigger] quads_of_arrays(r).contains(q) <==> quads.contains(q) && q[1] == indexes[0] && q[3] == indexes[1]
                && q[2] == indexes[2],
        position == POS_PSO ==> forall|q: Seq<u32>|
            #[trigger] quads_of_arrays(r).contains(q) <==> quads.contains(q) && q[1] == indexes[0] && q[0] == indexes[1]
                && q[2] == indexes[2],
        position == POS_GSO ==> forall|q: Seq<u32>|
            #[trigger] quads_of_arrays(r).contains(q) <==> quads.contains(q) && q[3] == indexes[0] && q[0] == indexes[1]
                && q[2] == indexes[2],
{
}

} // verus!
