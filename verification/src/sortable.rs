//! A dataset of identifier quads kept in a vector, which can be sorted for
//! one kind of request (the terms that the request sets) so that the
//! requests of that kind are answered by a binary search.
use vstd::prelude::*;
use core::cmp::Ordering;
use crate::quad::{pattern_match, quad_matches};

verus! {

/// How the terms of `a` and `b` at position `i` compare, when that position
/// is taken into account: -1 below, 1 above, 0 equal or not taken into
/// account.
pub open spec fn cmp_at(a: Seq<u32>, b: Seq<u32>, i: int, active: bool) -> int {
    if !active || a[i] == b[i] {
        0
    } else if a[i] < b[i] {
        -1
    } else {
        1
    }
}

/// The lexicographic comparison of `a` and `b` on the positions `i` for
/// which `m[i] == sel`, taken in the subject, predicate, object, graph
/// order: -1, 0 or 1.
pub open spec fn part_cmp(a: Seq<u32>, b: Seq<u32>, m: Seq<bool>, sel: bool) -> int {
    let c0 = cmp_at(a, b, 0, m[0] == sel);
    let c1 = cmp_at(a, b, 1, m[1] == sel);
    let c2 = cmp_at(a, b, 2, m[2] == sel);
    let c3 = cmp_at(a, b, 3, m[3] == sel);
    if c0 != 0 {
        c0
    } else if c1 != 0 {
        c1
    } else if c2 != 0 {
        c2
    } else {
        c3
    }
}

/// The order of a sort for the terms flagged in `m`: quads compare first on
/// the flagged terms, then on the others, each group in the subject,
/// predicate, object, graph order: -1, 0 or 1.
pub open spec fn sort_cmp(a: Seq<u32>, b: Seq<u32>, m: Seq<bool>) -> int {
    let c = part_cmp(a, b, m, true);
    if c != 0 {
        c
    } else {
        part_cmp(a, b, m, false)
    }
}

/// The quads of `s` are sorted for the terms flagged in `m`.
pub open spec fn is_sorted_for(s: Seq<[u32; 4]>, m: Seq<bool>) -> bool {
    forall|i: int, j: int| 0 <= i <= j < s.len() ==> sort_cmp(#[trigger] s[i]@, #[trigger] s[j]@, m) <= 0
}

/// The terms that the pattern `p` sets.
pub open spec fn pattern_mask(p: Seq<Option<u32>>) -> Seq<bool> {
    Seq::new(4, |i: int| p[i] is Some)
}

/// The values that the pattern `p` sets, 0 where it sets none.
pub open spec fn pattern_values(p: Seq<Option<u32>>) -> Seq<u32> {
    Seq::new(
        4,
        |i: int|
            match p[i] {
                Some(v) => v,
                None => 0u32,
            },
    )
}

/// How the `i`-th term of `q` compares to the value the pattern sets there:
/// -1 below, 1 above, 0 equal or not set.
pub open spec fn compare_at(q: Seq<u32>, p: Seq<Option<u32>>, i: int) -> int {
    cmp_at(q, pattern_values(p), i, p[i] is Some)
}

/// `q` comes before the quads that match `p`, comparing only the positions
/// that `p` sets, in the subject, predicate, object, graph order.
pub open spec fn below_pattern(q: Seq<u32>, p: Seq<Option<u32>>) -> bool {
    part_cmp(q, pattern_values(p), pattern_mask(p), true) < 0
}

/// Every quad of `s` that comes before the quads matching `p` is before
/// every quad that does not.
pub open spec fn is_partitioned(s: Seq<[u32; 4]>, p: Seq<Option<u32>>) -> bool {
    forall|i: int, j: int|
        0 <= i <= j < s.len() && below_pattern(#[trigger] s[j]@, p) ==> below_pattern(#[trigger] s[i]@, p)
}

/// The quads of `s` that match `p`, from the `pos`-th one on, in order.
pub open spec fn matches_from(s: Seq<[u32; 4]>, pos: int, p: Seq<Option<u32>>) -> Seq<[u32; 4]>
    decreases s.len() - pos,
{
    if pos < 0 || pos >= s.len() {
        Seq::empty()
    } else if quad_matches(s[pos]@, p) {
        seq![s[pos]] + matches_from(s, pos + 1, p)
    } else {
        matches_from(s, pos + 1, p)
    }
}

/// The quads of `s` that match `p`, from the `pos`-th one on and up to the
/// first one that does not match, in order.
pub open spec fn run_of_matches_from(s: Seq<[u32; 4]>, pos: int, p: Seq<Option<u32>>) -> Seq<[u32; 4]>
    decreases s.len() - pos,
{
    if pos < 0 || pos >= s.len() {
        Seq::empty()
    } else if quad_matches(s[pos]@, p) {
        seq![s[pos]] + run_of_matches_from(s, pos + 1, p)
    } else {
        Seq::empty()
    }
}

/// What the comparison of a group of terms says: it is the opposite when
/// the quads are swapped, 0 exactly when the quads agree on the group, and
/// it is transitive.
pub proof fn lemma_part_cmp(a: Seq<u32>, b: Seq<u32>, c: Seq<u32>, m: Seq<bool>, sel: bool)
    ensures
        part_cmp(a, b, m, sel) == -part_cmp(b, a, m, sel),
        -1 <= part_cmp(a, b, m, sel) <= 1,
        part_cmp(a, b, m, sel) == 0 <==> (forall|i: int| 0 <= i < 4 && m[i] == sel ==> #[trigger] a[i] == b[i]),
        part_cmp(a, b, m, sel) <= 0 && part_cmp(b, c, m, sel) <= 0 ==> part_cmp(a, c, m, sel) <= 0,
        part_cmp(a, b, m, sel) <= 0 && part_cmp(b, c, m, sel) < 0 ==> part_cmp(a, c, m, sel) < 0,
        part_cmp(a, b, m, sel) < 0 && part_cmp(b, c, m, sel) <= 0 ==> part_cmp(a, c, m, sel) < 0,
{
    if part_cmp(a, b, m, sel) == 0 {
        assert forall|i: int| 0 <= i < 4 && m[i] == sel implies #[trigger] a[i] == b[i] by {
            if i == 0 {
            } else if i == 1 {
            } else if i == 2 {
            } else {
            }
        }
    }
}

/// The order of a sort for some terms is a total order on quads: swapping
/// the quads gives the opposite answer, two quads compare equal exactly when
/// they are equal, and the order is transitive.
pub proof fn law_sort_order_is_total(a: Seq<u32>, b: Seq<u32>, c: Seq<u32>, m: Seq<bool>)
    requires
        a.len() == 4,
        b.len() == 4,
    ensures
        sort_cmp(a, b, m) == -sort_cmp(b, a, m),
        -1 <= sort_cmp(a, b, m) <= 1,
        sort_cmp(a, b, m) == 0 <==> a == b,
        sort_cmp(a, b, m) <= 0 && sort_cmp(b, c, m) <= 0 ==> sort_cmp(a, c, m) <= 0,
        sort_cmp(a, b, m) < 0 && sort_cmp(b, c, m) < 0 ==> sort_cmp(a, c, m) < 0,
{
    lemma_part_cmp(a, b, c, m, true);
    lemma_part_cmp(a, b, c, m, false);
    lemma_part_cmp(b, c, a, m, true);
    lemma_part_cmp(b, c, a, m, false);
    lemma_part_cmp(a, c, b, m, true);
    lemma_part_cmp(a, c, b, m, false);
    if sort_cmp(a, b, m) == 0 {
        assert forall|i: int| 0 <= i < 4 implies a[i] == b[i] by {
            if m[i] {
                assert(m[i] == true);
            } else {
                assert(m[i] == false);
            }
        }
        assert(a =~= b);
    }
}

/// Compares `a` and `b` on the positions `i` for which `sort[i] == sel`, in
/// the subject, predicate, object, graph order.
fn part_compare(sort: &[bool; 4], a: &[u32; 4], b: &[u32; 4], sel: bool) -> (r: i8)
    ensures
        r == part_cmp(a@, b@, sort@, sel),
{
    let mut i: usize = 0;
    while i < 4
        invariant
            0 <= i <= 4,
            forall|k: int| 0 <= k < i ==> cmp_at(a@, b@, k, #[trigger] sort@[k] == sel) == 0,
        decreases 4 - i,
    {
        if sort[i] == sel {
            if a[i] < b[i] {
                return -1;
            } else if a[i] > b[i] {
                return 1;
            }
        }
        i = i + 1;
    }
    0
}

/// Compares two quads in the order of a sort for the terms flagged in
/// `sort`: first on the flagged terms, then on the others.
fn compare_for(sort: &[bool; 4], a: &[u32; 4], b: &[u32; 4]) -> (r: Ordering)
    ensures
        (r == Ordering::Less) == (sort_cmp(a@, b@, sort@) < 0),
        (r == Ordering::Equal) == (sort_cmp(a@, b@, sort@) == 0),
        (r == Ordering::Greater) == (sort_cmp(a@, b@, sort@) > 0),
{
    let mut c = part_compare(sort, a, b, true);
    if c == 0 {
        c = part_compare(sort, a, b, false);
    }
    if c < 0 {
        Ordering::Less
    } else if c > 0 {
        Ordering::Greater
    } else {
        Ordering::Equal
    }
}

/// `slice::sort_unstable_by`, with [`compare_for`] on `sort` as the
/// comparison, a total order (see [`law_sort_order_is_total`]): the quads
/// end up sorted for the terms flagged in `sort`, and the vector holds the
/// same quads as before, as many times each.
#[verifier::external_body]
fn sort_quads(v: &mut Vec<[u32; 4]>, sort: &[bool; 4])
    ensures
        final(v)@.to_multiset() == old(v)@.to_multiset(),
        is_sorted_for(final(v)@, sort@),
{
    v.sort_unstable_by(|a, b| compare_for(sort, a, b))
}

/// The first position of `s` that does not come before the quads matching
/// `p`, found by a binary search; when `s` is not partitioned by `p`, some
/// position of `s`.
fn lower_bound(s: &Vec<[u32; 4]>, p: &[Option<u32>; 4]) -> (r: usize)
    ensures
        r <= s@.len(),
        is_partitioned(s@, p@) ==> (forall|k: int| 0 <= k < r ==> below_pattern(#[trigger] s@[k]@, p@)),
        is_partitioned(s@, p@) ==> (forall|k: int| r <= k < s@.len() ==> !below_pattern(#[trigger] s@[k]@, p@)),
{
    let mut lo: usize = 0;
    let mut hi: usize = s.len();
    while lo < hi
        invariant
            0 <= lo <= hi <= s@.len(),
            is_partitioned(s@, p@) ==> (forall|k: int| 0 <= k < lo ==> below_pattern(#[trigger] s@[k]@, p@)),
            is_partitioned(s@, p@) ==> (forall|k: int| hi <= k < s@.len() ==> !below_pattern(#[trigger] s@[k]@, p@)),
        decreases hi - lo,
    {
        let mid = lo + (hi - lo) / 2;
        if quad_below_pattern(&s[mid], p) {
            lo = mid + 1;
        } else {
            hi = mid;
        }
    }
    lo
}

/// `q` comes before the quads that match `p` when, at the first position
/// where it differs from a value that `p` sets, it is below that value.
proof fn lemma_below_pattern(q: Seq<u32>, p: Seq<Option<u32>>)
    requires
        p.len() == 4,
    ensures
        below_pattern(q, p) <==> ({
            let c0 = compare_at(q, p, 0);
            let c1 = compare_at(q, p, 1);
            let c2 = compare_at(q, p, 2);
            let c3 = compare_at(q, p, 3);
            if c0 != 0 {
                c0
            } else if c1 != 0 {
                c1
            } else if c2 != 0 {
                c2
            } else {
                c3
            }
        } < 0),
{
    let m = pattern_mask(p);
    assert(m[0] == (p[0] is Some));
    assert(m[1] == (p[1] is Some));
    assert(m[2] == (p[2] is Some));
    assert(m[3] == (p[3] is Some));
}

/// Compares `q` to the values that `p` sets, in the subject, predicate,
/// object, graph order: true if `q` comes before them.
fn quad_below_pattern(q: &[u32; 4], p: &[Option<u32>; 4]) -> (r: bool)
    ensures
        r == below_pattern(q@, p@),
{
    proof {
        lemma_below_pattern(q@, p@);
    }
    let mut i: usize = 0;
    while i < 4
        invariant
            0 <= i <= 4,
            forall|k: int| 0 <= k < i ==> #[trigger] compare_at(q@, p@, k) == 0,
        decreases 4 - i,
    {
        match p[i] {
            Some(seeked) => {
                proof {
                    assert(pattern_values(p@)[i as int] == seeked);
                    if i > 0 {
                        assert(compare_at(q@, p@, 0) == 0);
                    }
                    if i > 1 {
                        assert(compare_at(q@, p@, 1) == 0);
                    }
                    if i > 2 {
                        assert(compare_at(q@, p@, 2) == 0);
                    }
                }
                if seeked < q[i] {
                    return false;
                } else if seeked > q[i] {
                    return true;
                }
            },
            None => {},
        }
        i = i + 1;
    }
    false
}

/// A dataset of identifier quads in a vector, which may be sorted.
pub struct SortableDataset {
    s: Vec<[u32; 4]>,
    current_sort: Option<[bool; 4]>,
}

impl SortableDataset {
    /// The quads of the dataset, in the order of the vector.
    pub closed spec fn quads(&self) -> Seq<[u32; 4]> {
        self.s@
    }

    /// The terms set by the requests the dataset was last sorted for, if it
    /// is sorted.
    pub closed spec fn sorted_for(&self) -> Option<Seq<bool>> {
        match self.current_sort {
            Some(sort) => Some(sort@),
            None => None,
        }
    }

    /// A sorted dataset has its quads sorted for the terms it was sorted
    /// for.
    pub closed spec fn well_formed(&self) -> bool {
        self.current_sort matches Some(sort) ==> is_sorted_for(self.s@, sort@)
    }

    /// An empty dataset, not sorted.
    pub fn new() -> (r: SortableDataset)
        ensures
            r.well_formed(),
            r.quads() == Seq::<[u32; 4]>::empty(),
            r.sorted_for() is None,
    {
        SortableDataset { s: Vec::new(), current_sort: None }
    }

    /// Appends a quad of identifiers to the dataset, which is then no
    /// longer sorted.
    pub fn insert_by_index(&mut self, spog: [u32; 4]) -> (r: bool)
        ensures
            final(self).well_formed(),
            final(self).quads() == old(self).quads().push(spog),
            final(self).sorted_for() is None,
            r,
    {
        self.s.push(spog);
        self.current_sort = None;
        true
    }

    /// Sorts the quads for the requests that set the terms flagged in
    /// `sort` (first on those terms, then on the others), and records
    /// them.
    pub fn sort_for(&mut self, sort: &[bool; 4])
        ensures
            final(self).well_formed(),
            final(self).quads().to_multiset() == old(self).quads().to_multiset(),
            is_sorted_for(final(self).quads(), sort@),
            final(self).sorted_for() == Some(sort@),
    {
        sort_quads(&mut self.s, sort);
        self.current_sort = Some(*sort);
    }

    /// True if the dataset is sorted for the requests that set exactly the
    /// terms that `indexes` sets.
    pub fn is_optimal(&self, indexes: &[Option<u32>; 4]) -> (r: bool)
        ensures
            r == (self.sorted_for() == Some(Seq::new(4, |i: int| indexes@[i] is Some))),
    {
        match &self.current_sort {
            None => false,
            Some(sort) => {
                let r = sort[0] == indexes[0].is_some() && sort[1] == indexes[1].is_some()
                    && sort[2] == indexes[2].is_some() && sort[3] == indexes[3].is_some();
                proof {
                    if r {
                        assert(sort@ =~= Seq::new(4, |i: int| indexes@[i] is Some));
                    } else {
                        assert(exists|i: int| 0 <= i < 4 && sort@[i] != (indexes@[i] is Some));
                    }
                }
                r
            },
        }
    }

    /// The quads of the dataset that match `indexes` (`None` is a
    /// wildcard).
    ///
    /// When the dataset is sorted for this kind of request, a binary search
    /// finds the first quad that may match, and the quads are read from
    /// there as long as they match; else every quad is read.
    pub fn quads_with_opt_spog(&self, indexes: [Option<u32>; 4]) -> (r: SortableDatasetIter<'_>)
        requires
            self.well_formed(),
        ensures
            r.quads_read() == self.quads(),
            r.request() == indexes@,
            r.bound() == self.is_sorted_for_pattern(indexes@),
            r.position() <= self.quads().len(),
            !r.bound() ==> r.position() == 0,
            r.bound() && is_partitioned(self.quads(), indexes@) ==> (forall|k: int|
                0 <= k < r.position() ==> below_pattern(#[trigger] self.quads()[k]@, indexes@)),
            r.bound() && is_partitioned(self.quads(), indexes@) ==> (forall|k: int|
                r.position() <= k < self.quads().len() ==> !below_pattern(#[trigger] self.quads()[k]@, indexes@)),
            r.output() == matches_from(self.quads(), 0, indexes@),
    {
        if self.is_optimal(&indexes) {
            proof {
                assert(self.current_sort->0@ == pattern_mask(indexes@));
                law_sorted_search(self.s@, indexes@);
            }
            let b = lower_bound(&self.s, &indexes);
            let r = SortableDatasetIter { vect: &self.s, current_pos: b, is_bound: true, request: indexes };
            proof {
                lemma_skip_non_matching(self.s@, indexes@, b as int);
                lemma_run_is_every_match(self.s@, indexes@, b as int);
            }
            r
        } else {
            SortableDatasetIter { vect: &self.s, current_pos: 0, is_bound: false, request: indexes }
        }
    }

    /// The dataset is sorted for the requests that set exactly the terms
    /// that `pattern` sets.
    pub open spec fn is_sorted_for_pattern(&self, pattern: Seq<Option<u32>>) -> bool {
        self.sorted_for() == Some(Seq::new(4, |i: int| pattern[i] is Some))
    }
}

/// Reads the quads of a vector that match a request, from a position on.
pub struct SortableDatasetIter<'a> {
    vect: &'a Vec<[u32; 4]>,
    current_pos: usize,
    is_bound: bool,
    request: [Option<u32>; 4],
}

impl<'a> SortableDatasetIter<'a> {
    /// The quads read.
    pub closed spec fn quads_read(&self) -> Seq<[u32; 4]> {
        self.vect@
    }

    /// The position of the next quad to read.
    pub closed spec fn position(&self) -> nat {
        self.current_pos as nat
    }

    /// True if reading stops at the first quad that does not match.
    pub closed spec fn bound(&self) -> bool {
        self.is_bound
    }

    /// The request (`None` is a wildcard).
    pub closed spec fn request(&self) -> Seq<Option<u32>> {
        self.request@
    }

    /// The quads that the calls of [`next`](Self::next) hand out, in order,
    /// until the first `None`.
    pub open spec fn output(&self) -> Seq<[u32; 4]> {
        if self.bound() {
            run_of_matches_from(self.quads_read(), self.position() as int, self.request())
        } else {
            matches_from(self.quads_read(), self.position() as int, self.request())
        }
    }

    /// Hands out the next quad that matches the request, if any.
    pub fn next(&mut self) -> (r: Option<[u32; 4]>)
        ensures
            final(self).quads_read() == old(self).quads_read(),
            final(self).request() == old(self).request(),
            final(self).bound() == old(self).bound(),
            match r {
                Some(q) => old(self).output() == seq![q] + final(self).output(),
                None => old(self).output() == Seq::<[u32; 4]>::empty(),
            },
    {
        loop
            invariant
                self.vect == old(self).vect,
                self.request == old(self).request,
                self.is_bound == old(self).is_bound,
                self.output() == old(self).output(),
            decreases self.vect@.len() - self.current_pos,
        {
            if self.current_pos >= self.vect.len() {
                return None;
            }
            let n = self.vect[self.current_pos];
            self.current_pos = self.current_pos + 1;
            if pattern_match(&n, &self.request) {
                return Some(n);
            } else if self.is_bound {
                return None;
            }
        }
    }
}

/// In a vector sorted for the terms that a request sets, the request
/// partitions the quads: the quads before the matching ones come first, the
/// matching quads are contiguous, and when any quad matches, the first quad
/// not before the matching ones matches.
pub proof fn law_sorted_search(s: Seq<[u32; 4]>, p: Seq<Option<u32>>)
    requires
        is_sorted_for(s, pattern_mask(p)),
        p.len() == 4,
    ensures
        is_partitioned(s, p),
        forall|i: int, j: int, k: int|
            0 <= i <= j <= k < s.len() && quad_matches(#[trigger] s[i]@, p) && quad_matches(#[trigger] s[k]@, p)
                ==> quad_matches(#[trigger] s[j]@, p),
        forall|i: int, k: int|
            0 <= i <= k < s.len() && !below_pattern(#[trigger] s[i]@, p) && quad_matches(#[trigger] s[k]@, p)
                ==> quad_matches(s[i]@, p),
{
    let m = pattern_mask(p);
    let v = pattern_values(p);
    assert forall|q: Seq<u32>| #[trigger] quad_matches(q, p) <==> part_cmp(q, v, m, true) == 0 by {
        lemma_part_cmp(q, v, v, m, true);
        if part_cmp(q, v, m, true) == 0 {
            assert forall|i: int| 0 <= i < 4 && #[trigger] p[i] is Some implies q[i] == p[i]->0 by {
                assert(m[i] == true);
            }
        }
        if quad_matches(q, p) {
            assert forall|i: int| 0 <= i < 4 && m[i] == true implies #[trigger] q[i] == v[i] by {
                assert(p[i] is Some);
            }
        }
    }
    assert forall|i: int, j: int| 0 <= i <= j < s.len() implies part_cmp(#[trigger] s[i]@, #[trigger] s[j]@, m, true) <= 0 by {
        assert(sort_cmp(s[i]@, s[j]@, m) <= 0);
    }
    assert forall|i: int, j: int|
        0 <= i <= j < s.len() && below_pattern(#[trigger] s[j]@, p) implies below_pattern(#[trigger] s[i]@, p) by {
        assert(part_cmp(s[i]@, s[j]@, m, true) <= 0);
        lemma_part_cmp(s[i]@, s[j]@, v, m, true);
    }
    assert forall|i: int, j: int, k: int|
        0 <= i <= j <= k < s.len() && quad_matches(#[trigger] s[i]@, p) && quad_matches(#[trigger] s[k]@, p)
            implies quad_matches(#[trigger] s[j]@, p) by {
        assert(part_cmp(s[i]@, s[j]@, m, true) <= 0);
        assert(part_cmp(s[j]@, s[k]@, m, true) <= 0);
        lemma_part_cmp(v, s[i]@, s[j]@, m, true);
        lemma_part_cmp(s[i]@, s[j]@, v, m, true);
        lemma_part_cmp(s[j]@, s[k]@, v, m, true);
        lemma_part_cmp(s[k]@, v, s[j]@, m, true);
        lemma_part_cmp(s[i]@, v, s[j]@, m, true);
        lemma_part_cmp(v, s[k]@, s[j]@, m, true);
        lemma_part_cmp(s[j]@, v, v, m, true);
        lemma_part_cmp(v, s[j]@, s[k]@, m, true);
    }
    assert forall|i: int, k: int|
        0 <= i <= k < s.len() && !below_pattern(#[trigger] s[i]@, p) && quad_matches(#[trigger] s[k]@, p)
            implies quad_matches(s[i]@, p) by {
        assert(part_cmp(s[i]@, s[k]@, m, true) <= 0);
        lemma_part_cmp(s[i]@, s[k]@, v, m, true);
        lemma_part_cmp(s[k]@, v, v, m, true);
        lemma_part_cmp(s[i]@, v, v, m, true);
    }
}

/// Quads that match no request can be skipped: when none of the first `b`
/// quads match, the matching quads from the start are those from `b` on.
proof fn lemma_skip_non_matching(s: Seq<[u32; 4]>, p: Seq<Option<u32>>, b: int)
    requires
        0 <= b <= s.len(),
        forall|k: int| 0 <= k < b ==> !quad_matches(#[trigger] s[k]@, p),
    ensures
        matches_from(s, 0, p) == matches_from(s, b, p),
    decreases b,
{
    if b > 0 {
        lemma_skip_non_matching(s, p, b - 1);
        assert(!quad_matches(s[b - 1]@, p));
    }
}

/// When the matching quads from position `b` on are contiguous and start at
/// `b` (if any), reading them up to the first one that does not match reads
/// them all.
proof fn lemma_run_is_every_match(s: Seq<[u32; 4]>, p: Seq<Option<u32>>, b: int)
    requires
        0 <= b <= s.len(),
        forall|i: int, j: int, k: int|
            0 <= i <= j <= k < s.len() && quad_matches(#[trigger] s[i]@, p) && quad_matches(#[trigger] s[k]@, p)
                ==> quad_matches(#[trigger] s[j]@, p),
        forall|k: int| b <= k < s.len() && quad_matches(#[trigger] s[k]@, p) ==> quad_matches(s[b]@, p),
    ensures
        run_of_matches_from(s, b, p) == matches_from(s, b, p),
    decreases s.len() - b,
{
    if b < s.len() {
        if quad_matches(s[b]@, p) {
            assert forall|k: int| b + 1 <= k < s.len() && quad_matches(#[trigger] s[k]@, p) implies quad_matches(
                s[b + 1]@,
                p,
            ) by {
                assert(quad_matches(s[b]@, p) && quad_matches(s[k]@, p));
            }
            lemma_run_is_every_match(s, p, b + 1);
        } else {
            lemma_no_match_from(s, p, b);
        }
    }
}

/// When no quad from position `b` on matches, no quad is read from there.
proof fn lemma_no_match_from(s: Seq<[u32; 4]>, p: Seq<Option<u32>>, b: int)
    requires
        0 <= b <= s.len(),
        forall|k: int| b <= k < s.len() ==> !quad_matches(#[trigger] s[k]@, p),
    ensures
        matches_from(s, b, p) == Seq::<[u32; 4]>::empty(),
    decreases s.len() - b,
{
    if b < s.len() {
        lemma_no_match_from(s, p, b + 1);
    }
}

} // verus!
