//! Given arrays of four [`Identifier`]s, named *identifier quads* or quads for
//! short, this module defines a way to name the different values (the
//! [`Position`] of a value in the array has a meaning) and a [`Block`] wrapper
//! around them that sorts them in any order defined at compile time.
//!
//! [`FixedOrder4`] also provides the means to retrieve the quads that match a
//! pattern from a sorted structure, by building the appropriate range and
//! naming what is left to filter.
use vstd::prelude::*;
use core::cmp::Ordering;
use core::marker::PhantomData;
use core::ops::RangeInclusive;
use vstd::std_specs::cmp::{OrdSpec, PartialEqSpec, PartialOrdSpec};
use vstd::std_specs::cmp::{PartialEqSpecImpl, PartialOrdSpecImpl};
use crate::identifier::{
    Identifier, id_le, id_lt, well_ordered_identifier, lemma_cmp_converse, lemma_cmp_transitive,
    lemma_cmp_bounds,
};
use crate::quad::{
    is_within_quad, is_quad_order, order_ints, fixed_prefix_len, range_bound, range_leftover,
    quad_matches, position_in_order, in_fixed_prefix, lemma_order_covers_quad, lemma_order_ints,
    key_of,
};

verus! {

/// A [`Position`] is an index in an array of identifiers.
///
/// It names the indexes at the type level, so that an order on quads can be
/// chosen at compile time. Nothing enforces the meaning of a position: two
/// positions with the same `VALUE` can be used interchangeably.
pub trait Position {
    /// Index of this [`Position`] in an array of identifiers
    const VALUE: usize;
}

/// The subject position in a SPOG ordered RDF quad (index 0).
#[derive(Debug)]
pub struct Subject {}

impl Position for Subject {
    const VALUE: usize = 0;
}

/// The predicate position in a SPOG ordered RDF quad (index 1).
#[derive(Debug)]
pub struct Predicate {}

impl Position for Predicate {
    const VALUE: usize = 1;
}

/// The object position in a SPOG ordered RDF quad (index 2).
#[derive(Debug)]
pub struct Object {}

impl Position for Object {
    const VALUE: usize = 2;
}

/// The graph position in a SPOG ordered RDF quad (index 3).
#[derive(Debug)]
pub struct Graph {}

impl Position for Graph {
    const VALUE: usize = 3;
}

/// The index each RDF position names.
pub proof fn lemma_position_values()
    ensures
        Subject::VALUE == 0,
        Predicate::VALUE == 1,
        Object::VALUE == 2,
        Graph::VALUE == 3,
{
}

/// Lexicographic comparison of `l` and `r` on the positions `o[0]`, `o[1]`,
/// `o[2]` then `o[3]`.
pub open spec fn lex_cmp4<I: Ord>(l: Seq<I>, r: Seq<I>, o: Seq<int>) -> Ordering {
    let c0 = l[o[0]].cmp_spec(&r[o[0]]);
    let c1 = l[o[1]].cmp_spec(&r[o[1]]);
    let c2 = l[o[2]].cmp_spec(&r[o[2]]);
    let c3 = l[o[3]].cmp_spec(&r[o[3]]);
    if c0 != Ordering::Equal {
        c0
    } else if c1 != Ordering::Equal {
        c1
    } else if c2 != Ordering::Equal {
        c2
    } else {
        c3
    }
}

/// `l` comes before `r`, or is equal to it, in the lexicographic order on the
/// positions listed by `o`.
pub open spec fn lex_le4<I: Ord>(l: Seq<I>, r: Seq<I>, o: Seq<int>) -> bool {
    lex_cmp4(l, r, o) != Ordering::Greater
}

/// An utility struct that provides static methods to manipulate quads sorted
/// in the ABCD order.
pub struct FixedOrder4<A: Position, B: Position, C: Position, D: Position> {
    _a: PhantomData<(A, B, C, D)>,
}

/// The decimal digit `d`, as text.
pub open spec fn digit_text(d: nat) -> Seq<char> {
    if d == 0 {
        "0"@
    } else if d == 1 {
        "1"@
    } else if d == 2 {
        "2"@
    } else if d == 3 {
        "3"@
    } else if d == 4 {
        "4"@
    } else if d == 5 {
        "5"@
    } else if d == 6 {
        "6"@
    } else if d == 7 {
        "7"@
    } else if d == 8 {
        "8"@
    } else {
        "9"@
    }
}

/// The decimal writing of `n`, as `Debug` writes an integer.
pub open spec fn decimal_text(n: nat) -> Seq<char>
    decreases n,
{
    if n < 10 {
        digit_text(n)
    } else {
        decimal_text(n / 10) + digit_text(n % 10)
    }
}

/// Appends the decimal digit `d` to `s`.
fn push_digit(s: &mut String, d: usize)
    requires
        d < 10,
    ensures
        final(s)@ == old(s)@ + digit_text(d as nat),
{
    let text = if d == 0 {
        "0"
    } else if d == 1 {
        "1"
    } else if d == 2 {
        "2"
    } else if d == 3 {
        "3"
    } else if d == 4 {
        "4"
    } else if d == 5 {
        "5"
    } else if d == 6 {
        "6"
    } else if d == 7 {
        "7"
    } else if d == 8 {
        "8"
    } else {
        "9"
    };
    s.append(text);
}

/// Appends the decimal writing of `n` to `s`.
fn push_decimal(s: &mut String, n: usize)
    ensures
        final(s)@ == old(s)@ + decimal_text(n as nat),
    decreases n,
{
    if n >= 10 {
        push_decimal(s, n / 10);
        push_digit(s, n % 10);
        proof {
            assert(old(s)@ + decimal_text(n as nat) =~= old(s)@ + decimal_text((n / 10) as nat) + digit_text((n % 10) as nat));
        }
    } else {
        push_digit(s, n);
    }
}

impl<A: Position, B: Position, C: Position, D: Position> FixedOrder4<A, B, C, D> {
    /// The positions of this order, first to last.
    pub open spec fn order() -> Seq<usize> {
        seq![A::VALUE, B::VALUE, C::VALUE, D::VALUE]
    }

    /// The name of this order: the indexes of its positions, first to last,
    /// separated by spaces.
    pub fn name() -> (r: String)
        ensures
            r@ == decimal_text(A::VALUE as nat) + " "@ + decimal_text(B::VALUE as nat) + " "@
                + decimal_text(C::VALUE as nat) + " "@ + decimal_text(D::VALUE as nat),
    {
        let mut r = String::new();
        push_decimal(&mut r, A::VALUE);
        r.append(" ");
        push_decimal(&mut r, B::VALUE);
        r.append(" ");
        push_decimal(&mut r, C::VALUE);
        r.append(" ");
        push_decimal(&mut r, D::VALUE);
        proof {
            assert(r@ =~= decimal_text(A::VALUE as nat) + " "@ + decimal_text(B::VALUE as nat) + " "@
                + decimal_text(C::VALUE as nat) + " "@ + decimal_text(D::VALUE as nat));
        }
        r
    }

    /// True if `A`, `B`, `C` and `D` are the four positions of a quad, each
    /// listed once.
    pub fn is_valid() -> (b: bool)
        ensures
            b == is_quad_order(Self::order()),
    {
        let a = A::VALUE;
        let b = B::VALUE;
        let c = C::VALUE;
        let d = D::VALUE;
        a < 4 && b < 4 && c < 4 && d < 4 && a != b && a != c && a != d && b != c && b != d
            && c != d
    }

    /// Return the list of indexes described by the generic parameters.
    pub fn to_slice() -> (r: [usize; 4])
        ensures
            r@ == Self::order(),
    {
        [A::VALUE, B::VALUE, C::VALUE, D::VALUE]
    }

    /// Compare two arrays of four identifiers by their `A::VALUE`-th term,
    /// then their `B::VALUE`-th term, then their `C::VALUE`-th term, then
    /// their `D::VALUE`-th term.
    pub fn compare<I: Identifier>(lhs: &[I; 4], rhs: &[I; 4]) -> (r: Ordering)
        requires
            is_within_quad(Self::order()),
        ensures
            r == lex_cmp4(lhs@, rhs@, order_ints(Self::order())),
    {
        proof {
            I::lemma_well_ordered();
        }
        let c0 = lhs[A::VALUE].cmp(&rhs[A::VALUE]);
        match c0 {
            Ordering::Equal => {},
            _ => {
                return c0;
            },
        }
        let c1 = lhs[B::VALUE].cmp(&rhs[B::VALUE]);
        match c1 {
            Ordering::Equal => {},
            _ => {
                return c1;
            },
        }
        let c2 = lhs[C::VALUE].cmp(&rhs[C::VALUE]);
        match c2 {
            Ordering::Equal => {},
            _ => {
                return c2;
            },
        }
        lhs[D::VALUE].cmp(&rhs[D::VALUE])
    }

    /// Return the number of terms that can be used as a prefix, with this
    /// order, to filter the quads matching the given pattern.
    ///
    /// In other words, if a collection is sorted, how many terms are fixed in
    /// this order before we have to start iterating on all terms between two
    /// bounds. The higher, the better suited this order is to answer this
    /// pattern.
    pub fn index_conformance<T>(pattern: &[Option<T>; 4]) -> (r: usize)
        requires
            is_within_quad(Self::order()),
        ensures
            r == fixed_prefix_len(pattern@, Self::order()),
    {
        if pattern[A::VALUE].is_none() {
            0
        } else if pattern[B::VALUE].is_none() {
            1
        } else if pattern[C::VALUE].is_none() {
            2
        } else if pattern[D::VALUE].is_none() {
            3
        } else {
            4
        }
    }

    /// Assuming that we have a structure ordered by the order A, B, C, D,
    /// and that we want to extract every array that matches the given
    /// pattern (None is a wildcard, else we want the specified value),
    /// return the smallest possible range to retrieve every quads from the
    /// structure and a new pattern which contains values only on non wildcard
    /// indexes that are not already filtered by the range.
    pub fn range<T: Identifier>(pattern: [Option<T>; 4]) -> (r: (
        RangeInclusive<Block<T, A, B, C, D>>,
        [Option<T>; 4],
    ))
        requires
            is_within_quad(Self::order()),
        ensures
            r.0@.start.values@ == range_bound(pattern@, Self::order(), T::MIN),
            r.0@.end.values@ == range_bound(pattern@, Self::order(), T::MAX),
            r.0@.exhausted == false,
            r.1@ == range_leftover(pattern@, Self::order()),
    {
        let (min_values, max_values, pattern) = Self::range_bounds(pattern);
        let min = Block::<T, A, B, C, D>::new(min_values);
        let max = Block::<T, A, B, C, D>::new(max_values);
        (RangeInclusive::new(min, max), pattern)
    }

    /// The two bounds of [`range`](Self::range), as arrays, and the leftover
    /// pattern.
    pub(crate) fn range_bounds<T: Identifier>(pattern: [Option<T>; 4]) -> (r: (
        [T; 4],
        [T; 4],
        [Option<T>; 4],
    ))
        requires
            is_within_quad(Self::order()),
        ensures
            r.0@ == range_bound(pattern@, Self::order(), T::MIN),
            r.1@ == range_bound(pattern@, Self::order(), T::MAX),
            r.2@ == range_leftover(pattern@, Self::order()),
    {
        let ghost p0 = pattern@;
        let ghost o = Self::order();
        let requested = pattern;
        let mut pattern = pattern;
        let order = Self::to_slice();
        let mut min_values = [T::MIN; 4];
        let mut max_values = [T::MAX; 4];
        let mut k: usize = 0;
        while k < 4
            invariant_except_break
                forall|kk: int| 0 <= kk < k ==> (#[trigger] p0[o[kk] as int]) is Some,
            invariant
                0 <= k <= 4,
                order@ == o,
                requested@ == p0,
                is_within_quad(o),
                o == Self::order(),
                forall|j: int|
                    0 <= j < 4 ==> #[trigger] min_values@[j] == (if position_in_order(o, j) < k {
                        p0[j]->0
                    } else {
                        T::MIN
                    }),
                forall|j: int|
                    0 <= j < 4 ==> #[trigger] max_values@[j] == (if position_in_order(o, j) < k {
                        p0[j]->0
                    } else {
                        T::MAX
                    }),
                forall|j: int|
                    0 <= j < 4 ==> #[trigger] pattern@[j] == (if position_in_order(o, j) < k {
                        None
                    } else {
                        p0[j]
                    }),
            ensures
                fixed_prefix_len(p0, o) == k,
                forall|j: int|
                    0 <= j < 4 ==> #[trigger] min_values@[j] == (if position_in_order(o, j) < k {
                        p0[j]->0
                    } else {
                        T::MIN
                    }),
                forall|j: int|
                    0 <= j < 4 ==> #[trigger] max_values@[j] == (if position_in_order(o, j) < k {
                        p0[j]->0
                    } else {
                        T::MAX
                    }),
                forall|j: int|
                    0 <= j < 4 ==> #[trigger] pattern@[j] == (if position_in_order(o, j) < k {
                        None
                    } else {
                        p0[j]
                    }),
            decreases 4 - k,
        {
            let term_role = order[k];
            proof {
                assert(position_in_order(o, term_role as int) <= k);
            }
            match requested[term_role] {
                None => {
                    break;
                },
                Some(set_value) => {
                    min_values[term_role] = set_value;
                    max_values[term_role] = set_value;
                    pattern[term_role] = None;
                },
            }
            k = k + 1;
        }
        proof {
            assert(min_values@ =~= range_bound(p0, o, T::MIN));
            assert(max_values@ =~= range_bound(p0, o, T::MAX));
            assert(pattern@ =~= range_leftover(p0, o));
        }
        (min_values, max_values, pattern)
    }
}

/// Wrapper for an array of 4 identifiers whose purpose is to provide a
/// compile time defined order on these arrays: blocks are ordered by their
/// `A::VALUE`-th value, then their `B::VALUE`-th value, then their `C::VALUE`-th
/// value and then their `D::VALUE`-th value.
#[derive(Debug)]
pub struct Block<I: Identifier, A: Position, B: Position, C: Position, D: Position> {
    /// The wrapped array of four values.
    pub values: [I; 4],
    /// Marks the order in which blocks are compared.
    pub order: PhantomData<(A, B, C, D)>,
}

impl<I: Identifier, A: Position, B: Position, C: Position, D: Position> Block<I, A, B, C, D> {
    /// Wraps an array of four values
    pub fn new(elements: [I; 4]) -> (r: Self)
        ensures
            r.values == elements,
    {
        Block { values: elements, order: PhantomData }
    }
}

/// Two blocks are equal when they wrap the same four values.
impl<I: Identifier, A: Position, B: Position, C: Position, D: Position> PartialEq for Block<
    I,
    A,
    B,
    C,
    D,
> {
    fn eq(&self, other: &Self) -> (r: bool) {
        proof {
            I::lemma_well_ordered();
            if self.values@[0] == other.values@[0] && self.values@[1] == other.values@[1]
                && self.values@[2] == other.values@[2] && self.values@[3] == other.values@[3] {
                assert(self.values@ =~= other.values@);
            }
        }
        self.values[0] == other.values[0] && self.values[1] == other.values[1] && self.values[2]
            == other.values[2] && self.values[3] == other.values[3]
    }
}

impl<I: Identifier, A: Position, B: Position, C: Position, D: Position> PartialEqSpecImpl for Block<
    I,
    A,
    B,
    C,
    D,
> {
    open spec fn obeys_eq_spec() -> bool {
        true
    }

    open spec fn eq_spec(&self, other: &Self) -> bool {
        self.values@ == other.values@
    }
}

impl<I: Identifier, A: Position, B: Position, C: Position, D: Position> Eq for Block<
    I,
    A,
    B,
    C,
    D,
> {

}

/// Blocks are compared with [`FixedOrder4::compare`]; the order is total when
/// `A`, `B`, `C` and `D` are a valid order (see
/// [`law_block_order_is_total`]).
impl<I: Identifier, A: Position, B: Position, C: Position, D: Position> PartialOrd for Block<
    I,
    A,
    B,
    C,
    D,
> {
    fn partial_cmp(&self, other: &Self) -> (r: Option<Ordering>) {
        if A::VALUE < 4 && B::VALUE < 4 && C::VALUE < 4 && D::VALUE < 4 {
            Some(FixedOrder4::<A, B, C, D>::compare(&self.values, &other.values))
        } else {
            None
        }
    }
}

impl<I: Identifier, A: Position, B: Position, C: Position, D: Position> PartialOrdSpecImpl for Block<
    I,
    A,
    B,
    C,
    D,
> {
    open spec fn obeys_partial_cmp_spec() -> bool {
        true
    }

    open spec fn partial_cmp_spec(&self, other: &Self) -> Option<Ordering> {
        if is_within_quad(FixedOrder4::<A, B, C, D>::order()) {
            Some(
                lex_cmp4(
                    self.values@,
                    other.values@,
                    order_ints(FixedOrder4::<A, B, C, D>::order()),
                ),
            )
        } else {
            None
        }
    }
}

/// Keys compare as tuples exactly as the quads they stand for compare in the
/// order `o`.
pub proof fn lemma_key_order_is_lex<I: Identifier>(x: Seq<I>, y: Seq<I>, o: Seq<usize>)
    requires
        o.len() == 4,
    ensures
        key_of(x, o).cmp_spec(&key_of(y, o)) == lex_cmp4(x, y, order_ints(o)),
{
    lemma_order_ints(o);
}

/// When `x` is, position by position, below or equal to `y`, it is below or
/// equal to `y` in every lexicographic order.
pub proof fn lemma_pointwise_le_is_lex_le<I: Identifier>(x: Seq<I>, y: Seq<I>, o: Seq<usize>)
    requires
        is_within_quad(o),
        x.len() == 4,
        y.len() == 4,
        forall|j: int| 0 <= j < 4 ==> #[trigger] x[j].cmp_spec(&y[j]) != Ordering::Greater,
    ensures
        lex_le4(x, y, order_ints(o)),
{
    lemma_order_ints(o);
    let oi = order_ints(o);
    assert(0 <= oi[0] < 4 && 0 <= oi[1] < 4 && 0 <= oi[2] < 4 && 0 <= oi[3] < 4);
    assert(x[oi[0]].cmp_spec(&y[oi[0]]) != Ordering::Greater);
    assert(x[oi[1]].cmp_spec(&y[oi[1]]) != Ordering::Greater);
    assert(x[oi[2]].cmp_spec(&y[oi[2]]) != Ordering::Greater);
    assert(x[oi[3]].cmp_spec(&y[oi[3]]) != Ordering::Greater);
}

/// The lower bound of a range is below or equal to its upper bound.
pub proof fn lemma_range_bounds_ordered<I: Identifier>(p: Seq<Option<I>>, o: Seq<usize>)
    requires
        is_quad_order(o),
        p.len() == 4,
    ensures
        lex_le4(range_bound(p, o, I::MIN), range_bound(p, o, I::MAX), order_ints(o)),
{
    let lo = range_bound(p, o, I::MIN);
    let hi = range_bound(p, o, I::MAX);
    assert forall|j: int| 0 <= j < 4 implies #[trigger] lo[j].cmp_spec(&hi[j]) != Ordering::Greater by {
        lemma_cmp_converse(lo[j], hi[j]);
        lemma_cmp_bounds(I::MAX);
    }
    lemma_pointwise_le_is_lex_le(lo, hi, o);
}

/// The order on [`Block`]s is a total order, when `A`, `B`, `C` and `D` list
/// each position once: any two blocks compare, comparing the other way round
/// gives the opposite answer, blocks compare equal exactly when they wrap the
/// same values, and the order is transitive.
pub proof fn law_block_order_is_total<I: Identifier, A: Position, B: Position, C: Position, D: Position>(
    x: Block<I, A, B, C, D>,
    y: Block<I, A, B, C, D>,
    z: Block<I, A, B, C, D>,
)
    requires
        is_quad_order(FixedOrder4::<A, B, C, D>::order()),
    ensures
        PartialOrdSpec::partial_cmp_spec(&x, &y) is Some,
        PartialOrdSpec::partial_cmp_spec(&x, &y) == Some(Ordering::Less) <==> PartialOrdSpec::partial_cmp_spec(&y, &x) == Some(
            Ordering::Greater,
        ),
        PartialOrdSpec::partial_cmp_spec(&x, &y) == Some(Ordering::Equal) <==> x.values@ == y.values@,
        PartialOrdSpec::partial_cmp_spec(&x, &y) == Some(Ordering::Less) && PartialOrdSpec::partial_cmp_spec(&y, &z) == Some(
            Ordering::Less,
        ) ==> PartialOrdSpec::partial_cmp_spec(&x, &z) == Some(Ordering::Less),
        PartialOrdSpec::partial_cmp_spec(&x, &y) != Some(Ordering::Greater) && PartialOrdSpec::partial_cmp_spec(&y, &z) != Some(
            Ordering::Greater,
        ) ==> PartialOrdSpec::partial_cmp_spec(&x, &z) != Some(Ordering::Greater),
{
    let o = FixedOrder4::<A, B, C, D>::order();
    I::lemma_well_ordered();
    lemma_order_covers_quad(o);
    let xv = x.values@;
    let yv = y.values@;
    let zv = z.values@;
    let oi = order_ints(o);
    assert forall|k: int| 0 <= k < 4 implies {
        &&& #[trigger] oi[k] == oi[k]
        &&& (xv[oi[k]].cmp_spec(&yv[oi[k]]) == Ordering::Less <==> yv[oi[k]].cmp_spec(&xv[oi[k]])
            == Ordering::Greater)
        &&& (xv[oi[k]].cmp_spec(&yv[oi[k]]) == Ordering::Greater <==> yv[oi[k]].cmp_spec(
            &xv[oi[k]],
        ) == Ordering::Less)
        &&& (xv[oi[k]].cmp_spec(&yv[oi[k]]) == Ordering::Equal <==> xv[oi[k]] == yv[oi[k]])
        &&& (yv[oi[k]].cmp_spec(&zv[oi[k]]) == Ordering::Equal <==> yv[oi[k]] == zv[oi[k]])
        &&& (xv[oi[k]].cmp_spec(&zv[oi[k]]) == Ordering::Equal <==> xv[oi[k]] == zv[oi[k]])
    } by {
        lemma_cmp_converse(xv[oi[k]], yv[oi[k]]);
        lemma_cmp_converse(yv[oi[k]], zv[oi[k]]);
        lemma_cmp_converse(xv[oi[k]], zv[oi[k]]);
        lemma_cmp_transitive(xv[oi[k]], yv[oi[k]], zv[oi[k]]);
    }
    lemma_cmp_transitive(xv[oi[0]], yv[oi[0]], zv[oi[0]]);
    lemma_cmp_transitive(xv[oi[1]], yv[oi[1]], zv[oi[1]]);
    lemma_cmp_transitive(xv[oi[2]], yv[oi[2]], zv[oi[2]]);
    lemma_cmp_transitive(xv[oi[3]], yv[oi[3]], zv[oi[3]]);
    assert(oi[0] == oi[0] && oi[1] == oi[1] && oi[2] == oi[2] && oi[3] == oi[3]);
    if lex_cmp4(xv, yv, order_ints(o)) == Ordering::Equal {
        assert forall|j: int| 0 <= j < 4 implies xv[j] == yv[j] by {
            let k = position_in_order(o, j);
            assert(xv[oi[k]].cmp_spec(&yv[oi[k]]) == Ordering::Equal);
        }
        assert(xv =~= yv);
    }
}

/// For any valid order `o`, the range that `o` gives to a pattern and the
/// leftover pattern select exactly the quads that match the pattern.
pub proof fn lemma_range_selects_matching_quads<I: Identifier>(
    o: Seq<usize>,
    pattern: Seq<Option<I>>,
    quad: Seq<I>,
)
    requires
        is_quad_order(o),
        pattern.len() == 4,
        quad.len() == 4,
    ensures
        quad_matches(quad, pattern) <==> ({
            &&& lex_le4(range_bound(pattern, o, I::MIN), quad, order_ints(o))
            &&& lex_le4(quad, range_bound(pattern, o, I::MAX), order_ints(o))
            &&& quad_matches(quad, range_leftover(pattern, o))
        }),
{
    I::lemma_well_ordered();
    lemma_order_covers_quad(o);
    let lo = range_bound(pattern, o, I::MIN);
    let hi = range_bound(pattern, o, I::MAX);
    let n = fixed_prefix_len(pattern, o);
    let oi = order_ints(o);
    assert forall|k: int| 0 <= k < 4 implies {
        &&& #[trigger] oi[k] == oi[k]
        &&& lo[oi[k]].cmp_spec(&quad[oi[k]]) == Ordering::Equal <==> lo[oi[k]] == quad[oi[k]]
        &&& quad[oi[k]].cmp_spec(&hi[oi[k]]) == Ordering::Equal <==> hi[oi[k]] == quad[oi[k]]
        &&& k >= n ==> lo[oi[k]] == I::MIN && hi[oi[k]] == I::MAX
        &&& k < n ==> lo[oi[k]] == pattern[oi[k]]->0 && hi[oi[k]] == pattern[oi[k]]->0
            && pattern[oi[k]] is Some
        &&& I::MIN.cmp_spec(&quad[oi[k]]) != Ordering::Greater
        &&& quad[oi[k]].cmp_spec(&I::MAX) != Ordering::Greater
        &&& (lo[oi[k]] == hi[oi[k]] && lo[oi[k]].cmp_spec(&quad[oi[k]]) != Ordering::Greater
            && quad[oi[k]].cmp_spec(&hi[oi[k]]) != Ordering::Greater) ==> quad[oi[k]] == lo[oi[k]]
    } by {
        lemma_cmp_converse(lo[oi[k]], quad[oi[k]]);
        lemma_cmp_converse(quad[oi[k]], hi[oi[k]]);
        lemma_cmp_bounds(quad[oi[k]]);
    }
    assert(oi[0] == oi[0] && oi[1] == oi[1] && oi[2] == oi[2] && oi[3] == oi[3]);
    let left = range_leftover(pattern, o);
    if quad_matches(quad, pattern) {
        assert forall|k: int| 0 <= k < n implies quad[oi[k]] == lo[oi[k]] && quad[oi[k]]
            == hi[oi[k]] by {
            assert(pattern[oi[k]] is Some);
        }
        assert forall|j: int| 0 <= j < 4 && #[trigger] left[j] is Some implies quad[j]
            == left[j]->0 by {
            assert(left[j] == pattern[j]);
        }
        assert(lex_le4(lo, quad, oi));
        assert(lex_le4(quad, hi, oi));
    }
    if lex_le4(lo, quad, oi) && lex_le4(quad, hi, oi) && quad_matches(quad, left) {
        if n > 0 {
            assert(quad[oi[0]] == lo[oi[0]]);
        }
        if n > 1 {
            assert(quad[oi[1]] == lo[oi[1]]);
        }
        if n > 2 {
            assert(quad[oi[2]] == lo[oi[2]]);
        }
        if n > 3 {
            assert(quad[oi[3]] == lo[oi[3]]);
        }
        assert forall|j: int| 0 <= j < 4 && #[trigger] pattern[j] is Some implies quad[j]
            == pattern[j]->0 by {
            let k = position_in_order(o, j);
            assert(oi[k] == j);
            if k >= n {
                assert(left[j] == pattern[j]);
            }
        }
    }
}

/// The range and the leftover pattern that [`FixedOrder4::range`] returns
/// select exactly the quads that match the pattern: a quad matches the
/// pattern if and only if it lies between the two bounds of the range (in the
/// order `A`, `B`, `C`, `D`) and matches the leftover pattern.
pub proof fn law_range_selects_matching_quads<I: Identifier, A: Position, B: Position, C: Position, D: Position>(
    pattern: Seq<Option<I>>,
    quad: Seq<I>,
)
    requires
        is_quad_order(FixedOrder4::<A, B, C, D>::order()),
        pattern.len() == 4,
        quad.len() == 4,
    ensures
        quad_matches(quad, pattern) <==> ({
            let o = FixedOrder4::<A, B, C, D>::order();
            &&& lex_le4(range_bound(pattern, o, I::MIN), quad, order_ints(o))
            &&& lex_le4(quad, range_bound(pattern, o, I::MAX), order_ints(o))
            &&& quad_matches(quad, range_leftover(pattern, o))
        }),
{
    lemma_range_selects_matching_quads::<I>(FixedOrder4::<A, B, C, D>::order(), pattern, quad);
}

} // verus!
