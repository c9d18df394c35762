//! The [`Identifier`] trait: the values that make up a quad.
use vstd::prelude::*;
use core::cmp::Ordering;
use vstd::laws_cmp::obeys_cmp;
use vstd::std_specs::cmp::{OrdSpec, PartialEqSpec, PartialOrdSpec};

verus! {

/// `a` comes strictly before `b` in the order of its type.
pub open spec fn id_lt<I: Ord>(a: I, b: I) -> bool {
    a.cmp_spec(&b) == Ordering::Less
}

/// `a` comes before `b` in the order of its type, or is equal to it.
pub open spec fn id_le<I: Ord>(a: I, b: I) -> bool {
    a.cmp_spec(&b) != Ordering::Greater
}

/// What the order of an identifier type must satisfy: a total order whose
/// equality is equality of values, that agrees with `==`, `<` and `cmp`, and
/// whose extremes are `min` and `max`.
pub open spec fn well_ordered_identifier<I: Ord>(min: I, max: I) -> bool {
    &&& obeys_cmp::<I>()
    &&& I::obeys_eq_spec()
    &&& I::obeys_partial_cmp_spec()
    &&& I::obeys_cmp_spec()
    &&& forall|a: I, b: I| #[trigger] a.eq_spec(&b) <==> a == b
    &&& forall|a: I, b: I| #[trigger] a.partial_cmp_spec(&b) == Some(a.cmp_spec(&b))
    &&& forall|a: I, b: I| #[trigger] a.cmp_spec(&b) == Ordering::Equal <==> a == b
    &&& forall|a: I, b: I| #[trigger] id_lt(a, b) <==> id_lt(b, a) == false && a != b
    &&& forall|a: I, b: I, c: I| #[trigger] id_lt(a, b) && #[trigger] id_lt(b, c) ==> id_lt(a, c)
    &&& forall|a: I| #[trigger] id_le(min, a) && id_le(a, max)
}

/// What the order of two identifiers says about the order taken the other way
/// round, and about their equality.
pub proof fn lemma_cmp_converse<I: Identifier>(a: I, b: I)
    ensures
        a.cmp_spec(&b) == Ordering::Less <==> b.cmp_spec(&a) == Ordering::Greater,
        a.cmp_spec(&b) == Ordering::Greater <==> b.cmp_spec(&a) == Ordering::Less,
        a.cmp_spec(&b) == Ordering::Equal <==> a == b,
        b.cmp_spec(&a) == Ordering::Equal <==> a == b,
{
    I::lemma_well_ordered();
    assert(id_lt(a, b) <==> id_lt(b, a) == false && a != b);
    assert(id_lt(b, a) <==> id_lt(a, b) == false && b != a);
}

/// The order of identifiers is transitive, strictly and not strictly.
pub proof fn lemma_cmp_transitive<I: Identifier>(a: I, b: I, c: I)
    ensures
        a.cmp_spec(&b) == Ordering::Less && b.cmp_spec(&c) == Ordering::Less ==> a.cmp_spec(&c)
            == Ordering::Less,
        a.cmp_spec(&b) != Ordering::Greater && b.cmp_spec(&c) != Ordering::Greater
            ==> a.cmp_spec(&c) != Ordering::Greater,
        a.cmp_spec(&b) == Ordering::Less && b.cmp_spec(&c) != Ordering::Greater
            ==> a.cmp_spec(&c) == Ordering::Less,
        a.cmp_spec(&b) != Ordering::Greater && b.cmp_spec(&c) == Ordering::Less
            ==> a.cmp_spec(&c) == Ordering::Less,
{
    I::lemma_well_ordered();
    lemma_cmp_converse(a, b);
    lemma_cmp_converse(b, c);
    lemma_cmp_converse(a, c);
    if id_lt(a, b) && id_lt(b, c) {
        assert(id_lt(a, c));
    }
}

/// `MIN` is the smallest identifier and `MAX` the largest.
pub proof fn lemma_cmp_bounds<I: Identifier>(a: I)
    ensures
        I::MIN.cmp_spec(&a) != Ordering::Greater,
        a.cmp_spec(&I::MAX) != Ordering::Greater,
        a.cmp_spec(&I::MIN) != Ordering::Less,
        I::MAX.cmp_spec(&a) != Ordering::Less,
{
    I::lemma_well_ordered();
    assert(id_le(I::MIN, a) && id_le(a, I::MAX));
    lemma_cmp_converse(a, I::MIN);
    lemma_cmp_converse(a, I::MAX);
}

/// The bounds of `u32` identifiers.
pub proof fn lemma_u32_bounds()
    ensures
        <u32 as Identifier>::MIN == 0u32,
        <u32 as Identifier>::MAX == 0xffff_ffffu32,
{
}

/// Identifiers are values that are comparable between each other, and that
/// both have an associated minimal value and maximum value.
///
/// This enables them to both store them in ordered sets and search for every
/// possible values for an identifier (making the range `MIN..=MAX` a wildcard).
pub trait Identifier: Ord + Copy + Sized {
    /// Minimal value an identifier of this type can be
    const MIN: Self;
    /// Maximal value an identifier of this type can be
    const MAX: Self;

    /// The order of this type is a total order bounded by `MIN` and `MAX`.
    proof fn lemma_well_ordered()
        ensures
            well_ordered_identifier::<Self>(Self::MIN, Self::MAX),
    ;
}

impl Identifier for u8 {
    const MIN: Self = 0u8;
    const MAX: Self = 255u8;

    proof fn lemma_well_ordered() {
        broadcast use vstd::laws_cmp::group_laws_cmp;
    }
}

impl Identifier for u16 {
    const MIN: Self = 0u16;
    const MAX: Self = 0xffffu16;

    proof fn lemma_well_ordered() {
        broadcast use vstd::laws_cmp::group_laws_cmp;
    }
}

impl Identifier for u32 {
    const MIN: Self = 0u32;
    const MAX: Self = 0xffff_ffffu32;

    proof fn lemma_well_ordered() {
        broadcast use vstd::laws_cmp::group_laws_cmp;
    }
}

impl Identifier for u64 {
    const MIN: Self = 0u64;
    const MAX: Self = 0xffff_ffff_ffff_ffffu64;

    proof fn lemma_well_ordered() {
        broadcast use vstd::laws_cmp::group_laws_cmp;
    }
}

impl Identifier for usize {
    const MIN: Self = 0usize;
    const MAX: Self = usize::MAX;

    proof fn lemma_well_ordered() {
        broadcast use vstd::laws_cmp::group_laws_cmp;
    }
}

impl Identifier for i16 {
    const MIN: Self = -0x8000i16;
    const MAX: Self = 0x7fffi16;

    proof fn lemma_well_ordered() {
        broadcast use vstd::laws_cmp::group_laws_cmp;
    }
}

impl Identifier for i32 {
    const MIN: Self = -0x8000_0000i32;
    const MAX: Self = 0x7fff_ffffi32;

    proof fn lemma_well_ordered() {
        broadcast use vstd::laws_cmp::group_laws_cmp;
    }
}

impl Identifier for i64 {
    const MIN: Self = -0x8000_0000_0000_0000i64;
    const MAX: Self = 0x7fff_ffff_ffff_ffffi64;

    proof fn lemma_well_ordered() {
        broadcast use vstd::laws_cmp::group_laws_cmp;
    }
}

impl Identifier for isize {
    const MIN: Self = isize::MIN;
    const MAX: Self = isize::MAX;

    proof fn lemma_well_ordered() {
        broadcast use vstd::laws_cmp::group_laws_cmp;
    }
}

} // verus!
