//! Orders chosen at execution time: a [`BlockOrder`] converts quads of
//! identifiers (in the Subject, Predicate, Object, Graph order) into
//! [`Block`]s (the same identifiers in the order of a tree) and back, and
//! manipulates the ordered sets of blocks.
use vstd::prelude::*;
use core::ops::RangeInclusive;
use std::collections::BTreeSet;
use crate::identifier::Identifier;
use crate::quad::{
    is_quad_order, quad_matches, permute, position_in_order, fixed_prefix_len, range_bound,
    key_of, quad_of_key, quads_of_keys, quads_of_arrays, quad_views, matching, order_ints,
    lemma_order_covers_quad, lemma_keys_and_quads, lemma_quads_of_keys, key_at,
};
use crate::tree::{distinct_quads, answers_query, btree_keys_between, lemma_keys_lawfully_ordered};
use crate::identifier::lemma_u32_bounds;
use crate::order::{lemma_range_selects_matching_quads, lemma_key_order_is_lex, lemma_range_bounds_ordered, lex_le4, lex_cmp4};
use core::cmp::Ordering;
use vstd::std_specs::cmp::OrdSpec;
use crate::quad::{lemma_quads_of_keys_contains, lemma_permuted_match, range_leftover};

verus! {

/// Number of terms in a quad
pub const NB_OF_TERMS: usize = 4;

/// The role of a term in a quad, which is also its position in an identifier
/// quad.
#[derive(Clone, Copy, Debug, Eq, PartialEq, PartialOrd, Ord)]
pub enum TermRole {
    /// The subject, at position 0.
    Subject,
    /// The predicate, at position 1.
    Predicate,
    /// The object, at position 2.
    Object,
    /// The graph name, at position 3.
    Graph,
}

/// The position of a role in an identifier quad.
pub open spec fn role_position(r: TermRole) -> usize {
    match r {
        TermRole::Subject => 0,
        TermRole::Predicate => 1,
        TermRole::Object => 2,
        TermRole::Graph => 3,
    }
}

/// The positions of a list of roles.
pub open spec fn roles_positions(roles: Seq<TermRole>) -> Seq<usize> {
    roles.map_values(|r: TermRole| role_position(r))
}

/// The name of a role, as its `Debug` form writes it.
pub open spec fn role_name(r: TermRole) -> Seq<char> {
    match r {
        TermRole::Subject => "Subject"@,
        TermRole::Predicate => "Predicate"@,
        TermRole::Object => "Object"@,
        TermRole::Graph => "Graph"@,
    }
}

impl TermRole {
    /// The position of this role in an identifier quad.
    pub fn position(&self) -> (r: usize)
        ensures
            r == role_position(*self),
    {
        match self {
            TermRole::Subject => 0,
            TermRole::Predicate => 1,
            TermRole::Object => 2,
            TermRole::Graph => 3,
        }
    }

    /// The name of this role.
    pub fn name(&self) -> (r: &'static str)
        ensures
            r@ == role_name(*self),
    {
        match self {
            TermRole::Subject => "Subject",
            TermRole::Predicate => "Predicate",
            TermRole::Object => "Object",
            TermRole::Graph => "Graph",
        }
    }
}

/// A block is a quad whose values are in the order of a tree, so that it can
/// be stored in an ordered set.
#[derive(PartialEq, PartialOrd, Eq, Ord, Debug, Clone, Copy)]
pub struct Block<T> {
    data: [T; NB_OF_TERMS],
}

impl<T> View for Block<T> {
    type V = Seq<T>;

    closed spec fn view(&self) -> Seq<T> {
        self.data@
    }
}

impl<T: Copy> Block<T> {
    /// Creates a block with the given values
    pub fn new(values: [T; NB_OF_TERMS]) -> (r: Block<T>)
        ensures
            r@ == values@,
    {
        Block { data: values }
    }

    /// The values of the block.
    pub fn values(&self) -> (r: [T; NB_OF_TERMS])
        ensures
            r@ == self@,
    {
        self.data
    }
}

impl<T: Identifier> Block<T> {
    /// Returns true if the non None values of the given filter_block are equals
    /// to the values of this block
    pub fn match_option_block(&self, filter_block: &Block<Option<T>>) -> (r: bool)
        ensures
            r == quad_matches(self@, filter_block@),
    {
        crate::quad::pattern_match(&self.data, &filter_block.data)
    }
}

/// A block order enables to convert an identifier quad into a block and get
/// back the identifier quad.
///
/// It provides methods to manipulate the elements of an ordered set of blocks
/// by using functions that take as input or return identifier quads.
#[derive(Clone, Copy)]
pub struct BlockOrder {
    term_roles: [TermRole; NB_OF_TERMS],
    // if block is GSPO, `block_order_to_spog_order == [3, 0, 1, 2]`
    block_order_to_spog_order: [usize; NB_OF_TERMS],
    // if block is GSPO, `spog_order_to_block_order == [1, 2, 3, 0]`
    spog_order_to_block_order: [usize; NB_OF_TERMS],
}

impl BlockOrder {
    /// The roles of the block positions, first to last.
    pub closed spec fn roles(&self) -> Seq<TermRole> {
        self.term_roles@
    }

    /// The quad position held at each block position.
    pub open spec fn order(&self) -> Seq<usize> {
        roles_positions(self.roles())
    }

    /// Each role appears once, and the two conversion tables are the order
    /// and its inverse.
    #[verifier::type_invariant]
    closed spec fn inv(self) -> bool {
        &&& is_quad_order(roles_positions(self.term_roles@))
        &&& self.block_order_to_spog_order@ == roles_positions(self.term_roles@)
        &&& forall|j: int|
            0 <= j < 4 ==> #[trigger] self.spog_order_to_block_order@[j] == position_in_order(
                roles_positions(self.term_roles@),
                j,
            )
    }

    /// Returns a string that represents the block order
    pub fn name(&self) -> (r: String)
        ensures
            r@ == role_name(self.roles()[0]) + " "@ + role_name(self.roles()[1]) + " "@ + role_name(
                self.roles()[2],
            ) + " "@ + role_name(self.roles()[3]),
    {
        let mut r = String::from_str(self.term_roles[0].name());
        r.append(" ");
        r.append(self.term_roles[1].name());
        r.append(" ");
        r.append(self.term_roles[2].name());
        r.append(" ");
        r.append(self.term_roles[3].name());
        r
    }

    /// The roles of the block positions.
    pub fn get_term_roles(&self) -> (r: &[TermRole; NB_OF_TERMS])
        ensures
            r@ == self.roles(),
            is_quad_order(self.order()),
    {
        proof {
            use_type_invariant(self);
        }
        &self.term_roles
    }

    /// Builds a block order from an order of roles, which must name each
    /// role once: an order that repeats a role is refused, as it names no
    /// order of the four terms.
    pub fn new(term_roles: [TermRole; NB_OF_TERMS]) -> (r: BlockOrder)
        requires
            is_quad_order(roles_positions(term_roles@)),
        ensures
            r.roles() == term_roles@,
            is_quad_order(r.order()),
    {
        let mut block_order_to_spog_order: [usize; NB_OF_TERMS] = [0; NB_OF_TERMS];
        let mut spog_order_to_block_order: [usize; NB_OF_TERMS] = [0; NB_OF_TERMS];
        let ghost o = roles_positions(term_roles@);
        let mut position: usize = 0;
        while position < NB_OF_TERMS
            invariant
                0 <= position <= 4,
                o == roles_positions(term_roles@),
                is_quad_order(o),
                forall|i: int| 0 <= i < position ==> #[trigger] block_order_to_spog_order@[i] == o[i],
                forall|j: int|
                    0 <= j < 4 && position_in_order(o, j) < position ==> #[trigger] spog_order_to_block_order@[j]
                        == position_in_order(o, j),
            decreases 4 - position,
        {
            let role = term_roles[position].position();
            proof {
                lemma_order_covers_quad(o);
            }
            spog_order_to_block_order[role] = position;
            block_order_to_spog_order[position] = role;
            position = position + 1;
        }
        proof {
            lemma_order_covers_quad(o);
            assert(block_order_to_spog_order@ =~= o);
        }
        BlockOrder { term_roles, block_order_to_spog_order, spog_order_to_block_order }
    }

    /// Builds a block from an identifier quad
    pub fn to_block<T: Copy>(&self, identifier_quad: &[T; NB_OF_TERMS]) -> (r: Block<T>)
        ensures
            r@ == permute(identifier_quad@, self.order()),
            is_quad_order(self.order()),
    {
        proof {
            use_type_invariant(self);
        }
        let r = Block {
            data: [
                identifier_quad[self.block_order_to_spog_order[0]],
                identifier_quad[self.block_order_to_spog_order[1]],
                identifier_quad[self.block_order_to_spog_order[2]],
                identifier_quad[self.block_order_to_spog_order[3]],
            ],
        };
        proof {
            assert(r@ =~= permute(identifier_quad@, self.order()));
        }
        r
    }

    /// Builds a block from an identifier quad pattern
    pub fn to_filter_block<T: Copy>(&self, identifier_quad_pattern: &[Option<T>; NB_OF_TERMS]) -> (r:
        Block<Option<T>>)
        ensures
            r@ == permute(identifier_quad_pattern@, self.order()),
    {
        self.to_block(identifier_quad_pattern)
    }

    /// Builds an identifier quad from a block
    pub fn to_identifier_quad<T: Copy>(&self, block: &Block<T>) -> (r: [T; NB_OF_TERMS])
        ensures
            r@ == Seq::new(4, |j: int| block@[position_in_order(self.order(), j)]),
    {
        proof {
            use_type_invariant(self);
            lemma_order_covers_quad(self.order());
        }
        let r = [
            block.data[self.spog_order_to_block_order[0]],
            block.data[self.spog_order_to_block_order[1]],
            block.data[self.spog_order_to_block_order[2]],
            block.data[self.spog_order_to_block_order[3]],
        ];
        proof {
            assert(r@ =~= Seq::new(4, |j: int| block@[position_in_order(self.order(), j)]));
        }
        r
    }

    /// Builds SPOG indices from a block (the same as
    /// [`to_identifier_quad`](Self::to_identifier_quad))
    pub fn to_indices<T: Copy>(&self, block: &Block<T>) -> (r: [T; NB_OF_TERMS])
        ensures
            r@ == Seq::new(4, |j: int| block@[position_in_order(self.order(), j)]),
    {
        self.to_identifier_quad(block)
    }

    /// Returns the number of term roles in the request that can be used as a
    /// prefix: how many of the first roles of this order hold a value.
    pub fn index_conformance(&self, request: &[&Option<u32>; NB_OF_TERMS]) -> (r: usize)
        ensures
            r == fixed_prefix_len(deref_request(request@), self.order()),
            is_quad_order(self.order()),
    {
        proof {
            use_type_invariant(self);
        }
        let mut i: usize = 0;
        while i < NB_OF_TERMS
            invariant
                0 <= i <= 4,
                is_quad_order(self.order()),
                forall|k: int| 0 <= k < i ==> (#[trigger] deref_request(request@)[self.order()[k] as int]) is Some,
            decreases 4 - i,
        {
            if request[self.term_roles[i].position()].is_none() {
                return i;
            }
            i = i + 1;
        }
        i
    }
}

/// What [`BlockOrder::to_identifier_quad`] builds from the block that
/// [`BlockOrder::to_block`] builds from a quad is that quad, for every
/// block order.
pub proof fn law_to_identifier_quad_undoes_to_block(order: &BlockOrder, quad: Seq<u32>)
    requires
        is_quad_order(order.order()),
        quad.len() == 4,
    ensures
        Seq::new(4, |j: int| permute(quad, order.order())[position_in_order(order.order(), j)]) == quad,
{
    let o = order.order();
    lemma_order_covers_quad(o);
    assert(Seq::new(4, |j: int| permute(quad, o)[position_in_order(o, j)]) =~= quad);
}

/// The patterns behind the references of a request.
pub open spec fn deref_request(request: Seq<&Option<u32>>) -> Seq<Option<u32>> {
    request.map_values(|x: &Option<u32>| *x)
}

/// The quad stored under the key `k` by a tree of order `o` lies between the
/// two bounds of the range that `o` gives to the pattern `p`.
pub open spec fn key_in_range(k: (u32, u32, u32, u32), p: Seq<Option<u32>>, o: Seq<usize>) -> bool {
    &&& lex_le4(range_bound(p, o, 0u32), quad_of_key(k, o), order_ints(o))
    &&& lex_le4(quad_of_key(k, o), range_bound(p, o, 0xffff_ffffu32), order_ints(o))
}

/// The quads of `r` come in strictly ascending order of their blocks in the
/// order `o`.
pub open spec fn quads_ascend(r: Seq<[u32; NB_OF_TERMS]>, o: Seq<usize>) -> bool {
    forall|i: int, j: int|
        0 <= i < j < r.len() ==> lex_cmp4(#[trigger] r[i]@, #[trigger] r[j]@, order_ints(o)) == Ordering::Less
}

/// The key `a` comes strictly before the key `b`.
pub open spec fn key_lt(a: (u32, u32, u32, u32), b: (u32, u32, u32, u32)) -> bool {
    a.cmp_spec(&b) == Ordering::Less
}

/// The keys of `keys` come in strictly ascending order.
pub open spec fn keys_ascend(keys: Seq<(u32, u32, u32, u32)>) -> bool {
    forall|a: int, b: int| 0 <= a < b < keys.len() ==> key_lt(#[trigger] keys[a], #[trigger] keys[b])
}

/// The keys of the quads of `r` in the order `o` come in strictly ascending
/// order.
pub open spec fn quad_keys_ascend(r: Seq<[u32; NB_OF_TERMS]>, o: Seq<usize>) -> bool {
    forall|a: int, b: int| 0 <= a < b < r.len() ==> key_lt(key_of((#[trigger] r[a])@, o), key_of((#[trigger] r[b])@, o))
}

/// Quads whose keys ascend come in ascending order of their blocks.
pub(crate) proof fn lemma_keys_ascend_is_blocks_ascend(r: Seq<[u32; NB_OF_TERMS]>, o: Seq<usize>)
    requires
        o.len() == 4,
        quad_keys_ascend(r, o),
    ensures
        quads_ascend(r, o),
{
    assert forall|a: int, b: int| 0 <= a < b < r.len() implies lex_cmp4(#[trigger] r[a]@, #[trigger] r[b]@, order_ints(o))
        == Ordering::Less by {
        lemma_key_order_is_lex(r[a]@, r[b]@, o);
    }
}

/// The quads of a query, handed out one at a time.
pub struct IdentifierQuadFilter {
    quads: Vec<[u32; NB_OF_TERMS]>,
    next_index: usize,
}

/// Another name of [`IdentifierQuadFilter`], used by the datasets that hand out filtered quads.
pub type FilteredIndexQuads = IdentifierQuadFilter;

impl IdentifierQuadFilter {
    /// The quads not handed out yet, in order.
    pub closed spec fn remaining(&self) -> Seq<[u32; NB_OF_TERMS]> {
        self.quads@.subrange(self.next_index as int, self.quads@.len() as int)
    }

    /// The filter is consistent.
    pub closed spec fn valid(&self) -> bool {
        self.next_index <= self.quads@.len()
    }

    /// A filter that hands out `quads`.
    pub(crate) fn from_vec(quads: Vec<[u32; NB_OF_TERMS]>) -> (r: Self)
        ensures
            r.valid(),
            r.remaining() == quads@,
    {
        let r = IdentifierQuadFilter { quads, next_index: 0 };
        proof {
            assert(r.remaining() =~= r.quads@);
        }
        r
    }

    /// Hands out the next quad, if any is left.
    pub fn next(&mut self) -> (r: Option<[u32; NB_OF_TERMS]>)
        requires
            old(self).valid(),
        ensures
            final(self).valid(),
            old(self).remaining().len() == 0 ==> r is None && final(self).remaining() == old(
                self,
            ).remaining(),
            old(self).remaining().len() > 0 ==> r == Some(old(self).remaining()[0])
                && final(self).remaining() == old(self).remaining().drop_first(),
    {
        if self.next_index < self.quads.len() {
            let q = self.quads[self.next_index];
            self.next_index = self.next_index + 1;
            proof {
                assert(self.remaining() =~= old(self).remaining().drop_first());
            }
            Some(q)
        } else {
            None
        }
    }

    /// Every quad not handed out yet, in order.
    pub fn into_vec(self) -> (r: Vec<[u32; NB_OF_TERMS]>)
        requires
            self.valid(),
        ensures
            r@ == self.remaining(),
    {
        let mut r: Vec<[u32; NB_OF_TERMS]> = Vec::new();
        let mut i = self.next_index;
        while i < self.quads.len()
            invariant
                self.next_index <= i <= self.quads@.len(),
                r@ == self.quads@.subrange(self.next_index as int, i as int),
            decreases self.quads@.len() - i,
        {
            r.push(self.quads[i]);
            i = i + 1;
            proof {
                assert(r@ =~= self.quads@.subrange(self.next_index as int, i as int));
            }
        }
        r
    }
}

impl BlockOrder {
    /// The two bounds of the range that [`range`](Self::range) returns.
    fn bounds(&self, identifier_quad_pattern: &[Option<u32>; NB_OF_TERMS]) -> (r: (Block<u32>, Block<u32>))
        ensures
            r.0@ == permute(range_bound(identifier_quad_pattern@, self.order(), 0u32), self.order()),
            r.1@ == permute(range_bound(identifier_quad_pattern@, self.order(), 0xffff_ffffu32), self.order()),
            is_quad_order(self.order()),
    {
        proof {
            use_type_invariant(self);
        }
        let ghost o = self.order();
        let ghost p = identifier_quad_pattern@;
        let mut min: [u32; NB_OF_TERMS] = [0; NB_OF_TERMS];
        let mut max: [u32; NB_OF_TERMS] = [0xffff_ffff; NB_OF_TERMS];
        let mut i: usize = 0;
        while i < NB_OF_TERMS
            invariant_except_break
                forall|k: int| 0 <= k < i ==> (#[trigger] p[o[k] as int]) is Some,
            invariant
                0 <= i <= 4,
                o == self.order(),
                p == identifier_quad_pattern@,
                is_quad_order(o),
                forall|k: int| 0 <= k < 4 ==> #[trigger] min@[k] == (if k < i { p[o[k] as int]->0 } else { 0u32 }),
                forall|k: int| 0 <= k < 4 ==> #[trigger] max@[k] == (if k < i { p[o[k] as int]->0 } else { 0xffff_ffffu32 }),
            ensures
                fixed_prefix_len(p, o) == i,
                forall|k: int| 0 <= k < 4 ==> #[trigger] min@[k] == (if k < i { p[o[k] as int]->0 } else { 0u32 }),
                forall|k: int| 0 <= k < 4 ==> #[trigger] max@[k] == (if k < i { p[o[k] as int]->0 } else { 0xffff_ffffu32 }),
            decreases 4 - i,
        {
            let position = self.term_roles[i].position();
            proof {
                assert(position == o[i as int]);
            }
            match identifier_quad_pattern[position] {
                None => {
                    break;
                },
                Some(set_value) => {
                    min[i] = set_value;
                    max[i] = set_value;
                },
            }
            i = i + 1;
        }
        proof {
            lemma_order_covers_quad(o);
            assert(min@ =~= permute(range_bound(p, o, 0u32), o));
            assert(max@ =~= permute(range_bound(p, o, 0xffff_ffffu32), o));
        }
        (Block::new(min), Block::new(max))
    }

    /// Returns a range on every block that matches the given identifier quad
    /// pattern. The range is restricted as much as possible, but extra quads
    /// that do not match the pattern may be included (best effort).
    /// To let the user filter the extra quads, a filter block is also
    /// returned.
    pub fn range(&self, identifier_quad_pattern: [Option<u32>; NB_OF_TERMS]) -> (r: (
        RangeInclusive<Block<u32>>,
        Block<Option<u32>>,
    ))
        ensures
            r.0@.start@ == permute(range_bound(identifier_quad_pattern@, self.order(), 0u32), self.order()),
            r.0@.end@ == permute(range_bound(identifier_quad_pattern@, self.order(), 0xffff_ffffu32), self.order()),
            r.0@.exhausted == false,
            r.1@ == permute(identifier_quad_pattern@, self.order()),
    {
        let (min, max) = self.bounds(&identifier_quad_pattern);
        (RangeInclusive::new(min, max), self.to_filter_block(&identifier_quad_pattern))
    }

    /// The key under which a tree of this order stores the quad.
    fn key(&self, identifier_quad: &[u32; NB_OF_TERMS]) -> (k: (u32, u32, u32, u32))
        ensures
            k == key_of(identifier_quad@, self.order()),
            is_quad_order(self.order()),
    {
        let b = self.to_block(identifier_quad);
        (b.data[0], b.data[1], b.data[2], b.data[3])
    }

    /// Inserts the given identifier quad in the passed tree, using this block order
    ///
    /// Returns true if the quad was already present
    pub fn insert_into(&self, tree: &mut BTreeSet<(u32, u32, u32, u32)>, identifier_quad: &[u32; NB_OF_TERMS]) -> (r: bool)
        ensures
            quads_of_keys(final(tree)@, self.order()) == quads_of_keys(old(tree)@, self.order()).insert(identifier_quad@),
            r == quads_of_keys(old(tree)@, self.order()).contains(identifier_quad@),
    {
        let k = self.key(identifier_quad);
        proof {
            lemma_keys_lawfully_ordered::<u32>();
            lemma_keys_and_quads::<u32>(self.order());
        }
        let ghost before = tree@;
        let inserted = tree.insert(k);
        proof {
            lemma_quads_of_keys_contains(before, self.order());
            lemma_quads_of_keys_contains(tree@, self.order());
            assert(quads_of_keys(tree@, self.order()) =~= quads_of_keys(before, self.order()).insert(identifier_quad@));
        }
        !inserted
    }

    /// Deletes the given identifier quad from the passed tree, using this block order
    ///
    /// Returns true if the quad has been deleted
    pub fn delete_from(&self, tree: &mut BTreeSet<(u32, u32, u32, u32)>, identifier_quad: &[u32; NB_OF_TERMS]) -> (r: bool)
        ensures
            quads_of_keys(final(tree)@, self.order()) == quads_of_keys(old(tree)@, self.order()).remove(identifier_quad@),
            r == quads_of_keys(old(tree)@, self.order()).contains(identifier_quad@),
    {
        let k = self.key(identifier_quad);
        proof {
            lemma_keys_lawfully_ordered::<u32>();
            lemma_keys_and_quads::<u32>(self.order());
        }
        let ghost before = tree@;
        let removed = tree.remove(&k);
        proof {
            lemma_quads_of_keys_contains(before, self.order());
            lemma_quads_of_keys_contains(tree@, self.order());
            assert(quads_of_keys(tree@, self.order()) =~= quads_of_keys(before, self.order()).remove(identifier_quad@));
        }
        removed
    }

    /// Returns true if the passed tree contains the passed quad
    pub fn contains(&self, tree: &BTreeSet<(u32, u32, u32, u32)>, identifier_quad: &[u32; NB_OF_TERMS]) -> (r: bool)
        ensures
            r == quads_of_keys(tree@, self.order()).contains(identifier_quad@),
    {
        let k = self.key(identifier_quad);
        proof {
            lemma_keys_lawfully_ordered::<u32>();
            lemma_keys_and_quads::<u32>(self.order());
            lemma_quads_of_keys_contains(tree@, self.order());
        }
        tree.contains(&k)
    }

    /// Inserts every identifier quad that `iterator` still has in the passed
    /// tree
    pub fn insert_all_into(&self, tree: &mut BTreeSet<(u32, u32, u32, u32)>, iterator: IdentifierQuadFilter)
        requires
            iterator.valid(),
        ensures
            quads_of_keys(final(tree)@, self.order()) == quads_of_keys(old(tree)@, self.order()).union(
                quads_of_arrays(iterator.remaining()),
            ),
    {
        let quads = iterator.into_vec();
        let ghost start = quads_of_keys(tree@, self.order());
        proof {
            crate::quad::lemma_quads_of_prefix_ends(quads@);
            assert(start.union(quads_of_arrays(quads@.subrange(0, 0))) =~= start);
        }
        let mut i: usize = 0;
        while i < quads.len()
            invariant
                0 <= i <= quads@.len(),
                quads_of_keys(tree@, self.order()) == start.union(quads_of_arrays(quads@.subrange(0, i as int))),
            decreases quads@.len() - i,
        {
            proof {
                crate::quad::lemma_quads_of_prefix(quads@, i as int);
            }
            self.insert_into(tree, &quads[i]);
            proof {
                assert(quads_of_keys(tree@, self.order()) =~= start.union(quads_of_arrays(quads@.subrange(0, i + 1))));
            }
            i = i + 1;
        }
        proof {
            crate::quad::lemma_quads_of_prefix_ends(quads@);
        }
    }

    /// The quads stored under `keys` whose block matches `filter_block`, each
    /// once.
    fn select(&self, keys: &Vec<(u32, u32, u32, u32)>, filter_block: &Block<Option<u32>>, pattern: Ghost<Seq<Option<u32>>>) -> (r: Vec<[u32; NB_OF_TERMS]>)
        requires
            keys@.no_duplicates(),
            keys_ascend(keys@),
            pattern@.len() == 4,
            filter_block@ == permute(pattern@, self.order()),
        ensures
            distinct_quads(r@),
            quad_keys_ascend(r@, self.order()),
            forall|q: Seq<u32>|
                quads_of_arrays(r@).contains(q) == (q.len() == 4 && keys@.contains(key_of(q, self.order())) && quad_matches(q, pattern@)),
    {
        proof {
            use_type_invariant(self);
        }
        let ghost o = self.order();
        proof {
            lemma_keys_and_quads::<u32>(o);
            lemma_order_covers_quad(o);
        }
        let mut result: Vec<[u32; NB_OF_TERMS]> = Vec::new();
        let mut i: usize = 0;
        while i < keys.len()
            invariant
                0 <= i <= keys.len(),
                is_quad_order(o),
                o == self.order(),
                keys@.no_duplicates(),
                keys_ascend(keys@),
                quad_keys_ascend(result@, o),
                pattern@.len() == 4,
                filter_block@ == permute(pattern@, o),
                forall|q: Seq<u32>| q.len() == 4 ==> #[trigger] quad_of_key(key_of(q, o), o) == q,
                forall|k: (u32, u32, u32, u32)| #[trigger] key_of(quad_of_key(k, o), o) == k,
                forall|k: (u32, u32, u32, u32)| (#[trigger] quad_of_key(k, o)).len() == 4,
                forall|m: int|
                    0 <= m < result.len() ==> keys@.subrange(0, i as int).contains(
                        key_of(#[trigger] result@[m]@, o),
                    ) && result@[m]@.len() == 4 && quad_matches(result@[m]@, pattern@),
                forall|j: int|
                    0 <= j < i && quad_matches(quad_of_key(#[trigger] keys@[j], o), pattern@)
                        ==> quads_of_arrays(result@).contains(quad_of_key(keys@[j], o)),
                distinct_quads(result@),
            decreases keys.len() - i,
        {
            let k = keys[i];
            let block = Block::new([k.0, k.1, k.2, k.3]);
            let q = self.to_identifier_quad(&block);
            proof {
                assert(q@ =~= quad_of_key(k, o));
                assert(block@ =~= permute(q@, o));
                lemma_permuted_match(q@, pattern@, o);
            }
            if block.match_option_block(filter_block) {
                proof {
                    assert forall|m: int| 0 <= m < result.len() implies result@[m]@ != q@ by {
                        if result@[m]@ == q@ {
                            assert(key_of(q@, o) == keys@[i as int]);
                            let jj = choose|jj: int|
                                0 <= jj < i && keys@.subrange(0, i as int)[jj] == key_of(result@[m]@, o);
                            assert(keys@[jj] == keys@[i as int]);
                        }
                    }
                }
                let ghost before = result@;
                result.push(q);
                proof {
                    assert forall|a: int, b: int|
                        0 <= a < b < result@.len() implies key_lt(key_of((#[trigger] result@[a])@, o), key_of((#[trigger] result@[b])@, o)) by {
                        if b == before.len() {
                            assert(result@[a] == before[a]);
                            let jj = choose|jj: int|
                                0 <= jj < i && keys@.subrange(0, i as int)[jj] == key_of(before[a]@, o);
                            assert(keys@[jj] == key_of(result@[a]@, o));
                            assert(key_of(result@[b]@, o) == keys@[i as int]);
                        } else {
                            assert(result@[a] == before[a] && result@[b] == before[b]);
                        }
                    }
                    assert forall|j: int|
                        0 <= j <= i && quad_matches(quad_of_key(#[trigger] keys@[j], o), pattern@)
                            implies quads_of_arrays(result@).contains(quad_of_key(keys@[j], o)) by {
                        if j < i {
                            let mm = choose|mm: int|
                                0 <= mm < before.len() && quad_views(before)[mm] == quad_of_key(keys@[j], o);
                            assert(quad_views(result@)[mm] == quad_of_key(keys@[j], o));
                        } else {
                            assert(quad_views(result@)[before.len() as int] == q@);
                        }
                    }
                }
            }
            proof {
                assert forall|m: int| 0 <= m < result.len() implies keys@.subrange(0, i + 1).contains(
                    key_of(#[trigger] result@[m]@, o),
                ) by {
                    if key_of(result@[m]@, o) == keys@[i as int] {
                        assert(keys@.subrange(0, i + 1)[i as int] == keys@[i as int]);
                    } else {
                        let jj = choose|jj: int|
                            0 <= jj < i && keys@.subrange(0, i as int)[jj] == key_of(result@[m]@, o);
                        assert(keys@.subrange(0, i + 1)[jj] == keys@[jj]);
                    }
                }
            }
            i = i + 1;
        }
        proof {
            assert forall|q: Seq<u32>|
                quads_of_arrays(result@).contains(q) == (q.len() == 4 && keys@.contains(key_of(q, o)) && quad_matches(q, pattern@)) by {
                if quads_of_arrays(result@).contains(q) {
                    let mm = choose|mm: int| 0 <= mm < result@.len() && quad_views(result@)[mm] == q;
                    assert(result@[mm]@ == q);
                    assert(keys@.subrange(0, i as int) == keys@);
                }
                if q.len() == 4 && keys@.contains(key_of(q, o)) && quad_matches(q, pattern@) {
                    let jj = choose|jj: int| 0 <= jj < keys@.len() && keys@[jj] == key_of(q, o);
                    assert(quad_of_key(keys@[jj], o) == q);
                }
            }
        }
        result
    }

    /// The keys of `tree` between the two bounds that [`bounds`](Self::bounds)
    /// gives to `pattern`, each once.
    fn keys_between(
        &self,
        tree: &BTreeSet<(u32, u32, u32, u32)>,
        lo: &Block<u32>,
        hi: &Block<u32>,
        pattern: Ghost<Seq<Option<u32>>>,
    ) -> (r: Vec<(u32, u32, u32, u32)>)
        requires
            pattern@.len() == 4,
            is_quad_order(self.order()),
            lo@ == permute(range_bound(pattern@, self.order(), 0u32), self.order()),
            hi@ == permute(range_bound(pattern@, self.order(), 0xffff_ffffu32), self.order()),
        ensures
            r@.no_duplicates(),
            keys_ascend(r@),
            forall|k: (u32, u32, u32, u32)|
                #[trigger] r@.contains(k) == (tree@.contains(k) && key_in_range(k, pattern@, self.order())),
    {
        let ghost o = self.order();
        let ghost p = pattern@;
        let ghost lq = range_bound(p, o, 0u32);
        let ghost hq = range_bound(p, o, 0xffff_ffffu32);
        let lo_key = (lo.data[0], lo.data[1], lo.data[2], lo.data[3]);
        let hi_key = (hi.data[0], hi.data[1], hi.data[2], hi.data[3]);
        proof {
            lemma_u32_bounds();
            lemma_keys_lawfully_ordered::<u32>();
            lemma_range_bounds_ordered::<u32>(p, o);
            lemma_keys_and_quads::<u32>(o);
            assert(lo_key == key_of(lq, o));
            assert(hi_key == key_of(hq, o));
            lemma_key_order_is_lex(lq, hq, o);
        }
        let r = btree_keys_between(tree, lo_key, hi_key);
        proof {
            assert forall|k: (u32, u32, u32, u32)|
                #[trigger] r@.contains(k) == (tree@.contains(k) && key_in_range(k, p, o)) by {
                assert(key_of(quad_of_key(k, o), o) == k);
                lemma_key_order_is_lex(lq, quad_of_key(k, o), o);
                lemma_key_order_is_lex(quad_of_key(k, o), hq, o);
                assert(r@.contains(k) == (tree@.contains(k) && lo_key.cmp_spec(&k) != Ordering::Greater
                    && k.cmp_spec(&hi_key) != Ordering::Greater));
            }
        }
        r
    }

    /// Returns every identifier quad of the tree that matches the given
    /// identifier quad pattern (`None` is a wildcard), each once.
    ///
    /// The filter only looks at the part of the tree that the range given by
    /// this order to the pattern selects; the higher the
    /// [`index_conformance`](Self::index_conformance), the smaller that part.
    pub fn filter(&self, tree: &BTreeSet<(u32, u32, u32, u32)>, identifier_quad_pattern: [Option<u32>; NB_OF_TERMS]) -> (r: IdentifierQuadFilter)
        ensures
            r.valid(),
            answers_query(r.remaining(), quads_of_keys(tree@, self.order()), identifier_quad_pattern@),
            quads_ascend(r.remaining(), self.order()),
    {
        let (lo, hi) = self.bounds(&identifier_quad_pattern);
        let filter_block = self.to_filter_block(&identifier_quad_pattern);
        let keys = self.keys_between(tree, &lo, &hi, Ghost(identifier_quad_pattern@));
        let quads = self.select(&keys, &filter_block, Ghost(identifier_quad_pattern@));
        proof {
            let o = self.order();
            let p = identifier_quad_pattern@;
            lemma_quads_of_keys_contains(tree@, o);
            lemma_u32_bounds();
            lemma_keys_and_quads::<u32>(o);
            assert forall|q: Seq<u32>|
                quads_of_arrays(quads@).contains(q) <==> #[trigger] matching(quads_of_keys(tree@, o), p).contains(q) by {
                if q.len() == 4 {
                    lemma_range_selects_matching_quads::<u32>(o, p, q);
                    assert(quad_of_key(key_of(q, o), o) == q);
                }
            }
            assert(quads_of_arrays(quads@) =~= matching(quads_of_keys(tree@, o), p));
            lemma_keys_ascend_is_blocks_ascend(quads@, o);
        }
        IdentifierQuadFilter::from_vec(quads)
    }
}

} // verus!
