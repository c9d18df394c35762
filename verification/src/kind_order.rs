//! A simpler block order, where the order of a tree is given by
//! [`TermKind`]s, and a [`TermFilter`] to check the terms that a range does
//! not restrict.
//!
//! In this order, [`BlockOrder::to_block`] puts at block position `k` the
//! term of the `k`-th kind of the order, which is the layout that
//! [`BlockOrder::range`] and [`BlockOrder::index_conformance`] read, and
//! [`BlockOrder::to_indices`] undoes it.
use vstd::prelude::*;
use core::ops::RangeInclusive;
use crate::block_order::deref_request;
use crate::quad::{
    fixed_prefix_len, is_quad_order, lemma_order_covers_quad, permute, position_in_order,
    quad_matches, range_bound,
};

verus! {

/// A kind of term, which is also a position in a quad of identifiers.
#[derive(Clone, Copy, Debug, PartialEq, Eq, Structural)]
pub enum TermKind {
    /// The subject, at position 0.
    Subject,
    /// The predicate, at position 1.
    Predicate,
    /// The object, at position 2.
    Object,
    /// The graph name, at position 3.
    Graph,
}

/// The position of a kind of term in a quad of identifiers.
pub open spec fn kind_position(k: TermKind) -> usize {
    match k {
        TermKind::Subject => 0,
        TermKind::Predicate => 1,
        TermKind::Object => 2,
        TermKind::Graph => 3,
    }
}

/// The positions of a list of kinds.
pub open spec fn kinds_positions(kinds: Seq<TermKind>) -> Seq<usize> {
    kinds.map_values(|k: TermKind| kind_position(k))
}

impl TermKind {
    /// The position of this kind of term in a quad of identifiers.
    pub fn get_spog_position(&self) -> (r: usize)
        ensures
            r == kind_position(*self),
    {
        match self {
            TermKind::Subject => 0,
            TermKind::Predicate => 1,
            TermKind::Object => 2,
            TermKind::Graph => 3,
        }
    }
}

/// A quad of identifiers in the order of a tree.
#[derive(PartialEq, PartialOrd, Eq, Ord, Clone, Copy, Debug)]
pub struct Block {
    data: [u32; 4],
}

impl View for Block {
    type V = Seq<u32>;

    closed spec fn view(&self) -> Seq<u32> {
        self.data@
    }
}

impl Block {
    /// A block with the given values.
    pub fn new(values: [u32; 4]) -> (r: Block)
        ensures
            r@ == values@,
    {
        Block { data: values }
    }

    /// The values of the block.
    pub(crate) fn values(&self) -> (r: [u32; 4])
        ensures
            r@ == self@,
    {
        self.data
    }
}

/// Converts quads of identifiers, in the subject, predicate, object, graph
/// order, into [`Block`]s and back.
pub struct BlockOrder {
    term_kinds: [TermKind; 4],
    to_block_index_to_destination: [usize; 4],
    to_indices_index_to_destination: [usize; 4],
}

impl BlockOrder {
    /// The kinds of the order, first to last.
    pub closed spec fn kinds(&self) -> Seq<TermKind> {
        self.term_kinds@
    }

    /// The quad position named at each rank of the order.
    pub open spec fn order(&self) -> Seq<usize> {
        kinds_positions(self.kinds())
    }

    /// Each kind appears once, and the two tables give, for each rank, the
    /// quad position of its kind and, for each quad position, its rank in
    /// the order.
    #[verifier::type_invariant]
    closed spec fn inv(self) -> bool {
        &&& is_quad_order(kinds_positions(self.term_kinds@))
        &&& self.to_block_index_to_destination@ == kinds_positions(self.term_kinds@)
        &&& forall|k: int|
            0 <= k < 4 ==> #[trigger] self.to_indices_index_to_destination@[k] == position_in_order(
                kinds_positions(self.term_kinds@),
                k,
            )
    }

    /// Builds a block order from an order of kinds, which names each kind
    /// once.
    pub fn new(term_kinds: [TermKind; 4]) -> (r: BlockOrder)
        requires
            is_quad_order(kinds_positions(term_kinds@)),
        ensures
            r.kinds() == term_kinds@,
            is_quad_order(r.order()),
    {
        let ghost o = kinds_positions(term_kinds@);
        let mut to_block_index_to_destination: [usize; 4] = [0, 0, 0, 0];
        let mut to_indices_index_to_destination: [usize; 4] = [0, 0, 0, 0];
        let regular_order: [TermKind; 4] = [
            TermKind::Subject,
            TermKind::Predicate,
            TermKind::Object,
            TermKind::Graph,
        ];
        proof {
            lemma_order_covers_quad(o);
        }
        let mut term_position: usize = 0;
        while term_position < 4
            invariant
                0 <= term_position <= 4,
                o == kinds_positions(term_kinds@),
                is_quad_order(o),
                forall|j: int| 0 <= j < 4 ==> 0 <= #[trigger] position_in_order(o, j) < 4,
                forall|j: int| 0 <= j < 4 ==> #[trigger] o[position_in_order(o, j)] == j,
                forall|k: int| 0 <= k < 4 ==> kind_position(#[trigger] regular_order@[k]) == k,
                forall|k: int|
                    0 <= k < term_position ==> #[trigger] to_indices_index_to_destination@[k]
                        == position_in_order(o, k),
                forall|r: int|
                    0 <= r < 4 && o[r] < term_position ==> #[trigger] to_block_index_to_destination@[r]
                        == o[r],
            decreases 4 - term_position,
        {
            let term_kind = regular_order[term_position];
            let mut position: usize = 0;
            while term_kinds[position] != term_kind
                invariant
                    0 <= position < 4,
                    o == kinds_positions(term_kinds@),
                    is_quad_order(o),
                    kind_position(term_kind) == term_position,
                    term_position < 4,
                    forall|j: int| 0 <= j < 4 ==> 0 <= #[trigger] position_in_order(o, j) < 4,
                    forall|j: int| 0 <= j < 4 ==> #[trigger] o[position_in_order(o, j)] == j,
                    position <= position_in_order(o, term_position as int),
                decreases 4 - position,
            {
                proof {
                    assert(o[position as int] == kind_position(term_kinds@[position as int]));
                }
                position = position + 1;
            }
            proof {
                assert(o[position as int] == kind_position(term_kinds@[position as int]));
                assert(position == position_in_order(o, term_position as int));
            }
            to_indices_index_to_destination[term_position] = position;
            to_block_index_to_destination[position] = term_position;
            term_position = term_position + 1;
        }
        proof {
            assert forall|r: int| 0 <= r < 4 implies #[trigger] to_block_index_to_destination@[r] == o[r] by {
                assert(o[r] < 4);
            }
            assert(to_block_index_to_destination@ =~= o);
        }
        BlockOrder { term_kinds, to_block_index_to_destination, to_indices_index_to_destination }
    }

    /// Builds a block from a quad of identifiers: position `k` of the block
    /// receives the identifier of the `k`-th kind of the order.
    pub fn to_block(&self, indices: &[u32; 4]) -> (r: Block)
        ensures
            r@ == permute(indices@, self.order()),
            is_quad_order(self.order()),
    {
        proof {
            use_type_invariant(self);
        }
        let r = Block {
            data: [
                indices[self.to_block_index_to_destination[0]],
                indices[self.to_block_index_to_destination[1]],
                indices[self.to_block_index_to_destination[2]],
                indices[self.to_block_index_to_destination[3]],
            ],
        };
        proof {
            assert(r@ =~= permute(indices@, self.order()));
        }
        r
    }

    /// Builds a quad of identifiers from a block: the inverse of
    /// [`to_block`](Self::to_block); the identifier of each position is
    /// taken from the block position of its kind.
    pub fn to_indices(&self, block: &Block) -> (r: [u32; 4])
        ensures
            r@ == Seq::new(4, |j: int| block@[position_in_order(self.order(), j)]),
            is_quad_order(self.order()),
    {
        proof {
            use_type_invariant(self);
            lemma_order_covers_quad(self.order());
        }
        let r = [
            block.data[self.to_indices_index_to_destination[0]],
            block.data[self.to_indices_index_to_destination[1]],
            block.data[self.to_indices_index_to_destination[2]],
            block.data[self.to_indices_index_to_destination[3]],
        ];
        proof {
            assert(r@ =~= Seq::new(4, |j: int| block@[position_in_order(self.order(), j)]));
        }
        r
    }

    /// Returns the number of term kinds in the request that can be used as a
    /// prefix: how many of the first kinds of this order hold a value.
    pub fn index_conformance(&self, request: &[&Option<u32>; 4]) -> (r: usize)
        ensures
            r == fixed_prefix_len(deref_request(request@), self.order()),
    {
        proof {
            use_type_invariant(self);
        }
        let mut i: usize = 0;
        while i < 4
            invariant
                0 <= i <= 4,
                is_quad_order(self.order()),
                forall|k: int| 0 <= k < i ==> (#[trigger] deref_request(request@)[self.order()[k] as int]) is Some,
            decreases 4 - i,
        {
            let spog_position = self.term_kinds[i].get_spog_position();
            if request[spog_position].is_none() {
                return i;
            }
            i = i + 1;
        }
        4
    }

    /// The two bounds of the range that [`range`](Self::range) returns.
    pub(crate) fn bounds(&self, spog: &[Option<u32>; 4]) -> (r: (Block, Block))
        ensures
            r.0@ == permute(range_bound(spog@, self.order(), 0u32), self.order()),
            r.1@ == permute(range_bound(spog@, self.order(), 0xffff_ffffu32), self.order()),
            is_quad_order(self.order()),
    {
        proof {
            use_type_invariant(self);
        }
        let ghost o = self.order();
        let ghost p = spog@;
        let mut min: [u32; 4] = [0, 0, 0, 0];
        let mut max: [u32; 4] = [0xffff_ffff, 0xffff_ffff, 0xffff_ffff, 0xffff_ffff];
        let mut i: usize = 0;
        while i < 4
            invariant_except_break
                forall|k: int| 0 <= k < i ==> (#[trigger] p[o[k] as int]) is Some,
            invariant
                0 <= i <= 4,
                o == self.order(),
                p == spog@,
                is_quad_order(o),
                forall|k: int| 0 <= k < 4 ==> #[trigger] min@[k] == (if k < i { p[o[k] as int]->0 } else { 0u32 }),
                forall|k: int| 0 <= k < 4 ==> #[trigger] max@[k] == (if k < i { p[o[k] as int]->0 } else { 0xffff_ffffu32 }),
            ensures
                fixed_prefix_len(p, o) == i,
                forall|k: int| 0 <= k < 4 ==> #[trigger] min@[k] == (if k < i { p[o[k] as int]->0 } else { 0u32 }),
                forall|k: int| 0 <= k < 4 ==> #[trigger] max@[k] == (if k < i { p[o[k] as int]->0 } else { 0xffff_ffffu32 }),
            decreases 4 - i,
        {
            let spog_position = self.term_kinds[i].get_spog_position();
            proof {
                assert(spog_position == o[i as int]);
            }
            match spog[spog_position] {
                None => {
                    break;
                },
                Some(v) => {
                    min[i] = v;
                    max[i] = v;
                },
            }
            i = i + 1;
        }
        proof {
            lemma_order_covers_quad(o);
            assert(min@ =~= permute(range_bound(p, o, 0u32), o));
            assert(max@ =~= permute(range_bound(p, o, 0xffff_ffffu32), o));
        }
        (Block::new(min), Block::new(max))
    }

    /// The range of blocks that the order gives to a pattern: the blocks
    /// whose first positions hold the values of the pattern on the first
    /// kinds of the order, as long as they are set. The pattern is handed
    /// back unchanged, to filter what the range does not restrict.
    pub fn range(&self, spog: [Option<u32>; 4]) -> (r: (
        RangeInclusive<Block>,
        Option<u32>,
        Option<u32>,
        Option<u32>,
        Option<u32>,
    ))
        ensures
            r.0@.start@ == permute(range_bound(spog@, self.order(), 0u32), self.order()),
            r.0@.end@ == permute(range_bound(spog@, self.order(), 0xffff_ffffu32), self.order()),
            r.0@.exhausted == false,
            r.1 == spog[0],
            r.2 == spog[1],
            r.3 == spog[2],
            r.4 == spog[3],
    {
        let (min, max) = self.bounds(&spog);
        (RangeInclusive::new(min, max), spog[0], spog[1], spog[2], spog[3])
    }
}

/// What [`BlockOrder::to_block`] builds from a quad, [`BlockOrder::to_indices`]
/// turns back into that quad, for every block order.
pub proof fn law_to_indices_undoes_to_block(order: &BlockOrder, quad: Seq<u32>)
    requires
        is_quad_order(order.order()),
        quad.len() == 4,
    ensures
        Seq::new(4, |j: int| permute(quad, order.order())[position_in_order(order.order(), j)]) == quad,
{
    let o = order.order();
    lemma_order_covers_quad(o);
    assert(Seq::new(4, |j: int| permute(quad, o)[position_in_order(o, j)]) =~= quad);
}

/// A filter on the terms of a quad of identifiers: `None` accepts any term.
pub struct TermFilter {
    /// The value required at each position of the quad, if any.
    pub filtered_position: [Option<u32>; 4],
}

impl TermFilter {
    /// A filter that accepts every quad.
    pub fn empty() -> (r: TermFilter)
        ensures
            r.filtered_position@ == seq![None::<u32>, None, None, None],
    {
        TermFilter { filtered_position: [None, None, None, None] }
    }

    /// Returns true if the quad has the required value at each position of
    /// the filter that holds one.
    pub fn filter(&self, spog: &[u32; 4]) -> (r: bool)
        ensures
            r == quad_matches(spog@, self.filtered_position@),
    {
        let mut i: usize = 0;
        while i < 4
            invariant
                0 <= i <= 4,
                forall|k: int|
                    0 <= k < i && #[trigger] self.filtered_position@[k] is Some ==> spog@[k]
                        == self.filtered_position@[k]->0,
            decreases 4 - i,
        {
            if let Some(term) = self.filtered_position[i] {
                if spog[i] != term {
                    return false;
                }
            }
            i = i + 1;
        }
        true
    }
}

} // verus!
