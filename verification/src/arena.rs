use vstd::prelude::*;

use crate::aggregate::{unit, AggregateFunction};
use crate::aggregate_function::{
    acc_init, descs_view, funcs_of, lemma_offsets_monotone, region, region_value, spec_layout_size,
    spec_offset,
};
use crate::aggregator_params::{key_eq, AggregatorParams, GroupKey};

verus! {

/// Offsets of a well-formed parameter set stay inside the layout, and
/// distinct functions' regions never overlap.
pub proof fn lemma_region_in_layout(funcs: Seq<AggregateFunction>, i: int)
    requires
        0 <= i < funcs.len(),
    ensures
        0 <= spec_offset(funcs, i),
        spec_offset(funcs, i) + 8 <= spec_layout_size(funcs),
{
    lemma_offsets_monotone(funcs, 0, i);
    lemma_offsets_monotone(funcs, i, funcs.len() as int);
}

/// Allocates one group's state buffer: `layout_size` bytes with every
/// function's region initialised to its identity.
pub fn new_state(p: &AggregatorParams) -> (r: Vec<u8>)
    requires
        p.wf(),
    ensures
        r@.len() == spec_layout_size(p.funcs()),
        forall|i: int|
            0 <= i < p.funcs().len() ==> region_value(r@, spec_offset(p.funcs(), i)) == unit(
                #[trigger] p.funcs()[i],
            ),
{
    let mut state: Vec<u8> = Vec::new();
    let mut t: usize = 0;
    while t < p.layout_size
        invariant
            t <= p.layout_size,
            state@.len() == t,
        decreases p.layout_size - t,
    {
        state.push(0);
        t += 1;
    }
    let mut i: usize = 0;
    while i < p.aggregate_functions.len()
        invariant
            i <= p.aggregate_functions@.len(),
            p.wf(),
            p.funcs().len() == p.aggregate_functions@.len(),
            state@.len() == spec_layout_size(p.funcs()),
            forall|j: int|
                0 <= j < i ==> region_value(state@, spec_offset(p.funcs(), j)) == unit(
                    #[trigger] p.funcs()[j],
                ),
        decreases p.aggregate_functions@.len() - i,
    {
        proof {
            lemma_region_in_layout(p.funcs(), i as int);
            assert(descs_view(p.aggregate_functions@)[i as int] == p.aggregate_functions@[
            i as int]@);
            assert(p.funcs()[i as int] == p.aggregate_functions@[i as int]@.func);
        }
        let ghost pre = state@;
        acc_init(p.aggregate_functions[i].func, &mut state, p.offsets[i]);
        proof {
            assert forall|j: int|
                0 <= j < i implies region_value(state@, spec_offset(p.funcs(), j)) == unit(
                #[trigger] p.funcs()[j],
            ) by {
                lemma_region_in_layout(p.funcs(), j);
                lemma_offsets_monotone(p.funcs(), j + 1, i as int);
                assert(region(state@, spec_offset(p.funcs(), j)) =~= region(
                    pre,
                    spec_offset(p.funcs(), j),
                ));
            }
        }
        i += 1;
    }
    state
}

/// Copies one function's eight-byte region out of a state buffer.
pub fn region_bytes(state: &Vec<u8>, offset: usize) -> (r: Vec<u8>)
    requires
        offset + 8 <= state@.len(),
    ensures
        r@ == region(state@, offset as int),
        r@.len() == 8,
{
    let n = state.len();
    let mut out: Vec<u8> = Vec::new();
    let mut t: usize = 0;
    while t < 8
        invariant
            t <= 8,
            n == state@.len(),
            offset + 8 <= state@.len(),
            out@ == state@.subrange(offset as int, offset + t),
        decreases 8 - t,
    {
        out.push(state[offset + t]);
        proof {
            assert(state@.subrange(offset as int, offset + t + 1) =~= state@.subrange(
                offset as int,
                offset + t,
            ).push(state@[offset + t]));
        }
        t += 1;
    }
    out
}

/// The per-group accumulator arena: one slot per distinct group key, each a
/// contiguous state buffer laid out by the precomputed offsets. Group state
/// is located by key, never interpreted here.
pub struct StateArena {
    pub keys: Vec<GroupKey>,
    pub states: Vec<Vec<u8>>,
}

impl StateArena {
    /// Structural shape: one state per key, each of the layout's size.
    pub open spec fn wf(&self, layout: int) -> bool {
        &&& self.keys@.len() == self.states@.len()
        &&& forall|j: int| 0 <= j < self.states@.len() ==> (#[trigger] self.states@[j])@.len()
            == layout
    }

    /// No two slots answer to the same key.
    pub open spec fn distinct(&self) -> bool {
        forall|j1: int, j2: int|
            0 <= j1 < j2 < self.keys@.len() ==> (#[trigger] self.keys@[j1])@ != (
            #[trigger] self.keys@[j2])@
    }

    pub open spec fn spec_has(&self, k: crate::aggregate::GKey) -> bool {
        exists|j: int| 0 <= j < self.keys@.len() && (#[trigger] self.keys@[j])@ == k
    }

    pub fn create() -> (r: StateArena)
        ensures
            r.keys@.len() == 0,
            r.states@.len() == 0,
    {
        StateArena { keys: Vec::new(), states: Vec::new() }
    }

    pub fn len(&self) -> (r: usize)
        ensures
            r == self.keys@.len(),
    {
        self.keys.len()
    }

    /// The slot holding `k`, if one exists.
    pub fn find(&self, k: &GroupKey) -> (r: Option<usize>)
        ensures
            r matches Some(j) ==> j < self.keys@.len() && self.keys@[j as int]@ == k@,
            r is None ==> !self.spec_has(k@),
    {
        let mut j: usize = 0;
        while j < self.keys.len()
            invariant
                j <= self.keys@.len(),
                forall|t: int| 0 <= t < j ==> (#[trigger] self.keys@[t])@ != k@,
            decreases self.keys@.len() - j,
        {
            if key_eq(&self.keys[j], k) {
                return Some(j);
            }
            j += 1;
        }
        None
    }

    /// Opens a fresh slot for a key not yet present.
    pub fn push_slot(&mut self, k: GroupKey, state: Vec<u8>)
        ensures
            final(self).keys@ == old(self).keys@.push(k),
            final(self).states@ == old(self).states@.push(state),
    {
        self.keys.push(k);
        self.states.push(state);
    }
}

} // verus!
