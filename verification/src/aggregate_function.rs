use vstd::pervasive::VecAdditionalExecFns;
use vstd::prelude::*;
use vstd::string::StringExecFns;

use crate::aggregate::{agg_fits, combine, one, unit, AggregateFunction};
use crate::error::ErrorCode;

verus! {

/// An aggregate function as configured for one query: the operation, the
/// output column it produces, and the input column it reads. `Count` reads
/// no column and ignores `arg`.
#[derive(Clone, Debug)]
pub struct AggregateFunctionDesc {
    pub func: AggregateFunction,
    pub name: String,
    pub arg: String,
}

pub struct AggregateFunctionDescV {
    pub func: AggregateFunction,
    pub name: Seq<char>,
    pub arg: Seq<char>,
}

impl View for AggregateFunctionDesc {
    type V = AggregateFunctionDescV;

    open spec fn view(&self) -> AggregateFunctionDescV {
        AggregateFunctionDescV { func: self.func, name: self.name@, arg: self.arg@ }
    }
}

impl AggregateFunctionDesc {
    pub fn new(func: AggregateFunction, name: String, arg: String) -> (r: AggregateFunctionDesc)
        ensures
            r@.func == func,
            r@.name == name@,
            r@.arg == arg@,
    {
        AggregateFunctionDesc { func, name, arg }
    }
}

pub open spec fn descs_view(s: Seq<AggregateFunctionDesc>) -> Seq<AggregateFunctionDescV> {
    s.map_values(|d: AggregateFunctionDesc| d@)
}

pub open spec fn funcs_of(s: Seq<AggregateFunctionDescV>) -> Seq<AggregateFunction> {
    s.map_values(|d: AggregateFunctionDescV| d.func)
}

/// Byte size of one function's accumulator region inside a group's state
/// buffer.
pub open spec fn spec_state_size(f: AggregateFunction) -> nat {
    match f {
        AggregateFunction::Count => 8,
        AggregateFunction::Sum => 8,
        AggregateFunction::Min => 8,
        AggregateFunction::Max => 8,
    }
}

pub fn state_size(f: AggregateFunction) -> (r: usize)
    ensures
        r == spec_state_size(f),
{
    match f {
        AggregateFunction::Count => 8,
        AggregateFunction::Sum => 8,
        AggregateFunction::Min => 8,
        AggregateFunction::Max => 8,
    }
}

/// Byte offset of function `i`'s region: the sizes of the regions before it.
pub open spec fn spec_offset(funcs: Seq<AggregateFunction>, i: int) -> int
    decreases i,
{
    if i <= 0 {
        0
    } else {
        spec_offset(funcs, i - 1) + spec_state_size(funcs[i - 1])
    }
}

/// Total size of one group's state buffer.
pub open spec fn spec_layout_size(funcs: Seq<AggregateFunction>) -> int {
    spec_offset(funcs, funcs.len() as int)
}

pub proof fn lemma_offsets_monotone(funcs: Seq<AggregateFunction>, i: int, j: int)
    requires
        0 <= i <= j <= funcs.len(),
    ensures
        spec_offset(funcs, i) <= spec_offset(funcs, j),
        i < j ==> spec_offset(funcs, i) + spec_state_size(funcs[i]) <= spec_offset(funcs, j),
    decreases j - i,
{
    if i < j {
        lemma_offsets_monotone(funcs, i + 1, j);
    }
}

/// Computes the region offsets of a function list once, the layout every
/// group's state buffer follows.
pub fn layout_offsets(descs: &Vec<AggregateFunctionDesc>) -> (r: Result<
    (Vec<usize>, usize),
    ErrorCode,
>)
    ensures
        r matches Ok((offs, total)) ==> {
            &&& offs@.len() == descs@.len()
            &&& forall|i: int|
                0 <= i < offs@.len() ==> offs@[i] == spec_offset(funcs_of(descs_view(descs@)), i)
            &&& total == spec_layout_size(funcs_of(descs_view(descs@)))
        },
{
    let ghost funcs = funcs_of(descs_view(descs@));
    let mut offs: Vec<usize> = Vec::new();
    let mut total: usize = 0;
    let mut i: usize = 0;
    while i < descs.len()
        invariant
            i <= descs@.len(),
            offs@.len() == i,
            funcs == funcs_of(descs_view(descs@)),
            funcs.len() == descs@.len(),
            forall|j: int| 0 <= j < i ==> offs@[j] == spec_offset(funcs, j),
            total == spec_offset(funcs, i as int),
        decreases descs@.len() - i,
    {
        proof {
            assert(descs_view(descs@)[i as int] == descs@[i as int]@);
            assert(funcs[i as int] == descs@[i as int]@.func);
        }
        offs.push(total);
        let sz = state_size(descs[i].func);
        if total > usize::MAX - sz {
            return Err(ErrorCode::UnexpectedError(String::from_str(
                "aggregate state layout exceeds the address space",
            )));
        }
        total = total + sz;
        i += 1;
    }
    Ok((offs, total))
}

/// Little-endian value of a byte string.
pub open spec fn le_value(s: Seq<u8>) -> int
    decreases s.len(),
{
    if s.len() == 0 {
        0
    } else {
        s[0] + 256 * le_value(s.subrange(1, s.len() as int))
    }
}

pub open spec fn pow256(n: nat) -> int
    decreases n,
{
    if n == 0 {
        1
    } else {
        256 * pow256((n - 1) as nat)
    }
}

pub proof fn lemma_le_value_bound(s: Seq<u8>)
    ensures
        0 <= le_value(s) < pow256(s.len()),
    decreases s.len(),
{
    if s.len() > 0 {
        lemma_le_value_bound(s.subrange(1, s.len() as int));
        assert(le_value(s) == s[0] + 256 * le_value(s.subrange(1, s.len() as int)));
        assert(s[0] < 256);
        assert(256 * le_value(s.subrange(1, s.len() as int)) <= 256 * (pow256(
            s.subrange(1, s.len() as int).len(),
        ) - 1)) by (nonlinear_arith)
            requires
                le_value(s.subrange(1, s.len() as int)) <= pow256(
                    s.subrange(1, s.len() as int).len(),
                ) - 1,
        ;
    }
}

pub proof fn lemma_le_value_push(s: Seq<u8>, b: u8)
    ensures
        le_value(s.push(b)) == le_value(s) + b * pow256(s.len()),
    decreases s.len(),
{
    if s.len() == 0 {
        let t = s.push(b);
        assert(t.subrange(1, 1) =~= Seq::<u8>::empty());
        assert(le_value(t) == t[0] + 256 * le_value(t.subrange(1, 1)));
        assert(t[0] == b);
        assert(le_value(s) == 0);
        assert(b * pow256(0) == b * 1);
        assert(b * 1 == b) by (nonlinear_arith);
    } else {
        assert(s.push(b).subrange(1, s.len() + 1 as int) =~= s.subrange(1, s.len() as int).push(
            b,
        ));
        lemma_le_value_push(s.subrange(1, s.len() as int), b);
        assert(le_value(s.push(b)) == s[0] + 256 * (le_value(s.subrange(1, s.len() as int)) + b
            * pow256((s.len() - 1) as nat)));
        assert(256 * (le_value(s.subrange(1, s.len() as int)) + b * pow256((s.len() - 1) as nat))
            == 256 * le_value(s.subrange(1, s.len() as int)) + b * (256 * pow256(
            (s.len() - 1) as nat,
        ))) by (nonlinear_arith);
    }
}

pub proof fn lemma_pow256_8()
    ensures
        pow256(8) == 0x1_0000_0000_0000_0000,
{
    reveal_with_fuel(pow256, 9);
}

/// Encodes a value as its eight little-endian bytes.
pub fn u64_to_le8(v: u64) -> (r: Vec<u8>)
    ensures
        r@.len() == 8,
        le_value(r@) == v,
{
    let mut out: Vec<u8> = Vec::new();
    let mut x: u64 = v;
    let mut i: usize = 0;
    proof {
        lemma_pow256_8();
    }
    while i < 8
        invariant
            i <= 8,
            out@.len() == i,
            le_value(out@) + x * pow256(i as nat) == v,
            x < pow256((8 - i) as nat),
            pow256(8) == 0x1_0000_0000_0000_0000,
        decreases 8 - i,
    {
        let b: u8 = (x % 256) as u8;
        let ghost old_out = out@;
        let ghost old_x = x;
        out.push(b);
        x = x / 256;
        proof {
            lemma_le_value_push(old_out, b);
            assert(old_x == 256 * (old_x / 256) + old_x % 256);
            assert((256 * (old_x / 256) + old_x % 256) * pow256(i as nat) == (old_x / 256) * (256
                * pow256(i as nat)) + (old_x % 256) * pow256(i as nat)) by (nonlinear_arith);
            assert(pow256((i + 1) as nat) == 256 * pow256(i as nat));
            assert(le_value(out@) == le_value(old_out) + b * pow256(i as nat));
            assert(x < pow256((8 - (i + 1)) as nat)) by {
                assert(old_x < pow256((8 - i) as nat));
                assert(pow256((8 - i) as nat) == 256 * pow256((8 - i - 1) as nat));
                assert(old_x / 256 < pow256((8 - i - 1) as nat)) by (nonlinear_arith)
                    requires
                        old_x < 256 * pow256((8 - i - 1) as nat),
                        0 <= old_x,
                ;
            }
        }
        i += 1;
    }
    out
}

/// Decodes the eight little-endian bytes at `offset`.
pub fn le8_at(state: &Vec<u8>, offset: usize) -> (r: u64)
    requires
        offset + 8 <= state@.len(),
    ensures
        r == le_value(state@.subrange(offset as int, offset + 8)),
{
    proof {
        lemma_pow256_8();
    }
    let n = state.len();
    let mut acc: u64 = 0;
    let mut i: usize = 8;
    while i > 0
        invariant
            i <= 8,
            n == state@.len(),
            offset + 8 <= state@.len(),
            acc == le_value(state@.subrange(offset + i, offset + 8)),
            pow256(8) == 0x1_0000_0000_0000_0000,
        decreases i,
    {
        let ghost tail = state@.subrange(offset + i, offset + 8);
        proof {
            lemma_le_value_bound(tail);
            assert(pow256(tail.len()) <= pow256(8)) by {
                lemma_pow256_monotone(tail.len(), 8);
            }
            assert(pow256((8 - i + 1) as nat) <= pow256(8)) by {
                lemma_pow256_monotone((8 - i + 1) as nat, 8);
            }
            assert(256 * le_value(tail) + 255 < 256 * pow256((8 - i) as nat)) by (nonlinear_arith)
                requires
                    le_value(tail) < pow256((8 - i) as nat),
                    tail.len() == 8 - i,
                    le_value(tail) >= 0,
            ;
            assert(256 * pow256((8 - i) as nat) == pow256((8 - i + 1) as nat));
        }
        let b = state[offset + i - 1];
        acc = acc * 256 + (b as u64);
        proof {
            let whole = state@.subrange(offset + i - 1, offset + 8);
            assert(whole.subrange(1, whole.len() as int) =~= tail);
            assert(whole[0] == b);
            assert(le_value(whole) == b + 256 * le_value(tail));
        }
        i -= 1;
    }
    acc
}

pub proof fn lemma_pow256_monotone(a: nat, b: nat)
    requires
        a <= b,
    ensures
        pow256(a) <= pow256(b),
    decreases b,
{
    if a < b {
        lemma_pow256_monotone(a, (b - 1) as nat);
        lemma_pow256_pos((b - 1) as nat);
        assert(pow256(b) == 256 * pow256((b - 1) as nat));
        assert(pow256((b - 1) as nat) <= 256 * pow256((b - 1) as nat)) by (nonlinear_arith)
            requires
                pow256((b - 1) as nat) >= 1,
        ;
    }
}

pub proof fn lemma_pow256_pos(n: nat)
    ensures
        pow256(n) >= 1,
    decreases n,
{
    if n > 0 {
        lemma_pow256_pos((n - 1) as nat);
    }
}

/// The accumulator region of function `i` inside a state buffer.
pub open spec fn region(s: Seq<u8>, offset: int) -> Seq<u8> {
    s.subrange(offset, offset + 8)
}

/// The accumulator value held in a region.
pub open spec fn region_value(s: Seq<u8>, offset: int) -> int {
    le_value(region(s, offset))
}

/// Writes the eight little-endian bytes of `v` at `offset`, leaving the rest
/// of the buffer unchanged.
pub fn write_le8(state: &mut Vec<u8>, offset: usize, v: u64)
    requires
        offset + 8 <= old(state)@.len(),
    ensures
        final(state)@.len() == old(state)@.len(),
        region_value(final(state)@, offset as int) == v,
        forall|j: int|
            0 <= j < old(state)@.len() && !(offset <= j < offset + 8) ==> final(state)@[j] == old(
                state,
            )@[j],
{
    let bytes = u64_to_le8(v);
    let n = state.len();
    let mut i: usize = 0;
    while i < 8
        invariant
            i <= 8,
            n == state@.len(),
            bytes@.len() == 8,
            le_value(bytes@) == v,
            offset + 8 <= state@.len(),
            state@.len() == old(state)@.len(),
            forall|j: int| 0 <= j < i ==> state@[offset + j] == bytes@[j],
            forall|j: int|
                0 <= j < old(state)@.len() && !(offset <= j < offset + i) ==> state@[j] == old(
                    state,
                )@[j],
        decreases 8 - i,
    {
        state.set(offset + i, bytes[i]);
        i += 1;
    }
    proof {
        assert(region(state@, offset as int) =~= bytes@);
    }
}

/// Initialises function `f`'s region to its identity value.
pub fn acc_init(f: AggregateFunction, state: &mut Vec<u8>, offset: usize)
    requires
        offset + 8 <= old(state)@.len(),
    ensures
        final(state)@.len() == old(state)@.len(),
        region_value(final(state)@, offset as int) == unit(f),
        forall|j: int|
            0 <= j < old(state)@.len() && !(offset <= j < offset + 8) ==> final(state)@[j] == old(
                state,
            )@[j],
{
    let v: u64 = match f {
        AggregateFunction::Count => 0,
        AggregateFunction::Sum => 0,
        AggregateFunction::Min => u64::MAX,
        AggregateFunction::Max => 0,
    };
    write_le8(state, offset, v);
}

/// Merges `v` into function `f`'s region: the checked exec counterpart of
/// `combine`. Fails with an overflow data error, leaving the buffer
/// untouched, exactly when the combined value exceeds the result type.
pub fn acc_combine(f: AggregateFunction, state: &mut Vec<u8>, offset: usize, v: u64) -> (r: Result<
    (),
    ErrorCode,
>)
    requires
        offset + 8 <= old(state)@.len(),
    ensures
        final(state)@.len() == old(state)@.len(),
        r is Ok <==> combine(f, region_value(old(state)@, offset as int), v as int) <= u64::MAX,
        r is Ok ==> region_value(final(state)@, offset as int) == combine(
            f,
            region_value(old(state)@, offset as int),
            v as int,
        ),
        r is Ok ==> forall|j: int|
            0 <= j < old(state)@.len() && !(offset <= j < offset + 8) ==> final(state)@[j] == old(
                state,
            )@[j],
        r is Err ==> final(state)@ == old(state)@,
        r matches Err(e) ==> e is Overflow,
{
    proof {
        lemma_le_value_bound(region(old(state)@, offset as int));
    }
    let cur = le8_at(state, offset);
    let next: u64 = match f {
        AggregateFunction::Count | AggregateFunction::Sum => {
            if cur > u64::MAX - v {
                return Err(ErrorCode::Overflow(String::from_str(
                    "aggregate value exceeds the unsigned range",
                )));
            }
            cur + v
        },
        AggregateFunction::Min => {
            if cur <= v {
                cur
            } else {
                v
            }
        },
        AggregateFunction::Max => {
            if cur >= v {
                cur
            } else {
                v
            }
        },
    };
    proof {
        if f is Count || f is Sum {
            assert(next == combine(f, region_value(old(state)@, offset as int), v as int));
        }
    }
    write_le8(state, offset, next);
    Ok(())
}

/// Feeds one row's argument into function `f`'s region.
pub fn acc_row(f: AggregateFunction, state: &mut Vec<u8>, offset: usize, v: u64) -> (r: Result<
    (),
    ErrorCode,
>)
    requires
        offset + 8 <= old(state)@.len(),
    ensures
        final(state)@.len() == old(state)@.len(),
        r is Ok <==> combine(f, region_value(old(state)@, offset as int), one(f, v)) <= u64::MAX,
        r is Ok ==> region_value(final(state)@, offset as int) == combine(
            f,
            region_value(old(state)@, offset as int),
            one(f, v),
        ),
        r is Ok ==> forall|j: int|
            0 <= j < old(state)@.len() && !(offset <= j < offset + 8) ==> final(state)@[j] == old(
                state,
            )@[j],
        r is Err ==> final(state)@ == old(state)@,
        r matches Err(e) ==> e is Overflow,
{
    let contribution: u64 = match f {
        AggregateFunction::Count => 1,
        AggregateFunction::Sum => v,
        AggregateFunction::Min => v,
        AggregateFunction::Max => v,
    };
    acc_combine(f, state, offset, contribution)
}

/// Reads the finished output value of function `f`'s region. For the
/// functions of this engine the finalise operation is the accumulator value
/// itself.
pub fn acc_finalize(f: AggregateFunction, state: &Vec<u8>, offset: usize) -> (r: u64)
    requires
        offset + 8 <= state@.len(),
    ensures
        r == region_value(state@, offset as int),
{
    le8_at(state, offset)
}

} // verus!
