use vstd::prelude::*;
use crate::output::Output;

verus! {

/// Smallest element of a sequence, or 0 when it is empty.
pub open spec fn min_of(s: Seq<int>) -> int
    decreases s.len(),
{
    if s.len() == 0 {
        0
    } else if s.len() == 1 {
        s[0]
    } else {
        let m = min_of(s.drop_last());
        if s.last() < m {
            s.last()
        } else {
            m
        }
    }
}

pub open spec fn xs_of(ps: Seq<(i32, i32)>) -> Seq<int> {
    Seq::new(ps.len(), |i: int| ps[i].0 as int)
}

pub open spec fn ys_of(ps: Seq<(i32, i32)>) -> Seq<int> {
    Seq::new(ps.len(), |i: int| ps[i].1 as int)
}

pub open spec fn positions_of(outputs: Seq<Output>) -> Seq<(i32, i32)> {
    Seq::new(outputs.len(), |i: int| outputs[i].position)
}

/// Shift that brings a negative minimum to zero; none otherwise.
pub open spec fn shift_for(m: int) -> int {
    if m < 0 {
        -m
    } else {
        0
    }
}

/// `v + shift`, saturated at `i32::MAX`.
pub open spec fn shifted(v: i32, shift: int) -> i32 {
    if v + shift > i32::MAX {
        i32::MAX
    } else {
        (v + shift) as i32
    }
}

/// Every position moved by the same amount so that no coordinate is negative.
pub open spec fn normalized(ps: Seq<(i32, i32)>) -> Seq<(i32, i32)> {
    let dx = shift_for(min_of(xs_of(ps)));
    let dy = shift_for(min_of(ys_of(ps)));
    Seq::new(ps.len(), |i: int| (shifted(ps[i].0, dx), shifted(ps[i].1, dy)))
}

/// Two outputs agree on everything but their position.
pub open spec fn same_but_position(a: Output, b: Output) -> bool {
    a == Output { position: a.position, ..b }
}

/// The minimum is a lower bound of every element.
pub proof fn lemma_min_le(s: Seq<int>, i: int)
    requires
        0 <= i < s.len(),
    ensures
        min_of(s) <= s[i],
    decreases s.len(),
{
    if s.len() > 1 && i < s.len() - 1 {
        lemma_min_le(s.drop_last(), i);
    }
}

/// The minimum of a non-empty sequence is one of its elements.
pub proof fn lemma_min_attained(s: Seq<int>) -> (k: int)
    requires
        s.len() > 0,
    ensures
        0 <= k < s.len(),
        s[k] == min_of(s),
    decreases s.len(),
{
    if s.len() == 1 {
        0
    } else {
        let k0 = lemma_min_attained(s.drop_last());
        if s.last() < min_of(s.drop_last()) {
            s.len() - 1
        } else {
            k0
        }
    }
}

/// A sequence whose elements are all at least `lo`, one of them equal to it, has minimum `lo`.
pub proof fn lemma_min_is(s: Seq<int>, lo: int, k: int)
    requires
        0 <= k < s.len(),
        s[k] == lo,
        forall|i: int| 0 <= i < s.len() ==> s[i] >= lo,
    ensures
        min_of(s) == lo,
{
    lemma_min_le(s, k);
    let j = lemma_min_attained(s);
}

/// No coordinate of a normalized arrangement is negative.
pub proof fn lemma_normalized_non_negative(ps: Seq<(i32, i32)>, i: int)
    requires
        0 <= i < ps.len(),
    ensures
        normalized(ps)[i].0 >= 0,
        normalized(ps)[i].1 >= 0,
{
    lemma_min_le(xs_of(ps), i);
    lemma_min_le(ys_of(ps), i);
}

/// Normalizing twice changes nothing more than normalizing once.
pub proof fn lemma_normalize_idempotent(ps: Seq<(i32, i32)>)
    ensures
        normalized(normalized(ps)) == normalized(ps),
{
    let n = normalized(ps);
    if n.len() > 0 {
        let kx = lemma_min_attained(xs_of(n));
        let ky = lemma_min_attained(ys_of(n));
        lemma_normalized_non_negative(ps, kx);
        lemma_normalized_non_negative(ps, ky);
    }
    assert(normalized(n) =~= n);
}

/// After normalization the smallest coordinate on each axis whose minimum
/// was not positive is exactly zero; no minimum is ever negative.
pub proof fn lemma_normalized_min_zero(ps: Seq<(i32, i32)>)
    requires
        ps.len() > 0,
    ensures
        min_of(xs_of(normalized(ps))) >= 0,
        min_of(ys_of(normalized(ps))) >= 0,
        min_of(xs_of(ps)) <= 0 ==> min_of(xs_of(normalized(ps))) == 0,
        min_of(ys_of(ps)) <= 0 ==> min_of(ys_of(normalized(ps))) == 0,
{
    let n = normalized(ps);
    let kx = lemma_min_attained(xs_of(n));
    let ky = lemma_min_attained(ys_of(n));
    lemma_normalized_non_negative(ps, kx);
    lemma_normalized_non_negative(ps, ky);
    let jx = lemma_min_attained(xs_of(ps));
    let jy = lemma_min_attained(ys_of(ps));
    assert forall|i: int| 0 <= i < n.len() implies xs_of(n)[i] >= 0 && ys_of(n)[i] >= 0 by {
        lemma_normalized_non_negative(ps, i);
    }
    if min_of(xs_of(ps)) <= 0 {
        lemma_min_is(xs_of(n), 0, jx);
    }
    if min_of(ys_of(ps)) <= 0 {
        lemma_min_is(ys_of(n), 0, jy);
    }
}

fn min_x_exec(outputs: &Vec<Output>) -> (m: i32)
    ensures
        m as int == min_of(xs_of(positions_of(outputs@))),
{
    let ghost xs = xs_of(positions_of(outputs@));
    let mut m: i32 = 0;
    let mut i: usize = 0;
    while i < outputs.len()
        invariant
            0 <= i <= outputs.len(),
            xs == xs_of(positions_of(outputs@)),
            m as int == min_of(xs.subrange(0, i as int)),
        decreases outputs.len() - i,
    {
        let v = outputs[i].position.0;
        assert(xs.subrange(0, i + 1).drop_last() =~= xs.subrange(0, i as int));
        if i == 0 || v < m {
            m = v;
        }
        i = i + 1;
    }
    assert(xs.subrange(0, i as int) =~= xs);
    m
}

fn min_y_exec(outputs: &Vec<Output>) -> (m: i32)
    ensures
        m as int == min_of(ys_of(positions_of(outputs@))),
{
    let ghost ys = ys_of(positions_of(outputs@));
    let mut m: i32 = 0;
    let mut i: usize = 0;
    while i < outputs.len()
        invariant
            0 <= i <= outputs.len(),
            ys == ys_of(positions_of(outputs@)),
            m as int == min_of(ys.subrange(0, i as int)),
        decreases outputs.len() - i,
    {
        let v = outputs[i].position.1;
        assert(ys.subrange(0, i + 1).drop_last() =~= ys.subrange(0, i as int));
        if i == 0 || v < m {
            m = v;
        }
        i = i + 1;
    }
    assert(ys.subrange(0, i as int) =~= ys);
    m
}

fn shifted_exec(v: i32, shift: i64) -> (r: i32)
    requires
        0 <= shift <= 0x8000_0000,
    ensures
        r == shifted(v, shift as int),
{
    let s = v as i64 + shift;
    if s > i32::MAX as i64 {
        i32::MAX
    } else {
        s as i32
    }
}

/// The positions that normalization would give, the outputs left as they are.
pub fn normalized_positions_of(outputs: &Vec<Output>) -> (r: Vec<(i32, i32)>)
    ensures
        r@ == normalized(positions_of(outputs@)),
{
    let ghost ps = positions_of(outputs@);
    let min_x = min_x_exec(outputs);
    let min_y = min_y_exec(outputs);
    let dx: i64 = if min_x < 0 { -(min_x as i64) } else { 0 };
    let dy: i64 = if min_y < 0 { -(min_y as i64) } else { 0 };
    let mut r: Vec<(i32, i32)> = Vec::new();
    let mut i: usize = 0;
    while i < outputs.len()
        invariant
            ps == positions_of(outputs@),
            dx == shift_for(min_of(xs_of(ps))),
            dy == shift_for(min_of(ys_of(ps))),
            0 <= dx <= 0x8000_0000,
            0 <= dy <= 0x8000_0000,
            0 <= i <= outputs.len(),
            r@ == normalized(ps).subrange(0, i as int),
        decreases outputs.len() - i,
    {
        let p = outputs[i].position;
        r.push((shifted_exec(p.0, dx), shifted_exec(p.1, dy)));
        i = i + 1;
        assert(r@ =~= normalized(ps).subrange(0, i as int));
    }
    assert(r@ =~= normalized(ps));
    r
}

/// Moves every output by one common offset so that no coordinate is negative
/// and a negative minimum becomes exactly zero. Returns whether anything moved.
pub fn normalize_outputs(outputs: &mut Vec<Output>) -> (changed: bool)
    ensures
        final(outputs)@.len() == old(outputs)@.len(),
        positions_of(final(outputs)@) == normalized(positions_of(old(outputs)@)),
        forall|i: int|
            0 <= i < final(outputs)@.len() ==> same_but_position(
                #[trigger] final(outputs)@[i],
                old(outputs)@[i],
            ),
        !changed ==> final(outputs)@ == old(outputs)@,
        changed == (min_of(xs_of(positions_of(old(outputs)@))) < 0 || min_of(
            ys_of(positions_of(old(outputs)@)),
        ) < 0),
{
    let ghost ps = positions_of(outputs@);
    let ghost orig = outputs@;
    let min_x = min_x_exec(outputs);
    let min_y = min_y_exec(outputs);
    let dx: i64 = if min_x < 0 { -(min_x as i64) } else { 0 };
    let dy: i64 = if min_y < 0 { -(min_y as i64) } else { 0 };
    if dx == 0 && dy == 0 {
        assert(positions_of(outputs@) =~= normalized(ps));
        return false;
    }
    let mut i: usize = 0;
    while i < outputs.len()
        invariant
            outputs@.len() == orig.len(),
            ps == positions_of(orig),
            dx == shift_for(min_of(xs_of(ps))),
            dy == shift_for(min_of(ys_of(ps))),
            0 <= dx <= 0x8000_0000,
            0 <= dy <= 0x8000_0000,
            0 <= i <= outputs.len(),
            forall|j: int| 0 <= j < outputs@.len() ==> same_but_position(#[trigger] outputs@[j], orig[j]),
            forall|j: int| 0 <= j < i ==> (#[trigger] outputs@[j]).position == normalized(ps)[j],
            forall|j: int| i <= j < outputs@.len() ==> (#[trigger] outputs@[j]).position == ps[j],
        decreases outputs.len() - i,
    {
        let p = outputs[i].position;
        let np = (shifted_exec(p.0, dx), shifted_exec(p.1, dy));
        outputs[i].position = np;
        i = i + 1;
    }
    assert(positions_of(outputs@) =~= normalized(ps));
    true
}

} // verus!
