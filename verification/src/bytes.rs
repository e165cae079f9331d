//! Unsigned integers as little- and big-endian bytes.

use vstd::prelude::*;

verus! {

/// `256` to the power `n`.
pub open spec fn pow256(n: nat) -> nat
    decreases n,
{
    if n == 0 {
        1
    } else {
        256 * pow256((n - 1) as nat)
    }
}

/// The value of big-endian bytes.
pub open spec fn spec_be_value(b: Seq<u8>) -> nat
    decreases b.len(),
{
    if b.len() == 0 {
        0
    } else {
        spec_be_value(b.drop_last()) * 256 + b.last() as nat
    }
}

/// The value of little-endian bytes.
pub open spec fn spec_le_value(b: Seq<u8>) -> nat
    decreases b.len(),
{
    if b.len() == 0 {
        0
    } else {
        b[0] as nat + 256 * spec_le_value(b.drop_first())
    }
}

/// The value of bytes in the given order.
pub open spec fn spec_value(b: Seq<u8>, big: bool) -> nat {
    if big {
        spec_be_value(b)
    } else {
        spec_le_value(b)
    }
}

/// The `w` low bytes of `v`, most significant first.
pub open spec fn spec_be_bytes(v: nat, w: nat) -> Seq<u8>
    decreases w,
{
    if w == 0 {
        Seq::empty()
    } else {
        spec_be_bytes(v / 256, (w - 1) as nat).push((v % 256) as u8)
    }
}

/// The `w` low bytes of `v`, least significant first.
pub open spec fn spec_le_bytes(v: nat, w: nat) -> Seq<u8>
    decreases w,
{
    if w == 0 {
        Seq::empty()
    } else {
        seq![(v % 256) as u8] + spec_le_bytes(v / 256, (w - 1) as nat)
    }
}

/// The `w` low bytes of `v` in the given order.
pub open spec fn spec_bytes(v: nat, w: nat, big: bool) -> Seq<u8> {
    if big {
        spec_be_bytes(v, w)
    } else {
        spec_le_bytes(v, w)
    }
}

proof fn lemma_pow256_pos(n: nat)
    ensures
        pow256(n) >= 1,
    decreases n,
{
    if n > 0 {
        lemma_pow256_pos((n - 1) as nat);
    }
}

pub proof fn lemma_pow256_16()
    ensures
        pow256(16) == 0x1_0000_0000_0000_0000_0000_0000_0000_0000,
{
    reveal_with_fuel(pow256, 17);
}

proof fn lemma_div_step(v: nat, p: nat)
    requires
        v < 256 * p,
    ensures
        v / 256 < p,
        (v / 256) * 256 + v % 256 == v,
{
    assert((v / 256) * 256 + v % 256 == v) by (nonlinear_arith);
    assert(v / 256 < p) by (nonlinear_arith)
        requires
            v < 256 * p,
    ;
}

/// Bytes read back in the order they were written give the value written.
pub proof fn lemma_value_of_bytes(v: nat, w: nat, big: bool)
    requires
        v < pow256(w),
    ensures
        spec_bytes(v, w, big).len() == w,
        spec_value(spec_bytes(v, w, big), big) == v,
    decreases w,
{
    if w == 0 {
        assert(spec_be_bytes(v, 0) =~= Seq::<u8>::empty());
        assert(spec_le_bytes(v, 0) =~= Seq::<u8>::empty());
    } else {
        lemma_div_step(v, pow256((w - 1) as nat));
        lemma_value_of_bytes(v / 256, (w - 1) as nat, big);
        if big {
            let b = spec_be_bytes(v, w);
            assert(b.drop_last() =~= spec_be_bytes(v / 256, (w - 1) as nat));
        } else {
            let b = spec_le_bytes(v, w);
            assert(b.drop_first() =~= spec_le_bytes(v / 256, (w - 1) as nat));
        }
    }
}

/// A value of `n` bytes is below `256` to the power `n`.
pub proof fn lemma_value_bound(b: Seq<u8>, big: bool)
    ensures
        spec_value(b, big) < pow256(b.len()),
    decreases b.len(),
{
    if b.len() > 0 {
        if big {
            lemma_value_bound(b.drop_last(), big);
            let x = spec_be_value(b.drop_last());
            let p = pow256((b.len() - 1) as nat);
            let l = b.last() as nat;
            assert(x * 256 + l < 256 * p) by (nonlinear_arith)
                requires
                    x < p,
                    l < 256,
            ;
        } else {
            lemma_value_bound(b.drop_first(), big);
            let x = spec_le_value(b.drop_first());
            let p = pow256((b.len() - 1) as nat);
            let l = b[0] as nat;
            assert(l + 256 * x < 256 * p) by (nonlinear_arith)
                requires
                    x < p,
                    l < 256,
            ;
        }
    }
}

/// The value of `input[start..end]` in the given order.
pub fn read_value(input: &Vec<u8>, start: usize, end: usize, big: bool) -> (r: u128)
    requires
        start <= end <= input@.len(),
        end - start <= 16,
    ensures
        r == spec_value(input@.subrange(start as int, end as int), big),
{
    let ghost b = input@.subrange(start as int, end as int);
    proof {
        lemma_value_bound(b, big);
        lemma_pow256_16();
    }
    let mut acc: u128 = 0;
    if big {
        let mut i = start;
        while i < end
            invariant
                b == input@.subrange(start as int, end as int),
                start <= i <= end <= input@.len(),
                end - start <= 16,
                acc == spec_be_value(b.take(i - start)),
            decreases end - i,
        {
            let ghost t = b.take(i + 1 - start);
            assert(t.drop_last() =~= b.take(i - start));
            assert(t.last() == input@[i as int]);
            proof {
                lemma_value_bound(t, true);
                lemma_pow256_mono((i + 1 - start) as nat, 16);
                lemma_pow256_16();
            }
            acc = acc * 256 + input[i] as u128;
            i = i + 1;
        }
        assert(b.take(end - start) =~= b);
    } else {
        let mut i = end;
        while i > start
            invariant
                b == input@.subrange(start as int, end as int),
                start <= i <= end <= input@.len(),
                end - start <= 16,
                acc == spec_le_value(b.skip(i - start)),
            decreases i - start,
        {
            let ghost t = b.skip(i - 1 - start);
            assert(t.drop_first() =~= b.skip(i - start));
            assert(t[0] == input@[i - 1]);
            proof {
                lemma_value_bound(t, false);
                lemma_pow256_mono(t.len(), 16);
                lemma_pow256_16();
            }
            acc = input[i - 1] as u128 + 256 * acc;
            i = i - 1;
        }
        assert(b.skip(0) =~= b);
    }
    acc
}

pub proof fn lemma_pow256_mono(a: nat, b: nat)
    requires
        a <= b,
    ensures
        pow256(a) <= pow256(b),
    decreases b,
{
    if a < b {
        lemma_pow256_mono(a, (b - 1) as nat);
        lemma_pow256_pos((b - 1) as nat);
    }
}

/// Appends the `w` low bytes of `v` in the given order.
pub fn push_bytes(out: &mut Vec<u8>, v: u128, w: usize, big: bool)
    requires
        w <= 16,
    ensures
        final(out)@ == old(out)@ + spec_bytes(v as nat, w as nat, big),
    decreases w,
{
    if w == 0 {
        assert(spec_bytes(v as nat, 0, big) =~= Seq::<u8>::empty());
        assert(out@ =~= out@ + Seq::<u8>::empty());
        return;
    }
    let low = (v % 256) as u8;
    if big {
        push_bytes(out, v / 256, w - 1, big);
        out.push(low);
        assert(out@ =~= old(out)@ + spec_be_bytes(v as nat, w as nat));
    } else {
        out.push(low);
        push_bytes(out, v / 256, w - 1, big);
        assert(out@ =~= old(out)@ + spec_le_bytes(v as nat, w as nat));
    }
}

/// Whether `v` fits in `w` bytes.
pub fn fits(v: u128, w: usize) -> (r: bool)
    requires
        w <= 16,
    ensures
        r == (v < pow256(w as nat)),
{
    proof {
        lemma_pow256_16();
        lemma_pow256_mono(w as nat, 16);
    }
    if w == 16 {
        return true;
    }
    let mut bound: u128 = 1;
    let mut i: usize = 0;
    while i < w
        invariant
            i <= w < 16,
            bound == pow256(i as nat),
        decreases w - i,
    {
        proof {
            lemma_pow256_mono((i + 1) as nat, 15);
            lemma_pow256_16();
            assert(pow256(16) == 256 * pow256(15));
            lemma_pow256_pos(15);
            assert(pow256((i + 1) as nat) == 256 * pow256(i as nat));
        }
        bound = bound * 256;
        i = i + 1;
    }
    v < bound
}

/// The bytes of array elements, each `width` bytes in the given order, one
/// after another.
pub open spec fn spec_elements_bytes(xs: Seq<u128>, width: nat, big: bool) -> Seq<u8>
    decreases xs.len(),
{
    if xs.len() == 0 {
        Seq::empty()
    } else {
        spec_elements_bytes(xs.drop_last(), width, big) + spec_bytes(xs.last() as nat, width, big)
    }
}

/// Whether every element fits in `width` bytes.
pub open spec fn spec_elements_fit(xs: Seq<u128>, width: nat) -> bool {
    forall|k: int| 0 <= k < xs.len() ==> (#[trigger] xs[k]) < pow256(width)
}

/// Element `k` of `width`-byte elements read from `b`.
pub open spec fn spec_element_at(b: Seq<u8>, width: nat, big: bool, k: int) -> nat {
    spec_value(b.subrange(k * width, k * width + width), big)
}

proof fn lemma_elements_layout(xs: Seq<u128>, width: nat, big: bool)
    requires
        spec_elements_fit(xs, width),
    ensures
        spec_elements_bytes(xs, width, big).len() == xs.len() * width,
        forall|k: int|
            0 <= k < xs.len() ==> #[trigger] spec_element_at(spec_elements_bytes(xs, width, big), width, big, k)
                == xs[k],
    decreases xs.len(),
{
    if xs.len() > 0 {
        let init = xs.drop_last();
        let n = xs.len() - 1;
        assert(spec_elements_fit(init, width)) by {
            assert forall|k: int| 0 <= k < init.len() implies (#[trigger] init[k]) < pow256(width) by {
                assert(init[k] == xs[k]);
            }
        }
        lemma_elements_layout(init, width, big);
        let head = spec_elements_bytes(init, width, big);
        let last = spec_bytes(xs.last() as nat, width, big);
        lemma_value_of_bytes(xs.last() as nat, width, big);
        let all = spec_elements_bytes(xs, width, big);
        assert(all == head + last);
        assert(head.len() == n * width);
        assert(n * width + width == xs.len() * width) by (nonlinear_arith)
            requires
                n == xs.len() - 1,
        ;
        assert forall|k: int| 0 <= k < xs.len() implies #[trigger] spec_element_at(all, width, big, k) == xs[k] by {
            if k < n {
                assert(k * width + width <= n * width) by (nonlinear_arith)
                    requires
                        0 <= k < n,
                ;
                assert(0 <= k * width) by (nonlinear_arith)
                    requires
                        0 <= k,
                ;
                assert(all.subrange(k * width, k * width + width) =~= head.subrange(k * width, k * width + width));
                assert(spec_element_at(head, width, big, k) == init[k]);
                assert(init[k] == xs[k]);
            } else {
                assert(k == n);
                assert(all.subrange(k * width, k * width + width) =~= last);
            }
        }
    }
}

/// The bytes of array elements, each `width` bytes in the given order.
pub fn encode_elements(xs: &Vec<u128>, width: usize, big: bool) -> (r: Vec<u8>)
    requires
        width <= 16,
    ensures
        r@ == spec_elements_bytes(xs@, width as nat, big),
{
    let mut out: Vec<u8> = Vec::new();
    let mut k: usize = 0;
    while k < xs.len()
        invariant
            k <= xs@.len(),
            width <= 16,
            out@ == spec_elements_bytes(xs@.take(k as int), width as nat, big),
        decreases xs.len() - k,
    {
        push_bytes(&mut out, xs[k], width, big);
        assert(xs@.take(k + 1).drop_last() =~= xs@.take(k as int));
        k = k + 1;
    }
    assert(xs@.take(xs@.len() as int) =~= xs@);
    out
}

/// The elements of an array of `width`-byte elements, when the bytes hold a
/// whole number of them.
pub fn decode_elements(b: &Vec<u8>, width: usize, big: bool) -> (r: Option<Vec<u128>>)
    requires
        1 <= width <= 16,
    ensures
        match r {
            Some(xs) => b@.len() % (width as nat) == 0 && xs@.len() * width == b@.len() && forall|k: int|
                0 <= k < xs@.len() ==> #[trigger] xs@[k] == spec_element_at(b@, width as nat, big, k),
            None => b@.len() % (width as nat) != 0,
        },
{
    if b.len() % width != 0 {
        return None;
    }
    let n = b.len() / width;
    assert(n * width == b.len()) by (nonlinear_arith)
        requires
            n == b.len() / width,
            b.len() % width == 0,
            width >= 1,
    ;
    let mut xs: Vec<u128> = Vec::new();
    let mut k: usize = 0;
    while k < n
        invariant
            k <= n,
            n * width == b@.len(),
            b@.len() == b.len(),
            1 <= width <= 16,
            xs@.len() == k,
            forall|j: int| 0 <= j < k ==> #[trigger] xs@[j] == spec_element_at(b@, width as nat, big, j),
        decreases n - k,
    {
        assert(k * width + width <= n * width) by (nonlinear_arith)
            requires
                k < n,
        ;
        assert(0 <= k * width) by (nonlinear_arith);
        let start = k * width;
        xs.push(read_value(b, start, start + width, big));
        k = k + 1;
    }
    Some(xs)
}

/// Elements read back from the bytes written for them are those elements.
pub proof fn law_elements_read_back(xs: Seq<u128>, width: nat, big: bool)
    requires
        spec_elements_fit(xs, width),
    ensures
        spec_elements_bytes(xs, width, big).len() == xs.len() * width,
        forall|k: int|
            0 <= k < xs.len() ==> #[trigger] spec_element_at(spec_elements_bytes(xs, width, big), width, big, k)
                == xs[k],
{
    lemma_elements_layout(xs, width, big);
}

} // verus!
