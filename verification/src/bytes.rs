//! Big-endian integers on the wire: what a run of bytes is worth, which bytes a
//! number is written as, and that the two undo each other.

use vstd::prelude::*;

verus! {

/// The number that a run of bytes spells, most significant byte first.
pub open spec fn be_value(b: Seq<u8>) -> nat
    decreases b.len(),
{
    if b.len() == 0 {
        0
    } else {
        be_value(b.drop_last()) * 256 + b.last() as nat
    }
}

/// The `width` bytes that spell `v`, most significant byte first. Digits of `v`
/// beyond `width` bytes are dropped.
pub open spec fn be_digits(v: nat, width: nat) -> Seq<u8>
    decreases width,
{
    if width == 0 {
        Seq::empty()
    } else {
        be_digits(v / 256, (width - 1) as nat).push((v % 256) as u8)
    }
}

/// One more than the largest number that `width` bytes can spell.
pub open spec fn be_limit(width: nat) -> nat
    decreases width,
{
    if width == 0 {
        1
    } else {
        256 * be_limit((width - 1) as nat)
    }
}

/// The 16-bit field that starts at byte `at`.
pub open spec fn u16_at(b: Seq<u8>, at: int) -> u16 {
    be_value(b.subrange(at, at + 2)) as u16
}

/// The 32-bit field that starts at byte `at`.
pub open spec fn u32_at(b: Seq<u8>, at: int) -> u32 {
    be_value(b.subrange(at, at + 4)) as u32
}

/// The 64-bit field that starts at byte `at`.
pub open spec fn u64_at(b: Seq<u8>, at: int) -> u64 {
    be_value(b.subrange(at, at + 8)) as u64
}

pub open spec fn u16_bytes(v: u16) -> Seq<u8> {
    be_digits(v as nat, 2)
}

pub open spec fn u32_bytes(v: u32) -> Seq<u8> {
    be_digits(v as nat, 4)
}

pub open spec fn u64_bytes(v: u64) -> Seq<u8> {
    be_digits(v as nat, 8)
}

/// The limits of the three field widths are the limits of `u16`, `u32` and `u64`.
pub proof fn lemma_limits()
    ensures
        be_limit(2) == 0x1_0000,
        be_limit(4) == 0x1_0000_0000,
        be_limit(8) == 0x1_0000_0000_0000_0000,
{
    reveal_with_fuel(be_limit, 9);
}

/// A number is written as exactly `width` bytes.
pub proof fn lemma_digits_len(v: nat, width: nat)
    ensures
        be_digits(v, width).len() == width,
    decreases width,
{
    if width > 0 {
        lemma_digits_len(v / 256, (width - 1) as nat);
    }
}

/// What a run of bytes spells fits the run's width.
pub proof fn lemma_value_bound(b: Seq<u8>)
    ensures
        be_value(b) < be_limit(b.len()),
    decreases b.len(),
{
    if b.len() > 0 {
        lemma_value_bound(b.drop_last());
    }
}

/// Reading back what was written gives the number, when it fits the width.
pub proof fn lemma_value_of_digits(v: nat, width: nat)
    requires
        v < be_limit(width),
    ensures
        be_value(be_digits(v, width)) == v,
    decreases width,
{
    if width > 0 {
        let rest = be_digits(v / 256, (width - 1) as nat);
        lemma_value_of_digits(v / 256, (width - 1) as nat);
        assert(be_digits(v, width).drop_last() =~= rest);
    }
}

/// Writing what was read gives the bytes back.
pub proof fn lemma_digits_of_value(b: Seq<u8>)
    ensures
        be_digits(be_value(b), b.len()) == b,
    decreases b.len(),
{
    if b.len() > 0 {
        lemma_digits_of_value(b.drop_last());
        let high = be_value(b.drop_last());
        assert((high * 256 + b.last() as nat) / 256 == high);
        assert((high * 256 + b.last() as nat) % 256 == b.last() as nat);
        assert(b.drop_last().push(b.last()) =~= b);
    }
}

/// A field read out of the middle of a frame is the field that was put there.
pub proof fn lemma_field(before: Seq<u8>, field: Seq<u8>, after: Seq<u8>)
    ensures
        (before + field + after).subrange(
            before.len() as int,
            (before.len() + field.len()) as int,
        ) == field,
{
    assert((before + field + after).subrange(
        before.len() as int,
        (before.len() + field.len()) as int,
    ) =~= field);
}

/// The 16-bit field at `at`, when the buffer holds it.
pub(crate) fn get_u16(b: &[u8], at: usize) -> (v: u16)
    requires
        at + 2 <= b@.len(),
    ensures
        v == u16_at(b@, at as int),
{
    let hi: u16 = b[at] as u16;
    let lo: u16 = b[at + 1] as u16;
    proof {
        let s = b@.subrange(at as int, at + 2);
        reveal_with_fuel(be_value, 3);
        assert(s.drop_last().drop_last().len() == 0);
        assert(s.drop_last().last() == b@[at as int]);
        assert(s.last() == b@[at + 1]);
    }
    hi * 256 + lo
}

/// The 32-bit field at `at`, when the buffer holds it.
pub(crate) fn get_u32(b: &[u8], at: usize) -> (v: u32)
    requires
        at + 4 <= b@.len(),
    ensures
        v == u32_at(b@, at as int),
{
    let _ = b.len();
    let hi: u32 = get_u16(b, at) as u32;
    let lo: u32 = get_u16(b, at + 2) as u32;
    proof {
        lemma_split(b@.subrange(at as int, at + 4), 2);
        assert(b@.subrange(at as int, at + 4).subrange(0, 2) =~= b@.subrange(at as int, at + 2));
        assert(b@.subrange(at as int, at + 4).subrange(2, 4) =~= b@.subrange(at + 2, at + 4));
        lemma_limits();
        lemma_value_bound(b@.subrange(at as int, at + 2));
        lemma_value_bound(b@.subrange(at + 2, at + 4));
    }
    hi * 0x1_0000 + lo
}

/// The 64-bit field at `at`, when the buffer holds it.
pub(crate) fn get_u64(b: &[u8], at: usize) -> (v: u64)
    requires
        at + 8 <= b@.len(),
    ensures
        v == u64_at(b@, at as int),
{
    let _ = b.len();
    let hi: u64 = get_u32(b, at) as u64;
    let lo: u64 = get_u32(b, at + 4) as u64;
    proof {
        lemma_split(b@.subrange(at as int, at + 8), 4);
        assert(b@.subrange(at as int, at + 8).subrange(0, 4) =~= b@.subrange(at as int, at + 4));
        assert(b@.subrange(at as int, at + 8).subrange(4, 8) =~= b@.subrange(at + 4, at + 8));
        lemma_limits();
        lemma_value_bound(b@.subrange(at as int, at + 4));
        lemma_value_bound(b@.subrange(at + 4, at + 8));
    }
    assert(hi <= 0xffff_ffff && lo <= 0xffff_ffff);
    hi * 0x1_0000_0000 + lo
}

/// A run of bytes is worth its head, shifted by the width of its tail, plus its tail.
pub proof fn lemma_split(b: Seq<u8>, head: int)
    requires
        0 <= head <= b.len(),
    ensures
        be_value(b) == be_value(b.subrange(0, head)) * be_limit((b.len() - head) as nat)
            + be_value(b.subrange(head, b.len() as int)),
    decreases b.len(),
{
    let tail = b.subrange(head, b.len() as int);
    if head == b.len() {
        assert(b.subrange(0, head) =~= b);
        assert(be_value(tail) == 0);
        assert(be_limit((b.len() - head) as nat) == 1);
        assert(be_value(b) * 1 == be_value(b));
    } else {
        let init = b.drop_last();
        lemma_split(init, head);
        assert(init.subrange(0, head) =~= b.subrange(0, head));
        assert(init.subrange(head, init.len() as int) =~= tail.drop_last());
        assert(tail.last() == b.last());
        let h = be_value(b.subrange(0, head));
        let l = be_limit((init.len() - head) as nat);
        let t = be_value(tail.drop_last());
        assert(be_value(init) == h * l + t);
        assert(be_value(tail) == t * 256 + b.last() as nat);
        assert(be_limit((b.len() - head) as nat) == 256 * l);
        assert(h * (256 * l) == (h * l) * 256) by (nonlinear_arith);
        assert(be_value(b) == h * (256 * l) + be_value(tail));
    }
}

/// Appends the two bytes of `v`.
pub fn put_u16(out: &mut Vec<u8>, v: u16)
    ensures
        final(out)@ == old(out)@ + u16_bytes(v),
{
    let hi: u8 = (v / 256) as u8;
    let lo: u8 = (v % 256) as u8;
    out.push(hi);
    out.push(lo);
    proof {
        reveal_with_fuel(be_digits, 3);
        assert((v as nat / 256) % 256 == v as nat / 256);
        assert(out@ =~= old(out)@ + u16_bytes(v));
    }
}

/// Appends the four bytes of `v`.
pub fn put_u32(out: &mut Vec<u8>, v: u32)
    ensures
        final(out)@ == old(out)@ + u32_bytes(v),
{
    put_u16(out, (v / 0x1_0000) as u16);
    put_u16(out, (v % 0x1_0000) as u16);
    proof {
        lemma_limits();
        lemma_join(v as nat, 2, 2);
        assert(out@ =~= old(out)@ + u32_bytes(v));
    }
}

/// Appends the eight bytes of `v`.
pub fn put_u64(out: &mut Vec<u8>, v: u64)
    ensures
        final(out)@ == old(out)@ + u64_bytes(v),
{
    put_u32(out, (v / 0x1_0000_0000) as u32);
    put_u32(out, (v % 0x1_0000_0000) as u32);
    proof {
        lemma_limits();
        lemma_join(v as nat, 4, 4);
        assert(out@ =~= old(out)@ + u64_bytes(v));
    }
}

/// A number is written as its high part followed by its low part.
pub proof fn lemma_join(v: nat, high: nat, low: nat)
    ensures
        be_digits(v, high + low) == be_digits(v / be_limit(low), high) + be_digits(
            v % be_limit(low),
            low,
        ),
    decreases low,
{
    if low == 0 {
        assert(be_digits(v, high + low) =~= be_digits(v, high) + Seq::<u8>::empty());
    } else {
        let l = be_limit((low - 1) as nat);
        lemma_join(v / 256, high, (low - 1) as nat);
        lemma_limit_positive((low - 1) as nat);
        vstd::arithmetic::div_mod::lemma_div_denominator(v as int, 256, l as int);
        vstd::arithmetic::div_mod::lemma_breakdown(v as int, 256, l as int);
        let low_part = v % (256 * l);
        assert(low_part / 256 == (v / 256) % l && low_part % 256 == v % 256);
        assert(be_digits(v, high + low) =~= be_digits(v / be_limit(low), high) + be_digits(
            v % be_limit(low),
            low,
        ));
    }
}

pub proof fn lemma_limit_positive(width: nat)
    ensures
        be_limit(width) > 0,
    decreases width,
{
    if width > 0 {
        lemma_limit_positive((width - 1) as nat);
    }
}

/// A 16-bit field put into a frame is read back from where it was put.
pub proof fn lemma_u16_field(before: Seq<u8>, v: u16, after: Seq<u8>)
    ensures
        u16_bytes(v).len() == 2,
        u16_at(before + u16_bytes(v) + after, before.len() as int) == v,
{
    lemma_digits_len(v as nat, 2);
    lemma_field(before, u16_bytes(v), after);
    lemma_limits();
    lemma_value_of_digits(v as nat, 2);
}

/// A 32-bit field put into a frame is read back from where it was put.
pub proof fn lemma_u32_field(before: Seq<u8>, v: u32, after: Seq<u8>)
    ensures
        u32_bytes(v).len() == 4,
        u32_at(before + u32_bytes(v) + after, before.len() as int) == v,
{
    lemma_digits_len(v as nat, 4);
    lemma_field(before, u32_bytes(v), after);
    lemma_limits();
    lemma_value_of_digits(v as nat, 4);
}

/// A 64-bit field put into a frame is read back from where it was put.
pub proof fn lemma_u64_field(before: Seq<u8>, v: u64, after: Seq<u8>)
    ensures
        u64_bytes(v).len() == 8,
        u64_at(before + u64_bytes(v) + after, before.len() as int) == v,
{
    lemma_digits_len(v as nat, 8);
    lemma_field(before, u64_bytes(v), after);
    lemma_limits();
    lemma_value_of_digits(v as nat, 8);
}

} // verus!
