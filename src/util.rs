//! Variable-length quantities: seven bits per byte, most significant group
//! first, the top bit set on every byte but the last.
use vstd::prelude::*;

verus! {

/// Value of the first `n` bytes of `d` read as a variable-length quantity:
/// seven bits per byte, most significant group first.
pub open spec fn vlq_acc(d: Seq<u8>, n: nat) -> nat
    decreases n,
{
    if n == 0 {
        0
    } else {
        vlq_acc(d, (n - 1) as nat) * 128 + (d[n - 1] as nat % 128)
    }
}

/// Number of bytes that a variable-length quantity starting at index `i` of a
/// four-byte window takes: one past the first byte whose top bit is clear,
/// counted from the start of the window, or 0 when the window holds no such byte.
pub open spec fn vlq_count_from(d: Seq<u8>, i: nat) -> nat
    decreases 4 - i,
{
    if i >= 4 {
        0
    } else if d[i as int] < 128 {
        i + 1
    } else {
        vlq_count_from(d, i + 1)
    }
}

pub open spec fn vlq_count(d: Seq<u8>) -> nat {
    vlq_count_from(d, 0)
}

/// Decoded value of a four-byte window: the bytes up to and including the
/// terminating one, or all four when none terminates.
pub open spec fn vlq_value(d: Seq<u8>) -> nat {
    if vlq_count(d) == 0 {
        vlq_acc(d, 4)
    } else {
        vlq_acc(d, vlq_count(d))
    }
}

/// The shortest encoding of `v` as a variable-length quantity.
pub open spec fn vlq_encode(v: nat) -> Seq<u8> {
    if v < 0x80 {
        seq![v as u8]
    } else if v < 0x4000 {
        seq![(v / 0x80 + 0x80) as u8, (v % 0x80) as u8]
    } else if v < 0x20_0000 {
        seq![(v / 0x4000 + 0x80) as u8, ((v / 0x80) % 0x80 + 0x80) as u8, (v % 0x80) as u8]
    } else {
        seq![
            (v / 0x20_0000 + 0x80) as u8,
            ((v / 0x4000) % 0x80 + 0x80) as u8,
            ((v / 0x80) % 0x80 + 0x80) as u8,
            (v % 0x80) as u8,
        ]
    }
}

/// Number of bytes in the encoding of `v`.
pub open spec fn vlq_size(v: nat) -> nat {
    if v <= 0x7F {
        1
    } else if v <= 0x3FFF {
        2
    } else if v <= 0x1F_FFFF {
        3
    } else {
        4
    }
}

/// The four bytes of `d` from index `off` on, with zero bytes in place of
/// those past its end.
pub open spec fn window(d: Seq<u8>, off: int) -> Seq<u8> {
    Seq::new(4, |i: int| if 0 <= off + i < d.len() { d[off + i] } else { 0u8 })
}

/// `s` padded with zero bytes (or cut) to a window of four bytes.
pub open spec fn pad4(s: Seq<u8>) -> Seq<u8> {
    window(s, 0)
}

proof fn lemma_vlq_acc_bound(d: Seq<u8>, n: nat)
    ensures
        vlq_acc(d, n) < pow128(n),
    decreases n,
{
    if n > 0 {
        lemma_vlq_acc_bound(d, (n - 1) as nat);
        let a = vlq_acc(d, (n - 1) as nat);
        let p = pow128((n - 1) as nat);
        let b = d[n - 1] as nat % 128;
        assert(a * 128 + b < p * 128) by (nonlinear_arith)
            requires
                a < p,
                b < 128,
        ;
    }
}

pub open spec fn pow128(n: nat) -> nat
    decreases n,
{
    if n == 0 {
        1
    } else {
        pow128((n - 1) as nat) * 128
    }
}

/// Reads a variable-length quantity from a window of four bytes. Returns the
/// number of bytes it takes (0 when no byte of the window ends it) and its value.
pub fn read_variable_length(data: &[u8; 4]) -> (r: (u8, usize))
    ensures
        r.0 as nat == vlq_count(data@),
        r.1 as nat == vlq_value(data@),
        r.0 <= 4,
        r.1 < 0x1000_0000,
{
    let mut bytes: u8 = 0;
    let mut value: usize = 0;
    let mut i: usize = 0;
    while i < 4
        invariant_except_break
            bytes == 0,
            vlq_count(data@) == vlq_count_from(data@, i as nat),
        invariant
            0 <= i <= 4,
            value as nat == vlq_acc(data@, i as nat),
            value < pow128(i as nat),
        ensures
            bytes == 0 ==> i == 4 && vlq_count(data@) == 0,
            bytes != 0 ==> bytes == i && vlq_count(data@) == i,
        decreases 4 - i,
    {
        let n = data[i];
        proof {
            lemma_vlq_acc_bound(data@, (i + 1) as nat);
            lemma_pow128_4();
            assert(pow128((i + 1) as nat) <= pow128(4)) by {
                lemma_pow128_mono((i + 1) as nat, 4);
            }
        }
        value = value * 128 + (n % 128) as usize;
        i = i + 1;
        if n < 128 {
            bytes = i as u8;
            break;
        }
    }
    proof {
        lemma_pow128_4();
        lemma_pow128_mono(i as nat, 4);
    }
    (bytes, value)
}

proof fn lemma_pow128_4()
    ensures
        pow128(4) == 0x1000_0000,
{
    reveal_with_fuel(pow128, 5);
}

proof fn lemma_pow128_mono(a: nat, b: nat)
    requires
        a <= b,
    ensures
        pow128(a) <= pow128(b),
    decreases b - a,
{
    if a < b {
        lemma_pow128_mono(a, (b - 1) as nat);
    }
}

/// Reads a variable-length quantity from `d` at `off`, as if `d` went on with
/// zero bytes past its end.
pub fn read_variable_length_at(d: &[u8], off: usize) -> (r: (u8, usize))
    ensures
        r.0 as nat == vlq_count(window(d@, off as int)),
        r.1 as nat == vlq_value(window(d@, off as int)),
        r.0 <= 4,
        r.1 < 0x1000_0000,
{
    let mut w: [u8; 4] = [0u8; 4];
    let mut i: usize = 0;
    while i < 4
        invariant
            0 <= i <= 4,
            forall|j: int| 0 <= j < i ==> w@[j] == window(d@, off as int)[j],
            forall|j: int| i <= j < 4 ==> w@[j] == 0,
        decreases 4 - i,
    {
        if off < d.len() && i < d.len() - off {
            w[i] = d[off + i];
        }
        i = i + 1;
    }
    assert(w@ =~= window(d@, off as int));
    read_variable_length(&w)
}

/// Encodes `value` as a variable-length quantity of the fewest bytes.
pub fn encode_variable_length(value: u32) -> (r: Vec<u8>)
    requires
        value <= 0x0FFF_FFFF,
    ensures
        r@ == vlq_encode(value as nat),
{
    let mut r: Vec<u8> = Vec::new();
    if value < 0x80 {
        r.push(value as u8);
    } else if value < 0x4000 {
        r.push((value / 0x80 + 0x80) as u8);
        r.push((value % 0x80) as u8);
    } else if value < 0x20_0000 {
        r.push((value / 0x4000 + 0x80) as u8);
        r.push(((value / 0x80) % 0x80 + 0x80) as u8);
        r.push((value % 0x80) as u8);
    } else {
        r.push((value / 0x20_0000 + 0x80) as u8);
        r.push(((value / 0x4000) % 0x80 + 0x80) as u8);
        r.push(((value / 0x80) % 0x80 + 0x80) as u8);
        r.push((value % 0x80) as u8);
    }
    assert(r@ =~= vlq_encode(value as nat));
    r
}

/// Encoding a value of at most 28 bits and decoding the result (padded to a
/// four-byte window) gives the value back, and the decoder reports the
/// documented number of bytes.
pub proof fn lemma_vlq_round_trip(v: nat)
    requires
        v <= 0x0FFF_FFFF,
    ensures
        vlq_encode(v).len() == vlq_size(v),
        vlq_count(pad4(vlq_encode(v))) == vlq_size(v),
        vlq_value(pad4(vlq_encode(v))) == v,
{
    let e = vlq_encode(v);
    let d = pad4(e);
    reveal_with_fuel(vlq_count_from, 5);
    reveal_with_fuel(vlq_acc, 5);
    if v < 0x80 {
        assert(d[0] == v as u8);
    } else if v < 0x4000 {
        assert(d[0] as nat % 128 == v / 0x80);
        assert(d[1] as nat % 128 == v % 0x80);
        assert(v == (v / 0x80) * 128 + v % 0x80);
    } else if v < 0x20_0000 {
        assert(d[0] as nat % 128 == v / 0x4000) by {
            assert(v / 0x4000 < 0x80) by (nonlinear_arith) requires v < 0x20_0000;
        }
        assert(d[1] as nat % 128 == (v / 0x80) % 0x80);
        assert(d[2] as nat % 128 == v % 0x80);
        assert(((v / 0x4000) * 128 + (v / 0x80) % 0x80) * 128 + v % 0x80 == v) by (nonlinear_arith);
    } else {
        assert(d[0] as nat % 128 == v / 0x20_0000) by {
            assert(v / 0x20_0000 < 0x80) by (nonlinear_arith) requires v <= 0x0FFF_FFFF;
        }
        assert(d[1] as nat % 128 == (v / 0x4000) % 0x80);
        assert(d[2] as nat % 128 == (v / 0x80) % 0x80);
        assert(d[3] as nat % 128 == v % 0x80);
        assert((((v / 0x20_0000) * 128 + (v / 0x4000) % 0x80) * 128 + (v / 0x80) % 0x80) * 128
            + v % 0x80 == v) by (nonlinear_arith);
    }
}

} // verus!
