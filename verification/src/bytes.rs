//! Fixed-layout byte encoders. Each field of the binary frame is encoded
//! with an explicit, documented width and order: multi-byte integers are
//! little-endian at a fixed width (4 or 8 bytes), never the host's natural
//! layout. Decimal rendering for the CSV emitter lives here as well.

use vstd::prelude::*;

verus! {

/// The eight little-endian bytes of a 64-bit value.
pub open spec fn u64_le(x: u64) -> Seq<u8> {
    seq![
        (x % 0x100) as u8,
        ((x / 0x100) % 0x100) as u8,
        ((x / 0x10000) % 0x100) as u8,
        ((x / 0x1000000) % 0x100) as u8,
        ((x / 0x100000000) % 0x100) as u8,
        ((x / 0x10000000000) % 0x100) as u8,
        ((x / 0x1000000000000) % 0x100) as u8,
        ((x / 0x100000000000000) % 0x100) as u8,
    ]
}

/// The four little-endian bytes of a 32-bit value.
pub open spec fn u32_le(x: u32) -> Seq<u8> {
    seq![
        (x % 0x100) as u8,
        ((x / 0x100) % 0x100) as u8,
        ((x / 0x10000) % 0x100) as u8,
        ((x / 0x1000000) % 0x100) as u8,
    ]
}

/// The little-endian IEEE-754 double-precision encoding of the constant
/// 1.0, the only value the unweighted adjacency matrix ever stores.
pub open spec fn one_f64_le() -> Seq<u8> {
    seq![0u8, 0u8, 0u8, 0u8, 0u8, 0u8, 0xf0u8, 0x3fu8]
}

/// Appends the eight little-endian bytes of `x`.
pub fn push_u64_le(out: &mut Vec<u8>, x: u64)
    ensures
        final(out)@ == old(out)@ + u64_le(x),
{
    out.push((x % 0x100) as u8);
    out.push(((x / 0x100) % 0x100) as u8);
    out.push(((x / 0x10000) % 0x100) as u8);
    out.push(((x / 0x1000000) % 0x100) as u8);
    out.push(((x / 0x100000000) % 0x100) as u8);
    out.push(((x / 0x10000000000) % 0x100) as u8);
    out.push(((x / 0x1000000000000) % 0x100) as u8);
    out.push(((x / 0x100000000000000) % 0x100) as u8);
    proof {
        assert(out@ =~= old(out)@ + u64_le(x));
    }
}

/// Appends the four little-endian bytes of `x`.
pub fn push_u32_le(out: &mut Vec<u8>, x: u32)
    ensures
        final(out)@ == old(out)@ + u32_le(x),
{
    out.push((x % 0x100) as u8);
    out.push(((x / 0x100) % 0x100) as u8);
    out.push(((x / 0x10000) % 0x100) as u8);
    out.push(((x / 0x1000000) % 0x100) as u8);
    proof {
        assert(out@ =~= old(out)@ + u32_le(x));
    }
}

/// Appends the encoding of the value 1.0.
pub fn push_one_f64(out: &mut Vec<u8>)
    ensures
        final(out)@ == old(out)@ + one_f64_le(),
{
    out.push(0);
    out.push(0);
    out.push(0);
    out.push(0);
    out.push(0);
    out.push(0);
    out.push(0xf0);
    out.push(0x3f);
    proof {
        assert(out@ =~= old(out)@ + one_f64_le());
    }
}

/// The ASCII decimal digits of `n`, most significant first, no sign and no
/// leading zero (a single `0` for zero).
pub open spec fn dec_digits(n: nat) -> Seq<u8>
    decreases n,
{
    if n < 10 {
        seq![(48 + n) as u8]
    } else {
        dec_digits(n / 10) + seq![(48 + n % 10) as u8]
    }
}

/// Appends the ASCII decimal rendering of `x`.
pub fn push_dec(out: &mut Vec<u8>, x: usize)
    ensures
        final(out)@ == old(out)@ + dec_digits(x as nat),
{
    let mut tmp: Vec<u8> = Vec::new();
    let mut v: usize = x;
    let mut done = false;
    proof {
        assert(Seq::<u8>::empty().reverse() =~= Seq::<u8>::empty());
        assert(dec_digits(x as nat) =~= dec_digits(x as nat) + Seq::<u8>::empty());
    }
    while !done
        invariant
            !done ==> dec_digits(x as nat) == dec_digits(v as nat) + tmp@.reverse(),
            done ==> dec_digits(x as nat) == tmp@.reverse(),
        decreases (if done {
            0int
        } else {
            v + 1
        }),
    {
        let d: u8 = (v % 10) as u8 + 48;
        proof {
            if v >= 10 {
                assert(dec_digits(v as nat) == dec_digits((v as nat) / 10) + seq![d]);
            } else {
                assert(dec_digits(v as nat) == seq![d]);
            }
            assert((tmp@.push(d)).reverse() =~= seq![d] + tmp@.reverse());
            assert((dec_digits((v / 10) as nat) + seq![d]) + tmp@.reverse() =~= dec_digits(
                (v / 10) as nat,
            ) + (seq![d] + tmp@.reverse()));
            assert(seq![d] + tmp@.reverse() =~= (tmp@.push(d)).reverse());
        }
        tmp.push(d);
        if v < 10 {
            done = true;
        } else {
            v = v / 10;
        }
    }
    let n = tmp.len();
    let ghost start = out@;
    let mut j: usize = 0;
    proof {
        assert(tmp@.reverse().take(0) =~= Seq::<u8>::empty());
        assert(out@ =~= start + Seq::<u8>::empty());
    }
    while j < n
        invariant
            j <= n,
            n == tmp@.len(),
            dec_digits(x as nat) == tmp@.reverse(),
            out@ == start + tmp@.reverse().take(j as int),
        decreases n - j,
    {
        out.push(tmp[n - 1 - j]);
        proof {
            assert(tmp@.reverse()[j as int] == tmp@[n - 1 - j]);
            assert(tmp@.reverse().take(j + 1) =~= tmp@.reverse().take(j as int).push(
                tmp@[n - 1 - j],
            ));
        }
        j += 1;
    }
    proof {
        assert(tmp@.reverse().take(tmp@.len() as int) =~= tmp@.reverse());
    }
}

} // verus!
