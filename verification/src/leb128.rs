//! Unsigned LEB128 integers.
//!
//! A number is written as a sequence of bytes, least significant group of seven bits first.
//! Every byte but the last has its high bit set. Only the shortest form of a number is
//! accepted when reading, and only numbers that fit in 64 bits.

use vstd::prelude::*;

verus! {

/// The encoding of `v`.
pub open spec fn encode(v: nat) -> Seq<u8>
    decreases v,
{
    if v < 128 {
        seq![v as u8]
    } else {
        seq![(128 + v % 128) as u8].add(encode(v / 128))
    }
}

/// What reading a number at the start of a byte sequence gives.
pub enum Parsed {
    /// A number, and how many bytes it occupies.
    Value { value: nat, len: nat },
    /// The bytes end before the number does.
    Incomplete,
    /// The bytes do not start with the shortest encoding of a 64-bit number.
    Invalid,
}

/// Exclusive upper bound of what the digits from position `depth` on may amount to, for the
/// whole number to fit in 64 bits.
pub open spec fn limit(depth: nat) -> nat {
    if depth == 0 {
        0x1_0000_0000_0000_0000
    } else if depth == 1 {
        0x200_0000_0000_0000
    } else if depth == 2 {
        0x4_0000_0000_0000
    } else if depth == 3 {
        0x800_0000_0000
    } else if depth == 4 {
        0x10_0000_0000
    } else if depth == 5 {
        0x2000_0000
    } else if depth == 6 {
        0x40_0000
    } else if depth == 7 {
        0x8000
    } else if depth == 8 {
        0x100
    } else if depth == 9 {
        2
    } else {
        0
    }
}

/// Reads the digits of a number from `s`, whose first byte is digit number `depth`.
pub open spec fn parse_digits(s: Seq<u8>, depth: nat) -> Parsed
    decreases s.len(),
{
    if depth >= 10 {
        Parsed::Invalid
    } else if s.len() == 0 {
        Parsed::Incomplete
    } else if s[0] < 128 {
        if depth > 0 && s[0] == 0 {
            Parsed::Invalid
        } else if depth == 9 && s[0] > 1 {
            Parsed::Invalid
        } else {
            Parsed::Value { value: s[0] as nat, len: 1 }
        }
    } else {
        match parse_digits(s.skip(1), depth + 1) {
            Parsed::Value { value, len } => Parsed::Value {
                value: (s[0] - 128) as nat + 128 * value,
                len: len + 1,
            },
            Parsed::Incomplete => Parsed::Incomplete,
            Parsed::Invalid => Parsed::Invalid,
        }
    }
}

/// Reads a number at the start of `s`.
pub open spec fn parse(s: Seq<u8>) -> Parsed {
    parse_digits(s, 0)
}

/// A number that was read occupies at least one byte and no more than there are, and is below
/// the limit of its position.
pub proof fn lemma_parse_digits_bounds(s: Seq<u8>, depth: nat)
    ensures
        parse_digits(s, depth) matches Parsed::Value { value, len } ==> 1 <= len <= s.len() && len
            + depth <= 10 && value < limit(depth),
    decreases s.len(),
{
    if depth < 10 && s.len() > 0 && s[0] >= 128 {
        lemma_parse_digits_bounds(s.skip(1), depth + 1);
    }
}

/// A number that was read occupies between one and ten bytes, no more than there are, and fits
/// in 64 bits.
pub proof fn lemma_parse_bounds(s: Seq<u8>)
    ensures
        parse(s) matches Parsed::Value { value, len } ==> 1 <= len <= s.len() && len <= 10 && value
            <= u64::MAX,
{
    lemma_parse_digits_bounds(s, 0);
}

/// The encoding of a number is never empty and at most ten bytes long when the number fits in
/// 64 bits.
pub proof fn lemma_encode_len(v: nat, depth: nat)
    requires
        v < limit(depth),
    ensures
        1 <= encode(v).len() <= 10 - depth,
    decreases v,
{
    if v >= 128 {
        lemma_encode_len(v / 128, depth + 1);
    }
}

/// The encoding of a number below 128 is one byte, and that of a number below 16384 at most two.
pub proof fn lemma_encode_short(v: nat)
    ensures
        v < 128 ==> encode(v).len() == 1,
        v < 16384 ==> encode(v).len() <= 2,
{
    if 128 <= v < 16384 {
        assert(encode(v / 128).len() == 1);
    }
}

proof fn lemma_parse_digits_encode(v: nat, rest: Seq<u8>, depth: nat)
    requires
        v < limit(depth),
        depth > 0 ==> v > 0,
    ensures
        parse_digits(encode(v).add(rest), depth) == (Parsed::Value {
            value: v,
            len: encode(v).len(),
        }),
    decreases v,
{
    let s = encode(v).add(rest);
    if v < 128 {
        assert(s[0] == v);
    } else {
        let tail = encode(v / 128).add(rest);
        assert(s[0] == 128 + v % 128);
        assert(s.skip(1) =~= tail);
        lemma_parse_digits_encode(v / 128, rest, depth + 1);
    }
}

/// Reading what was written gives the number back, whatever follows it.
pub proof fn lemma_parse_encode(v: nat, rest: Seq<u8>)
    requires
        v <= u64::MAX,
    ensures
        parse(encode(v).add(rest)) == (Parsed::Value { value: v, len: encode(v).len() }),
{
    lemma_parse_digits_encode(v, rest, 0);
}

proof fn lemma_parse_digits_positive(s: Seq<u8>, depth: nat)
    requires
        depth > 0,
    ensures
        parse_digits(s, depth) matches Parsed::Value { value, len } ==> value > 0,
    decreases s.len(),
{
    if depth < 10 && s.len() > 0 && s[0] >= 128 {
        lemma_parse_digits_positive(s.skip(1), depth + 1);
    }
}

proof fn lemma_parse_digits_is_encoding(s: Seq<u8>, depth: nat)
    ensures
        parse_digits(s, depth) matches Parsed::Value { value, len } ==> s.take(len as int)
            == encode(value),
    decreases s.len(),
{
    lemma_parse_digits_bounds(s, depth);
    if let Parsed::Value { value, len } = parse_digits(s, depth) {
        if s[0] < 128 {
            assert(s.take(1) =~= seq![s[0]]);
        } else {
            let tail = s.skip(1);
            lemma_parse_digits_is_encoding(tail, depth + 1);
            lemma_parse_digits_bounds(tail, depth + 1);
            if let Parsed::Value { value: tv, len: tl } = parse_digits(tail, depth + 1) {
                lemma_parse_digits_positive(tail, depth + 1);
                assert(value / 128 == tv);
                assert(value % 128 == s[0] - 128);
                assert(s.take(len as int) =~= seq![s[0]].add(tail.take(tl as int)));
            }
        }
    }
}

/// The bytes that a number was read from are its encoding: no other bytes read as that number.
pub proof fn lemma_parse_is_encoding(s: Seq<u8>)
    ensures
        parse(s) matches Parsed::Value { value, len } ==> s.take(len as int) == encode(value),
{
    lemma_parse_digits_is_encoding(s, 0);
}

/// What [`decode`] returns.
#[derive(Clone, Copy, Debug, PartialEq, Eq)]
pub enum Decoded {
    /// A number, and how many bytes it occupies.
    Value { value: u64, len: usize },
    /// The bytes end before the number does.
    Incomplete,
    /// The bytes do not start with the shortest encoding of a 64-bit number.
    Invalid,
}

impl Decoded {
    /// The mathematical reading that this result stands for.
    pub open spec fn view(self) -> Parsed {
        match self {
            Decoded::Value { value, len } => Parsed::Value { value: value as nat, len: len as nat },
            Decoded::Incomplete => Parsed::Incomplete,
            Decoded::Invalid => Parsed::Invalid,
        }
    }
}

/// What the digits after a prefix of value `acc` and `depth` bytes make of the whole number.
spec fn shifted(p: Parsed, acc: nat, scale: nat, depth: nat) -> Parsed {
    match p {
        Parsed::Value { value, len } => Parsed::Value {
            value: acc + scale * value,
            len: depth + len,
        },
        Parsed::Incomplete => Parsed::Incomplete,
        Parsed::Invalid => Parsed::Invalid,
    }
}

/// Seven bits times the position of a digit: what that digit is multiplied by.
spec fn scale_at(depth: nat) -> nat
    decreases depth,
{
    if depth == 0 {
        1
    } else {
        128 * scale_at((depth - 1) as nat)
    }
}

proof fn lemma_scale_limit(depth: nat)
    requires
        depth <= 9,
    ensures
        scale_at(depth) * limit(depth) == 0x1_0000_0000_0000_0000,
        scale_at(depth) >= 1,
    decreases depth,
{
    if depth > 0 {
        lemma_scale_limit((depth - 1) as nat);
        let below = scale_at((depth - 1) as nat);
        let lower = limit((depth - 1) as nat);
        let here = limit(depth);
        assert(lower == 128 * here);
        assert(scale_at(depth) == 128 * below);
        assert((128 * below) * here == below * lower) by (nonlinear_arith)
            requires
                lower == 128 * here,
        ;
        assert(scale_at(depth) * here == below * lower);
    } else {
        assert(scale_at(depth) == 1);
        assert(scale_at(depth) * limit(depth) == limit(depth));
    }
}

/// Reads a number at the start of `bytes`.
pub fn decode(bytes: &[u8]) -> (r: Decoded)
    ensures
        r@ == parse(bytes@),
{
    let mut value: u64 = 0;
    let mut scale: u64 = 1;
    let mut i: usize = 0;
    proof {
        assert(bytes@.skip(0) =~= bytes@);
    }
    while i < bytes.len()
        invariant
            i <= bytes.len(),
            i <= 9,
            scale == scale_at(i as nat),
            value < scale,
            parse(bytes@) == shifted(
                parse_digits(bytes@.skip(i as int), i as nat),
                value as nat,
                scale as nat,
                i as nat,
            ),
        decreases bytes.len() - i,
    {
        let b: u8 = bytes[i];
        let ghost tail = bytes@.skip(i as int);
        proof {
            assert(tail[0] == b);
            assert(tail.skip(1) =~= bytes@.skip(i + 1));
            lemma_scale_limit(i as nat);
            lemma_parse_digits_bounds(tail.skip(1), (i + 1) as nat);
        }
        if b < 128 {
            if i > 0 && b == 0 {
                return Decoded::Invalid;
            }
            if i == 9 && b > 1 {
                return Decoded::Invalid;
            }
            let digit: u64 = b as u64;
            proof {
                assert(digit < limit(i as nat));
                assert(scale * digit <= scale * (limit(i as nat) - 1)) by (nonlinear_arith)
                    requires
                        digit <= limit(i as nat) - 1,
                        scale >= 0,
                ;
                assert(scale * (limit(i as nat) - 1) == scale * limit(i as nat) - scale)
                    by (nonlinear_arith);
            }
            let total: u64 = value + scale * digit;
            return Decoded::Value { value: total, len: i + 1 };
        }
        if i == 9 {
            return Decoded::Invalid;
        }
        let digit: u64 = (b - 128) as u64;
        proof {
            assert(limit(i as nat) >= 256);
            assert(scale * 128 <= 0x8000_0000_0000_0000) by (nonlinear_arith)
                requires
                    scale * limit(i as nat) == 0x1_0000_0000_0000_0000,
                    limit(i as nat) >= 256,
                    scale >= 1,
            ;
            assert(scale * digit <= scale * 127) by (nonlinear_arith)
                requires
                    digit <= 127,
                    scale >= 0,
            ;
            assert(scale_at((i + 1) as nat) == 128 * scale);
            let inner = parse_digits(tail.skip(1), (i + 1) as nat);
            if let Parsed::Value { value: tv, len: tl } = inner {
                assert(value + scale * (digit + 128 * tv) == value + scale * digit + (128 * scale)
                    * tv) by (nonlinear_arith);
            }
        }
        value = value + scale * digit;
        scale = scale * 128;
        i = i + 1;
    }
    Decoded::Incomplete
}

/// Appends the encoding of `value` to `out`.
pub fn encode_into(value: u64, out: &mut Vec<u8>)
    ensures
        final(out)@ == old(out)@.add(encode(value as nat)),
{
    let mut rest: u64 = value;
    while rest >= 128
        invariant
            old(out)@.add(encode(value as nat)) == out@.add(encode(rest as nat)),
        decreases rest,
    {
        let byte: u8 = (128 + rest % 128) as u8;
        proof {
            assert(out@.push(byte).add(encode((rest / 128) as nat)) =~= out@.add(
                encode(rest as nat),
            ));
        }
        out.push(byte);
        rest = rest / 128;
    }
    proof {
        assert(out@.push(rest as u8) =~= out@.add(encode(rest as nat)));
    }
    out.push(rest as u8);
}

/// Returns the encoding of `value`.
pub fn encode_u64(value: u64) -> (out: Vec<u8>)
    ensures
        out@ == encode(value as nat),
{
    let mut out: Vec<u8> = Vec::new();
    encode_into(value, &mut out);
    proof {
        assert(Seq::<u8>::empty().add(encode(value as nat)) =~= encode(value as nat));
    }
    out
}

} // verus!
