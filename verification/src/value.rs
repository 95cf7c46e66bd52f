use vstd::prelude::*;
use vstd::arithmetic::power2::{pow2, lemma_pow2_adds, lemma_pow2_pos, lemma2_to64, lemma2_to64_rest};
use vstd::string::StringExecFns;

verus! {

/// The little-endian value of a byte span: the first byte is least significant.
pub open spec fn le_value(b: Seq<u8>) -> nat
    decreases b.len(),
{
    if b.len() == 0 {
        0
    } else {
        (b.first() + 256 * le_value(b.drop_first())) as nat
    }
}

/// A span of n bytes holds a value below 2^(8n).
pub proof fn lemma_le_value_bound(b: Seq<u8>)
    ensures
        le_value(b) < pow2(8 * b.len()),
    decreases b.len(),
{
    if b.len() == 0 {
        lemma2_to64();
    } else {
        lemma_le_value_bound(b.drop_first());
        lemma_pow2_adds(8, 8 * (b.len() - 1) as nat);
        lemma2_to64();
        assert(b.first() + 256 * le_value(b.drop_first()) <= 255 + 256 * (pow2(8 * (b.len() - 1)
            as nat) - 1)) by (nonlinear_arith)
            requires
                le_value(b.drop_first()) <= pow2(8 * (b.len() - 1) as nat) - 1,
                b.first() <= 255,
        {}
    }
}

/// The last byte carries the top eight bits.
pub proof fn lemma_le_value_split(b: Seq<u8>)
    requires
        b.len() > 0,
    ensures
        le_value(b) == le_value(b.drop_last()) + b.last() * pow2(8 * (b.len() - 1) as nat),
    decreases b.len(),
{
    if b.len() == 1 {
        assert(b.drop_first() =~= Seq::<u8>::empty());
        assert(b.drop_last() =~= Seq::<u8>::empty());
        lemma2_to64();
        assert(le_value(b.drop_first()) == 0);
        assert(le_value(b.drop_last()) == 0);
        assert(le_value(b) == b.first());
        assert(b.first() == b.last());
        assert(pow2(8 * (b.len() - 1) as nat) == 1);
        assert(b.last() * pow2(8 * (b.len() - 1) as nat) == b.last()) by (nonlinear_arith)
            requires
                pow2(8 * (b.len() - 1) as nat) == 1,
        {}
        assert(le_value(b) == le_value(b.drop_last()) + b.last() * pow2(8 * (b.len() - 1) as nat));
    } else {
        lemma_le_value_split(b.drop_first());
        assert(b.drop_first().drop_last() =~= b.drop_last().drop_first());
        assert(b.drop_first().last() == b.last());
        lemma_pow2_adds(8, 8 * (b.len() - 2) as nat);
        lemma2_to64();
        let rest = le_value(b.drop_last().drop_first());
        let p = pow2(8 * (b.len() - 2) as nat);
        assert(256 * (rest + b.last() * p) == 256 * rest + b.last() * (256 * p))
            by (nonlinear_arith);
        assert(b.drop_last().first() == b.first());
        assert(le_value(b) == b.first() + 256 * le_value(b.drop_first()));
        assert(le_value(b.drop_first()) == rest + b.last() * p);
        assert(le_value(b.drop_last()) == b.first() + 256 * rest);
        assert(pow2(8 * (b.len() - 1) as nat) == 256 * p);
        assert(256 * le_value(b.drop_first()) == 256 * (rest + b.last() * p)) by (nonlinear_arith)
            requires
                le_value(b.drop_first()) == rest + b.last() * p,
        {}
        assert(le_value(b) == b.first() + 256 * rest + b.last() * (256 * p));
        assert(le_value(b) == le_value(b.drop_last()) + b.last() * (256 * p));
        assert(b.last() * (256 * p) == b.last() * pow2(8 * (b.len() - 1) as nat))
            by (nonlinear_arith)
            requires
                256 * p == pow2(8 * (b.len() - 1) as nat),
        {}
        assert(le_value(b) == le_value(b.drop_last()) + b.last() * pow2(8 * (b.len() - 1) as nat));
    }
}

/// The unsigned integer a little-endian span of at most eight bytes decodes to.
pub fn decode_unsigned_le(b: &Vec<u8>) -> (r: u64)
    requires
        b@.len() <= 8,
    ensures
        r == le_value(b@),
{
    let mut k: usize = b.len();
    let mut acc: u64 = 0;
    proof {
        assert(b@.subrange(k as int, b@.len() as int) =~= Seq::<u8>::empty());
        lemma2_to64();
    }
    while k > 0
        invariant
            k <= b@.len() <= 8,
            acc == le_value(b@.subrange(k as int, b@.len() as int)),
            acc < pow2(8 * (b@.len() - k) as nat),
        decreases k,
    {
        k = k - 1;
        let ghost tail = b@.subrange(k as int, b@.len() as int);
        proof {
            assert(tail.first() == b@[k as int]);
            assert(tail.drop_first() =~= b@.subrange(k + 1, b@.len() as int));
            lemma_pow2_adds(8, 8 * (b@.len() - k - 1) as nat);
            lemma2_to64();
            assert(b@[k as int] + 256 * (acc as int) < 256 * pow2(8 * (b@.len() - k - 1) as nat))
                by (nonlinear_arith)
                requires
                    acc < pow2(8 * (b@.len() - k - 1) as nat),
                    b@[k as int] <= 255,
            {}
            assert(pow2(8 * (b@.len() - k) as nat) <= pow2(8 * 8)) by {
                if 8 * (b@.len() - k) < 64 {
                    lemma_pow2_adds(8 * (b@.len() - k) as nat, (64 - 8 * (b@.len() - k)) as nat);
                    lemma_pow2_pos((64 - 8 * (b@.len() - k)) as nat);
                    assert(pow2(8 * (b@.len() - k) as nat) * 1 <= pow2(8 * (b@.len() - k) as nat)
                        * pow2((64 - 8 * (b@.len() - k)) as nat)) by (nonlinear_arith)
                        requires
                            pow2((64 - 8 * (b@.len() - k)) as nat) >= 1,
                            pow2(8 * (b@.len() - k) as nat) >= 0,
                    {}
                }
            }
        }
        acc = b[k] as u64 + 256 * acc;
    }
    proof {
        assert(b@.subrange(0, b@.len() as int) =~= b@);
    }
    acc
}

/// The two's-complement reading of a little-endian span: the value itself
/// below half the range, the value less 2^(8n) from there up.
pub open spec fn le_signed(b: Seq<u8>) -> int {
    if le_value(b) < pow2((8 * b.len() - 4) as nat) * 8 {
        le_value(b) as int
    } else {
        le_value(b) - pow2(8 * b.len())
    }
}

/// The signed integer a little-endian span of one to eight bytes decodes to.
pub fn decode_signed_le(b: &Vec<u8>) -> (r: i64)
    requires
        1 <= b@.len() <= 8,
    ensures
        r == le_signed(b@),
{
    let u = decode_unsigned_le(b);
    let n = b.len();
    let last = b[n - 1];
    proof {
        lemma_le_value_split(b@);
        lemma_le_value_bound(b@);
        lemma_le_value_bound(b@.drop_last());
        lemma_pow2_adds((8 * b@.len() - 8) as nat, 4);
        lemma_pow2_adds((8 * b@.len() - 4) as nat, 3);
        lemma_pow2_adds((8 * b@.len() - 8) as nat, 7);
        lemma_pow2_adds((8 * b@.len() - 8) as nat, 8);
        lemma2_to64();
        // the sign threshold in terms of the top byte
        assert(pow2((8 * b@.len() - 4) as nat) * 8 == 128 * pow2((8 * b@.len() - 8) as nat))
            by (nonlinear_arith)
            requires
                pow2((8 * b@.len() - 4) as nat) == pow2((8 * b@.len() - 8) as nat) * 16,
        {}
        if last >= 0x80 {
            assert(last * pow2((8 * b@.len() - 8) as nat) >= 128 * pow2((8 * b@.len() - 8) as nat))
                by (nonlinear_arith)
                requires
                    last >= 128,
                    pow2((8 * b@.len() - 8) as nat) > 0,
            {}
        } else {
            assert(le_value(b@.drop_last()) + last * pow2((8 * b@.len() - 8) as nat)
                < 128 * pow2((8 * b@.len() - 8) as nat)) by (nonlinear_arith)
                requires
                    last <= 127,
                    le_value(b@.drop_last()) < pow2((8 * b@.len() - 8) as nat),
                    pow2((8 * b@.len() - 8) as nat) > 0,
            {}
        }
        lemma2_to64();
        assert(pow2((8 * b@.len() - 8) as nat) * 256 <= pow2(64)) by {
            lemma_pow2_pos((64 - 8 * b@.len()) as nat);
            lemma_pow2_adds(8 * b@.len() as nat, (64 - 8 * b@.len()) as nat);
            assert(pow2(8 * b@.len() as nat) * 1 <= pow2(8 * b@.len() as nat) * pow2((64 - 8
                * b@.len()) as nat)) by (nonlinear_arith)
                requires
                    pow2((64 - 8 * b@.len()) as nat) >= 1,
                    pow2(8 * b@.len() as nat) >= 0,
            {}
        }
    }
    if last >= 0x80 {
        let m: u32 = 8 * (n as u32);
        let modulus: i128 = 1i128 << m;
        proof {
            assert(1i128 << (8 * (b@.len() as u32)) == pow2(8 * b@.len() as nat)) by {
                let w = b@.len() as u32;
                assert(1 <= w <= 8 ==> 1i128 << (8 * w) == (if w == 1 { 0x100i128 } else if w == 2
                    { 0x10000i128 } else if w == 3 { 0x1000000i128 } else if w == 4 {
                    0x100000000i128 } else if w == 5 { 0x10000000000i128 } else if w == 6 {
                    0x1000000000000i128 } else if w == 7 { 0x100000000000000i128 } else {
                    0x10000000000000000i128 })) by (bit_vector);
                assert(pow2(8) == 0x100 && pow2(16) == 0x10000 && pow2(24) == 0x1000000 && pow2(32)
                    == 0x100000000 && pow2(40) == 0x10000000000 && pow2(48) == 0x1000000000000
                    && pow2(56) == 0x100000000000000 && pow2(64) == 0x10000000000000000)
                    by { lemma2_to64(); lemma2_to64_rest(); };
            }
        }
        let t: i128 = u as i128 - modulus;
        t as i64
    } else {
        u as i64
    }
}

/// The decimal digits of an unsigned value, most significant first.
pub open spec fn dec_digit(d: nat) -> char {
    if d == 0 {
        '0'
    } else if d == 1 {
        '1'
    } else if d == 2 {
        '2'
    } else if d == 3 {
        '3'
    } else if d == 4 {
        '4'
    } else if d == 5 {
        '5'
    } else if d == 6 {
        '6'
    } else if d == 7 {
        '7'
    } else if d == 8 {
        '8'
    } else {
        '9'
    }
}

/// The decimal rendering of an unsigned value.
pub open spec fn dec_u(n: nat) -> Seq<char>
    decreases n,
{
    if n < 10 {
        seq![dec_digit(n)]
    } else {
        dec_u(n / 10).push(dec_digit(n % 10))
    }
}

/// The decimal rendering of a signed value: a minus sign before the magnitude.
pub open spec fn dec_i(v: int) -> Seq<char> {
    if v < 0 {
        seq!['-'] + dec_u((-v) as nat)
    } else {
        dec_u(v as nat)
    }
}

/// One decimal digit as text.
fn digit_str(d: u64) -> (r: &'static str)
    requires
        d < 10,
    ensures
        r@ == seq![dec_digit(d as nat)],
{
    proof {
        reveal_strlit("0");
        reveal_strlit("1");
        reveal_strlit("2");
        reveal_strlit("3");
        reveal_strlit("4");
        reveal_strlit("5");
        reveal_strlit("6");
        reveal_strlit("7");
        reveal_strlit("8");
        reveal_strlit("9");
    }
    let r: &'static str = if d == 0 {
        "0"
    } else if d == 1 {
        "1"
    } else if d == 2 {
        "2"
    } else if d == 3 {
        "3"
    } else if d == 4 {
        "4"
    } else if d == 5 {
        "5"
    } else if d == 6 {
        "6"
    } else if d == 7 {
        "7"
    } else if d == 8 {
        "8"
    } else {
        "9"
    };
    proof {
        assert(r@ =~= seq![dec_digit(d as nat)]);
    }
    r
}

/// An unsigned value in decimal.
pub fn format_unsigned(n: u64) -> (r: String)
    ensures
        r@ == dec_u(n as nat),
    decreases n,
{
    if n < 10 {
        let s = String::from_str(digit_str(n));
        proof {
            assert(s@ =~= dec_u(n as nat));
        }
        s
    } else {
        let mut s = format_unsigned(n / 10);
        s.append(digit_str(n % 10));
        proof {
            assert(s@ =~= dec_u(n as nat));
        }
        s
    }
}

/// A signed value in decimal.
pub fn format_signed(v: i64) -> (r: String)
    ensures
        r@ == dec_i(v as int),
{
    if v >= 0 {
        format_unsigned(v as u64)
    } else {
        let mag: u64 = (-(v as i128)) as u64;
        let mut s = String::from_str("-");
        proof {
            reveal_strlit("-");
            assert(s@ =~= seq!['-']);
        }
        s.append(format_unsigned(mag).as_str());
        proof {
            assert(s@ =~= dec_i(v as int));
        }
        s
    }
}

} // verus!
