use vstd::prelude::*;

verus! {

/// The unsigned LEB128 value starting at `i`: the low seven bits of each byte,
/// least significant group first, ending at the first byte without the
/// continuation bit. `None` when the encoding runs off the end of the bytes.
pub open spec fn uleb_at(b: Seq<u8>, i: int) -> Option<(nat, int)>
    decreases b.len() - i,
{
    if i < 0 || i >= b.len() {
        None
    } else {
        let low = (b[i] & 0x7f) as nat;
        if b[i] < 0x80 {
            Some((low, i + 1))
        } else {
            match uleb_at(b, i + 1) {
                None => None,
                Some((v, n)) => Some(((low + v * 128) as nat, n)),
            }
        }
    }
}

/// The signed LEB128 value starting at `i`, the final group sign-extended.
pub open spec fn sleb_at(b: Seq<u8>, i: int) -> Option<(int, int)>
    decreases b.len() - i,
{
    if i < 0 || i >= b.len() {
        None
    } else {
        let low = (b[i] & 0x7f) as int;
        if b[i] < 0x80 {
            if b[i] & 0x40 != 0 {
                Some((low - 128, i + 1))
            } else {
                Some((low, i + 1))
            }
        } else {
            match sleb_at(b, i + 1) {
                None => None,
                Some((v, n)) => Some((low + v * 128, n)),
            }
        }
    }
}

/// Unsigned LEB128 decoding. Succeeds exactly when an encoding starts at
/// `pos` and its value fits in 64 bits.
pub fn decode_uleb(b: &Vec<u8>, pos: usize) -> (r: Option<(u64, usize)>)
    ensures
        match uleb_at(b@, pos as int) {
            None => r is None,
            Some((v, n)) => if v < 0x10000000000000000 {
                &&& r matches Some(p)
                &&& p.0 == v
                &&& p.1 == n
            } else {
                r is None
            },
        },
    decreases b@.len() - pos,
{
    if pos >= b.len() {
        return None;
    }
    let byte = b[pos];
    assert(byte & 0x7f <= 0x7f) by (bit_vector);
    let low: u64 = (byte & 0x7f) as u64;
    if byte < 0x80 {
        Some((low, pos + 1))
    } else {
        match decode_uleb(b, pos + 1) {
            None => None,
            Some((v, n)) => {
                if v <= (u64::MAX - low) / 128 {
                    assert(low + v * 128 <= u64::MAX) by (nonlinear_arith)
                        requires
                            v <= (u64::MAX - low) / 128,
                            low <= 0x7f,
                    {}
                    Some((low + v * 128, n))
                } else {
                    assert(low + v * 128 > u64::MAX) by (nonlinear_arith)
                        requires
                            v > (u64::MAX - low) / 128,
                            0 <= low <= 0x7f,
                            v >= 0,
                    {}
                    None
                }
            },
        }
    }
}

/// Signed LEB128 decoding. Succeeds exactly when an encoding starts at `pos`
/// and its value fits in a signed 64-bit integer.
pub fn decode_sleb(b: &Vec<u8>, pos: usize) -> (r: Option<(i64, usize)>)
    ensures
        match sleb_at(b@, pos as int) {
            None => r is None,
            Some((v, n)) => if -0x8000000000000000 <= v < 0x8000000000000000 {
                &&& r matches Some(p)
                &&& p.0 == v
                &&& p.1 == n
            } else {
                r is None
            },
        },
    decreases b@.len() - pos,
{
    if pos >= b.len() {
        return None;
    }
    let byte = b[pos];
    assert(byte & 0x7f <= 0x7f) by (bit_vector);
    let low: i64 = (byte & 0x7f) as i64;
    if byte < 0x80 {
        if byte & 0x40 != 0 {
            Some((low - 128, pos + 1))
        } else {
            Some((low, pos + 1))
        }
    } else {
        match decode_sleb(b, pos + 1) {
            None => None,
            Some((v, n)) => {
                let t: i128 = low as i128 + 128 * (v as i128);
                if i64::MIN as i128 <= t && t <= i64::MAX as i128 {
                    Some((t as i64, n))
                } else {
                    None
                }
            },
        }
    }
}

} // verus!
