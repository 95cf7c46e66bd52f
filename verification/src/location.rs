use vstd::prelude::*;
use crate::error::DwarfError;
use crate::leb128::{uleb_at, sleb_at, decode_uleb, decode_sleb};

verus! {

/// One decoded operation of the location-description mini-language. The
/// encoding is straight-line: no operation branches.
#[derive(Clone, Copy, PartialEq, Eq, Structural, Debug)]
pub enum LocationOp {
    /// Push an absolute linear-memory address.
    Address(u64),
    /// Push the frame base plus a signed offset.
    FrameBaseOffset(i64),
    /// Push the value of the indexed local.
    Local(u64),
    /// Push the value of the indexed global.
    Global(u64),
    /// Push the value of the indexed operand-stack slot.
    OperandStack(u64),
    /// Add an unsigned constant to the top of the stack.
    PlusUconst(u64),
    /// Mark the final top of stack as the value itself, not an address.
    StackValue,
}

/// Operation codes of the encoding.
pub const OP_ADDR: u8 = 0x03;

pub const OP_PLUS_UCONST: u8 = 0x23;

pub const OP_FBREG: u8 = 0x91;

pub const OP_STACK_VALUE: u8 = 0x9f;

pub const OP_WASM_LOCATION: u8 = 0xed;

/// A four-byte little-endian word read at `i`.
pub open spec fn u32_le_at(b: Seq<u8>, i: int) -> nat {
    (b[i] + b[i + 1] * 0x100 + b[i + 2] * 0x10000 + b[i + 3] * 0x1000000) as nat
}

/// The operation encoded at `i`, with the position just past it. `None` when
/// the code is unknown to this engine or its operand is malformed.
pub open spec fn op_at(b: Seq<u8>, i: int) -> Option<(LocationOp, int)> {
    if i < 0 || i >= b.len() {
        None
    } else if b[i] == OP_ADDR {
        if i + 5 <= b.len() {
            Some((LocationOp::Address(u32_le_at(b, i + 1) as u64), i + 5))
        } else {
            None
        }
    } else if b[i] == OP_PLUS_UCONST {
        match uleb_at(b, i + 1) {
            Some((v, n)) => if v < 0x10000000000000000 {
                Some((LocationOp::PlusUconst(v as u64), n))
            } else {
                None
            },
            None => None,
        }
    } else if b[i] == OP_FBREG {
        match sleb_at(b, i + 1) {
            Some((v, n)) => if -0x8000000000000000 <= v < 0x8000000000000000 {
                Some((LocationOp::FrameBaseOffset(v as i64), n))
            } else {
                None
            },
            None => None,
        }
    } else if b[i] == OP_STACK_VALUE {
        Some((LocationOp::StackValue, i + 1))
    } else if b[i] == OP_WASM_LOCATION {
        if i + 1 < b.len() {
            let kind = b[i + 1];
            if kind == 0x00 || kind == 0x01 || kind == 0x02 {
                match uleb_at(b, i + 2) {
                    Some((v, n)) => if v < 0x10000000000000000 {
                        if kind == 0x00 {
                            Some((LocationOp::Local(v as u64), n))
                        } else if kind == 0x01 {
                            Some((LocationOp::Global(v as u64), n))
                        } else {
                            Some((LocationOp::OperandStack(v as u64), n))
                        }
                    } else {
                        None
                    },
                    None => None,
                }
            } else if kind == 0x03 {
                if i + 6 <= b.len() {
                    Some((LocationOp::Global(u32_le_at(b, i + 2) as u64), i + 6))
                } else {
                    None
                }
            } else {
                None
            }
        } else {
            None
        }
    } else {
        None
    }
}

/// The whole operation list encoded from `i` to the end of the bytes.
pub open spec fn ops_at(b: Seq<u8>, i: int) -> Option<Seq<LocationOp>>
    decreases b.len() - i,
{
    if i >= b.len() {
        Some(Seq::empty())
    } else {
        match op_at(b, i) {
            None => None,
            Some((op, n)) => if i < n <= b.len() {
                match ops_at(b, n) {
                    None => None,
                    Some(rest) => Some(seq![op] + rest),
                }
            } else {
                None
            },
        }
    }
}

proof fn lemma_uleb_at_advances(b: Seq<u8>, i: int)
    ensures
        match uleb_at(b, i) {
            Some((v, n)) => i < n <= b.len(),
            None => true,
        },
    decreases b.len() - i,
{
    if 0 <= i < b.len() && b[i] >= 0x80 {
        lemma_uleb_at_advances(b, i + 1);
    }
}

proof fn lemma_sleb_at_advances(b: Seq<u8>, i: int)
    ensures
        match sleb_at(b, i) {
            Some((v, n)) => i < n <= b.len(),
            None => true,
        },
    decreases b.len() - i,
{
    if 0 <= i < b.len() && b[i] >= 0x80 {
        lemma_sleb_at_advances(b, i + 1);
    }
}

/// Read a four-byte little-endian word.
fn read_u32_le(b: &Vec<u8>, i: usize) -> (r: u32)
    requires
        i + 4 <= b@.len(),
    ensures
        r == u32_le_at(b@, i as int),
{
    let len = b.len();
    assert(i + 4 <= len);
    let r = b[i] as u32 | (b[i + 1] as u32) << 8u32 | (b[i + 2] as u32) << 16u32 | (b[i + 3]
        as u32) << 24u32;
    proof {
        let (b0, b1, b2, b3) = (b@[i as int], b@[i + 1], b@[i + 2], b@[i + 3]);
        assert(b0 as u32 | (b1 as u32) << 8u32 | (b2 as u32) << 16u32 | (b3 as u32) << 24u32
            == b0 + b1 * 0x100 + b2 * 0x10000 + b3 * 0x1000000) by (bit_vector);
    }
    r
}

/// Decode one operation.
fn decode_op(b: &Vec<u8>, pos: usize) -> (r: Option<(LocationOp, usize)>)
    ensures
        match op_at(b@, pos as int) {
            None => r is None,
            Some((op, n)) => {
                &&& r matches Some(p)
                &&& p.0 == op
                &&& p.1 == n
            },
        },
{
    if pos >= b.len() {
        return None;
    }
    let code = b[pos];
    if code == OP_ADDR {
        if b.len() - pos >= 5 {
            let a = read_u32_le(b, pos + 1);
            Some((LocationOp::Address(a as u64), pos + 5))
        } else {
            None
        }
    } else if code == OP_PLUS_UCONST {
        match decode_uleb(b, pos + 1) {
            Some((v, n)) => Some((LocationOp::PlusUconst(v), n)),
            None => None,
        }
    } else if code == OP_FBREG {
        match decode_sleb(b, pos + 1) {
            Some((v, n)) => Some((LocationOp::FrameBaseOffset(v), n)),
            None => None,
        }
    } else if code == OP_STACK_VALUE {
        Some((LocationOp::StackValue, pos + 1))
    } else if code == OP_WASM_LOCATION {
        if pos + 1 < b.len() {
            let kind = b[pos + 1];
            if kind == 0x00 || kind == 0x01 || kind == 0x02 {
                match decode_uleb(b, pos + 2) {
                    Some((v, n)) => {
                        if kind == 0x00 {
                            Some((LocationOp::Local(v), n))
                        } else if kind == 0x01 {
                            Some((LocationOp::Global(v), n))
                        } else {
                            Some((LocationOp::OperandStack(v), n))
                        }
                    },
                    None => None,
                }
            } else if kind == 0x03 {
                if b.len() - pos >= 6 {
                    let a = read_u32_le(b, pos + 2);
                    Some((LocationOp::Global(a as u64), pos + 6))
                } else {
                    None
                }
            } else {
                None
            }
        } else {
            None
        }
    } else {
        None
    }
}

/// Decode a whole location expression. `UnsupportedLocationOp` exactly when
/// some operation code is unknown to this engine or an operand is malformed:
/// better to report a value unavailable than to guess.
pub fn decode_expression(b: &Vec<u8>) -> (r: Result<Vec<LocationOp>, DwarfError>)
    ensures
        match r {
            Ok(ops) => ops_at(b@, 0) == Some(ops@),
            Err(e) => {
                &&& e == DwarfError::UnsupportedLocationOp
                &&& ops_at(b@, 0) is None
            },
        },
{
    let mut ops: Vec<LocationOp> = Vec::new();
    let mut pos: usize = 0;
    while pos < b.len()
        invariant
            pos <= b@.len(),
            ops_at(b@, 0) == match ops_at(b@, pos as int) {
                None => None::<Seq<LocationOp>>,
                Some(rest) => Some(ops@ + rest),
            },
        decreases b@.len() - pos,
    {
        let ghost prev = pos as int;
        match decode_op(b, pos) {
            None => {
                return Err(DwarfError::UnsupportedLocationOp);
            },
            Some((op, n)) => {
                proof {
                    lemma_uleb_at_advances(b@, prev + 1);
                    lemma_uleb_at_advances(b@, prev + 2);
                    lemma_sleb_at_advances(b@, prev + 1);
                    assert(n > prev);
                }
                ops.push(op);
                pos = n;
                proof {
                    assert(match ops_at(b@, pos as int) {
                        None => true,
                        Some(rest) => ops@ + rest =~= ops@.drop_last() + (seq![op] + rest),
                    });
                }
            },
        }
    }
    proof {
        assert(ops_at(b@, pos as int) == Some(Seq::<LocationOp>::empty()));
        assert(ops@ + Seq::<LocationOp>::empty() =~= ops@);
    }
    Ok(ops)
}

/// Where a variable's value was found: at a linear-memory address, or already
/// materialized as a scalar on the evaluation stack.
#[derive(Clone, Copy, PartialEq, Eq, Structural, Debug)]
pub enum EvaluatedLocation {
    Memory { address: u64 },
    Scalar { value: u64 },
}

/// One step of the stack machine: `None` when the operation cannot be carried
/// out against this snapshot (an index out of range, an empty stack, or an
/// address outside the 64-bit space).
pub open spec fn step_op(
    op: LocationOp,
    st: Seq<u64>,
    locals: Seq<u64>,
    globals: Seq<u64>,
    operand_stack: Seq<u64>,
    frame_base: u64,
) -> Option<Seq<u64>> {
    match op {
        LocationOp::Address(a) => Some(st.push(a)),
        LocationOp::FrameBaseOffset(off) => if 0 <= frame_base + off <= u64::MAX {
            Some(st.push((frame_base + off) as u64))
        } else {
            None
        },
        LocationOp::Local(i) => if i < locals.len() {
            Some(st.push(locals[i as int]))
        } else {
            None
        },
        LocationOp::Global(i) => if i < globals.len() {
            Some(st.push(globals[i as int]))
        } else {
            None
        },
        LocationOp::OperandStack(i) => if i < operand_stack.len() {
            Some(st.push(operand_stack[i as int]))
        } else {
            None
        },
        LocationOp::PlusUconst(c) => if st.len() > 0 && st.last() + c <= u64::MAX {
            Some(st.drop_last().push((st.last() + c) as u64))
        } else {
            None
        },
        LocationOp::StackValue => Some(st),
    }
}

/// The machine stack after all operations from `i` on.
pub open spec fn run_ops(
    ops: Seq<LocationOp>,
    i: int,
    st: Seq<u64>,
    locals: Seq<u64>,
    globals: Seq<u64>,
    operand_stack: Seq<u64>,
    frame_base: u64,
) -> Option<Seq<u64>>
    decreases ops.len() - i,
{
    if i < 0 || i >= ops.len() {
        Some(st)
    } else {
        match step_op(ops[i], st, locals, globals, operand_stack, frame_base) {
            None => None,
            Some(st2) => run_ops(ops, i + 1, st2, locals, globals, operand_stack, frame_base),
        }
    }
}

/// What evaluating a whole expression yields: the final top of stack, read as
/// a scalar when the expression ends in a stack-value mark, as a memory
/// address otherwise.
pub open spec fn spec_evaluate(
    ops: Seq<LocationOp>,
    locals: Seq<u64>,
    globals: Seq<u64>,
    operand_stack: Seq<u64>,
    frame_base: u64,
) -> Option<EvaluatedLocation> {
    match run_ops(ops, 0, Seq::empty(), locals, globals, operand_stack, frame_base) {
        None => None,
        Some(st) => if st.len() == 0 {
            None
        } else if ops.len() > 0 && ops.last() is StackValue {
            Some(EvaluatedLocation::Scalar { value: st.last() })
        } else {
            Some(EvaluatedLocation::Memory { address: st.last() })
        },
    }
}

/// Evaluate a decoded location expression against a runtime snapshot: a pure
/// fold of the operations over an explicit operand stack. The snapshot is
/// only read. `UnsupportedLocationOp` exactly when the fold cannot complete
/// or ends with nothing on the stack.
pub fn evaluate(
    ops: &Vec<LocationOp>,
    locals: &Vec<u64>,
    globals: &Vec<u64>,
    operand_stack: &Vec<u64>,
    frame_base: u64,
) -> (r: Result<EvaluatedLocation, DwarfError>)
    ensures
        match r {
            Ok(loc) => spec_evaluate(ops@, locals@, globals@, operand_stack@, frame_base)
                == Some(loc),
            Err(e) => {
                &&& e == DwarfError::UnsupportedLocationOp
                &&& spec_evaluate(ops@, locals@, globals@, operand_stack@, frame_base) is None
            },
        },
{
    let mut st: Vec<u64> = Vec::new();
    let mut i: usize = 0;
    while i < ops.len()
        invariant
            i <= ops@.len(),
            run_ops(ops@, 0, Seq::empty(), locals@, globals@, operand_stack@, frame_base)
                == run_ops(ops@, i as int, st@, locals@, globals@, operand_stack@, frame_base),
        decreases ops@.len() - i,
    {
        let op = ops[i];
        match op {
            LocationOp::Address(a) => {
                st.push(a);
            },
            LocationOp::FrameBaseOffset(off) => {
                let ok = if off >= 0 {
                    frame_base <= u64::MAX - (off as u64)
                } else {
                    frame_base >= ((-(off as i128)) as u64)
                };
                if !ok {
                    return Err(DwarfError::UnsupportedLocationOp);
                }
                let a: u64 = if off >= 0 {
                    frame_base + (off as u64)
                } else {
                    frame_base - ((-(off as i128)) as u64)
                };
                st.push(a);
            },
            LocationOp::Local(ix) => {
                if ix >= locals.len() as u64 {
                    return Err(DwarfError::UnsupportedLocationOp);
                }
                st.push(locals[ix as usize]);
            },
            LocationOp::Global(ix) => {
                if ix >= globals.len() as u64 {
                    return Err(DwarfError::UnsupportedLocationOp);
                }
                st.push(globals[ix as usize]);
            },
            LocationOp::OperandStack(ix) => {
                if ix >= operand_stack.len() as u64 {
                    return Err(DwarfError::UnsupportedLocationOp);
                }
                st.push(operand_stack[ix as usize]);
            },
            LocationOp::PlusUconst(c) => {
                if st.len() == 0 {
                    return Err(DwarfError::UnsupportedLocationOp);
                }
                let top = st[st.len() - 1];
                if top > u64::MAX - c {
                    return Err(DwarfError::UnsupportedLocationOp);
                }
                let _ = st.pop();
                st.push(top + c);
                proof {
                    assert(st@ =~= st@.drop_last().push((top + c) as u64).drop_last().push(
                        (top + c) as u64,
                    ));
                }
            },
            LocationOp::StackValue => {
            },
        }
        i = i + 1;
    }
    if st.len() == 0 {
        return Err(DwarfError::UnsupportedLocationOp);
    }
    let top = st[st.len() - 1];
    if ops.len() > 0 && matches!(ops[ops.len() - 1], LocationOp::StackValue) {
        Ok(EvaluatedLocation::Scalar { value: top })
    } else {
        Ok(EvaluatedLocation::Memory { address: top })
    }
}

} // verus!
