use vstd::prelude::*;
use crate::error::DwarfError;
use crate::leb128::{uleb_at, sleb_at, decode_uleb, decode_sleb};
use crate::sourcemap::LineRow;
use crate::value::le_value;

verus! {

/// The fixed header fields that drive a unit's line-number program: how
/// special opcodes split into address and line advances, which opcode numbers
/// are special, how many operands each standard opcode carries, how many
/// files the unit declared, and how wide an address literal is.
pub struct LineProgramParams {
    pub minimum_instruction_length: u8,
    pub default_is_stmt: bool,
    pub line_base: i64,
    pub line_range: u8,
    pub opcode_base: u8,
    pub standard_opcode_lengths: Vec<u8>,
    pub file_count: u64,
    pub address_size: u8,
}

/// The state machine's registers. File and line start at one, as the
/// encoding prescribes.
#[derive(Clone, Copy, PartialEq, Eq, Structural, Debug)]
pub struct LineRegisters {
    pub address: u64,
    pub file: u64,
    pub line: u64,
    pub column: u64,
    pub is_stmt: bool,
}

/// The registers at the start of the program and after each end of sequence.
pub open spec fn spec_initial_registers(default_is_stmt: bool) -> LineRegisters {
    LineRegisters { address: 0, file: 1, line: 1, column: 0, is_stmt: default_is_stmt }
}

/// The registers at the start of the program, as the encoding prescribes.
pub fn initial_registers(default_is_stmt: bool) -> (r: LineRegisters)
    ensures
        r == spec_initial_registers(default_is_stmt),
{
    LineRegisters { address: 0, file: 1, line: 1, column: 0, is_stmt: default_is_stmt }
}

/// An unsigned LEB128 operand that fits a 64-bit register.
pub open spec fn uleb64_at(b: Seq<u8>, i: int) -> Option<(u64, int)> {
    match uleb_at(b, i) {
        None => None,
        Some((v, n)) => if v < 0x10000000000000000 {
            Some((v as u64, n))
        } else {
            None
        },
    }
}

/// A signed LEB128 operand that fits a signed 64-bit register.
pub open spec fn sleb64_at(b: Seq<u8>, i: int) -> Option<(i64, int)> {
    match sleb_at(b, i) {
        None => None,
        Some((v, n)) => if -0x8000000000000000 <= v < 0x8000000000000000 {
            Some((v as i64, n))
        } else {
            None
        },
    }
}

/// The row the machine emits from its registers. File indices are one-based
/// in the encoding and zero-based in the emitted table.
pub open spec fn spec_emit_row(regs: LineRegisters) -> LineRow {
    LineRow {
        offset: regs.address,
        file: (regs.file - 1) as u64,
        line: regs.line,
        column: regs.column,
        is_stmt: regs.is_stmt,
        end_sequence: false,
    }
}

/// The row that closes a sequence: only its address is meaningful.
pub open spec fn spec_end_row(regs: LineRegisters) -> LineRow {
    LineRow {
        offset: regs.address,
        file: 0,
        line: 0,
        column: 0,
        is_stmt: false,
        end_sequence: true,
    }
}

/// The line register after a signed advance; `None` when it leaves the
/// register's range.
pub open spec fn spec_advance_line(line: u64, delta: int) -> Option<u64> {
    if 0 <= line + delta <= u64::MAX {
        Some((line + delta) as u64)
    } else {
        None
    }
}

/// The address register after an operation advance, scaled by the minimum
/// instruction length; `None` on overflow.
pub open spec fn spec_advance_address(address: u64, ops: u64, min_len: u8) -> Option<u64> {
    if address + ops * min_len <= u64::MAX {
        Some((address + ops * min_len) as u64)
    } else {
        None
    }
}

/// What one operation at `pos` does: the row it emits (if any), where the
/// next operation starts, and the registers it leaves. `None` when the
/// program is malformed at this operation: a truncated or oversized operand,
/// a register overflow, an emitted row referencing an undeclared file, or an
/// unknown opcode without a declared operand count.
pub open spec fn spec_line_step(
    p: LineProgramParams,
    b: Seq<u8>,
    pos: int,
    regs: LineRegisters,
) -> Option<(Option<LineRow>, int, LineRegisters)> {
    if pos < 0 || pos >= b.len() {
        None
    } else {
        let op = b[pos];
        if p.opcode_base > 0 && op >= p.opcode_base {
            // a special opcode advances both address and line and emits
            if p.line_range == 0 {
                None
            } else {
                let adjusted = (op - p.opcode_base) as u64;
                match spec_advance_address(
                    regs.address,
                    adjusted / (p.line_range as u64),
                    p.minimum_instruction_length,
                ) {
                    None => None,
                    Some(a2) => match spec_advance_line(
                        regs.line,
                        p.line_base + adjusted % (p.line_range as u64),
                    ) {
                        None => None,
                        Some(l2) => {
                            let r2 = LineRegisters { address: a2, line: l2, ..regs };
                            if 1 <= r2.file <= p.file_count {
                                Some((Some(spec_emit_row(r2)), pos + 1, r2))
                            } else {
                                None
                            }
                        },
                    },
                }
            }
        } else if op == 0 {
            // an extended operation: a length, a sub-opcode, its operand
            match uleb64_at(b, pos + 1) {
                None => None,
                Some((len, n)) => if len == 0 || n + len > b.len() {
                    None
                } else {
                    let sub = b[n];
                    if sub == 1 {
                        // end of sequence: emit a closing row, reset the machine
                        Some(
                            (
                                Some(spec_end_row(regs)),
                                n + len,
                                spec_initial_registers(p.default_is_stmt),
                            ),
                        )
                    } else if sub == 2 {
                        // a literal address of the declared width
                        if (p.address_size == 4 || p.address_size == 8) && len
                            == 1 + p.address_size {
                            let a2 = le_value(b.subrange(n + 1, n + len)) as u64;
                            Some((None, n + len, LineRegisters { address: a2, ..regs }))
                        } else {
                            None
                        }
                    } else {
                        // an extended operation this engine does not interpret
                        // is skipped by its declared length
                        Some((None, n + len, regs))
                    }
                },
            }
        } else if op == 1 {
            // copy: emit from the current registers
            if 1 <= regs.file <= p.file_count {
                Some((Some(spec_emit_row(regs)), pos + 1, regs))
            } else {
                None
            }
        } else if op == 2 {
            // advance the address by a scaled operation count
            match uleb64_at(b, pos + 1) {
                None => None,
                Some((ops, n)) => match spec_advance_address(
                    regs.address,
                    ops,
                    p.minimum_instruction_length,
                ) {
                    None => None,
                    Some(a2) => Some((None, n, LineRegisters { address: a2, ..regs })),
                },
            }
        } else if op == 3 {
            // advance the line by a signed delta
            match sleb64_at(b, pos + 1) {
                None => None,
                Some((d, n)) => match spec_advance_line(regs.line, d as int) {
                    None => None,
                    Some(l2) => Some((None, n, LineRegisters { line: l2, ..regs })),
                },
            }
        } else if op == 4 {
            match uleb64_at(b, pos + 1) {
                None => None,
                Some((f, n)) => Some((None, n, LineRegisters { file: f, ..regs })),
            }
        } else if op == 5 {
            match uleb64_at(b, pos + 1) {
                None => None,
                Some((c, n)) => Some((None, n, LineRegisters { column: c, ..regs })),
            }
        } else if op == 6 {
            Some((None, pos + 1, LineRegisters { is_stmt: !regs.is_stmt, ..regs }))
        } else if op == 7 {
            Some((None, pos + 1, regs))
        } else if op == 8 {
            // advance the address as the largest special opcode would
            if p.line_range == 0 {
                None
            } else {
                let adjusted = (255 - p.opcode_base) as u64;
                match spec_advance_address(
                    regs.address,
                    adjusted / (p.line_range as u64),
                    p.minimum_instruction_length,
                ) {
                    None => None,
                    Some(a2) => Some((None, pos + 1, LineRegisters { address: a2, ..regs })),
                }
            }
        } else if op == 9 {
            // a fixed, unscaled two-byte address advance
            if pos + 3 <= b.len() {
                let d = le_value(b.subrange(pos + 1, pos + 3)) as u64;
                if regs.address + d <= u64::MAX {
                    Some(
                        (
                            None,
                            pos + 3,
                            LineRegisters { address: (regs.address + d) as u64, ..regs },
                        ),
                    )
                } else {
                    None
                }
            } else {
                None
            }
        } else if op == 10 || op == 11 {
            Some((None, pos + 1, regs))
        } else if op == 12 {
            match uleb64_at(b, pos + 1) {
                None => None,
                Some((_isa, n)) => Some((None, n, regs)),
            }
        } else {
            // an unknown standard opcode: skip the operands its declared
            // length names, each an unsigned LEB128
            if 1 <= op && op - 1 < p.standard_opcode_lengths@.len() {
                spec_skip_ulebs(b, pos + 1, p.standard_opcode_lengths@[op - 1] as nat, regs)
            } else {
                None
            }
        }
    }
}

/// Skip `count` unsigned LEB128 operands.
pub open spec fn spec_skip_ulebs(b: Seq<u8>, pos: int, count: nat, regs: LineRegisters) -> Option<
    (Option<LineRow>, int, LineRegisters),
>
    decreases count,
{
    if count == 0 {
        Some((None, pos, regs))
    } else {
        match uleb64_at(b, pos) {
            None => None,
            Some((_, n)) => spec_skip_ulebs(b, n, (count - 1) as nat, regs),
        }
    }
}

/// The rows the program emits from `pos` on: every operation stepped in
/// order, `None` as soon as one is malformed.
pub open spec fn spec_run_line_program(
    p: LineProgramParams,
    b: Seq<u8>,
    pos: int,
    regs: LineRegisters,
) -> Option<Seq<LineRow>>
    decreases b.len() - pos,
{
    if pos >= b.len() {
        Some(Seq::empty())
    } else {
        match spec_line_step(p, b, pos, regs) {
            None => None,
            Some((emitted, n, r2)) => if pos < n <= b.len() {
                match spec_run_line_program(p, b, n, r2) {
                    None => None,
                    Some(rest) => match emitted {
                        None => Some(rest),
                        Some(row) => Some(seq![row] + rest),
                    },
                }
            } else {
                None
            },
        }
    }
}

proof fn lemma_uleb64_advances(b: Seq<u8>, i: int)
    ensures
        match uleb64_at(b, i) {
            Some((v, n)) => i < n <= b.len(),
            None => true,
        },
    decreases b.len() - i,
{
    if 0 <= i < b.len() && b[i] >= 0x80 {
        lemma_uleb64_advances(b, i + 1);
    }
}

proof fn lemma_sleb64_advances(b: Seq<u8>, i: int)
    ensures
        match sleb64_at(b, i) {
            Some((v, n)) => i < n <= b.len(),
            None => true,
        },
    decreases b.len() - i,
{
    if 0 <= i < b.len() && b[i] >= 0x80 {
        lemma_sleb64_advances(b, i + 1);
    }
}

/// Read `n` little-endian bytes at `pos`.
fn read_le(b: &Vec<u8>, pos: usize, n: usize) -> (r: u64)
    requires
        pos + n <= b@.len(),
        n <= 8,
    ensures
        r == le_value(b@.subrange(pos as int, pos + n)),
{
    let mut span: Vec<u8> = Vec::new();
    proof {
        assert(span@ =~= b@.subrange(pos as int, pos as int));
    }
    let blen = b.len();
    let mut k: usize = 0;
    while k < n
        invariant
            k <= n,
            pos + n <= blen,
            blen == b@.len(),
            n <= 8,
            span@ == b@.subrange(pos as int, pos + k),
        decreases n - k,
    {
        span.push(b[pos + k]);
        proof {
            assert(b@.subrange(pos as int, pos + k + 1) =~= b@.subrange(pos as int, pos + k).push(
                b@[pos + (k as int)],
            ));
        }
        k = k + 1;
    }
    crate::value::decode_unsigned_le(&span)
}

/// Skip `count` unsigned LEB128 operands, as `spec_skip_ulebs` states it.
fn skip_ulebs(b: &Vec<u8>, pos: usize, count: u8, regs: LineRegisters) -> (r: Option<usize>)
    requires
        pos <= b@.len(),
    ensures
        match r {
            Some(n) => {
                &&& spec_skip_ulebs(b@, pos as int, count as nat, regs) == Some(
                    (None::<LineRow>, n as int, regs),
                )
                &&& pos <= n <= b@.len()
            },
            None => spec_skip_ulebs(b@, pos as int, count as nat, regs) is None,
        },
    decreases count,
{
    if count == 0 {
        Some(pos)
    } else {
        match decode_uleb(b, pos) {
            None => None,
            Some((_, n)) => {
                proof {
                    lemma_uleb64_advances(b@, pos as int);
                }
                skip_ulebs(b, n, count - 1, regs)
            },
        }
    }
}

/// Run a unit's line-number program over its encoded operations, yielding the
/// emitted row table, exactly as `spec_run_line_program` states it.
/// `MalformedLineProgram` exactly when some operation is malformed — among
/// them a row referencing an undeclared file index.
pub fn run_line_program(p: &LineProgramParams, b: &Vec<u8>) -> (r: Result<Vec<LineRow>, DwarfError>)
    ensures
        match r {
            Ok(rows) => spec_run_line_program(
                *p,
                b@,
                0,
                spec_initial_registers(p.default_is_stmt),
            ) == Some(rows@),
            Err(e) => {
                &&& e == DwarfError::MalformedLineProgram
                &&& spec_run_line_program(
                    *p,
                    b@,
                    0,
                    spec_initial_registers(p.default_is_stmt),
                ) is None
            },
        },
{
    let mut rows: Vec<LineRow> = Vec::new();
    let mut regs = initial_registers(p.default_is_stmt);
    let mut pos: usize = 0;
    while pos < b.len()
        invariant
            pos <= b@.len(),
            spec_run_line_program(*p, b@, 0, spec_initial_registers(p.default_is_stmt)) == (
            match spec_run_line_program(*p, b@, pos as int, regs) {
                None => None::<Seq<LineRow>>,
                Some(rest) => Some(rows@ + rest),
            }),
        decreases b@.len() - pos,
    {
        let ghost prev_pos = pos as int;
        let ghost prev_regs = regs;
        let stepped = step_exec(p, b, pos, regs);
        match stepped {
            None => {
                return Err(DwarfError::MalformedLineProgram);
            },
            Some((emitted, n, r2)) => {
                proof {
                    assert(spec_line_step(*p, b@, prev_pos, prev_regs) == Some(
                        (emitted, n as int, r2),
                    ));
                }
                match emitted {
                    Some(row) => {
                        rows.push(row);
                        proof {
                            assert(match spec_run_line_program(*p, b@, n as int, r2) {
                                None => true,
                                Some(rest) => rows@ + rest =~= rows@.drop_last() + (seq![row]
                                    + rest),
                            });
                        }
                    },
                    None => {
                    },
                }
                regs = r2;
                pos = n;
            },
        }
    }
    proof {
        assert(spec_run_line_program(*p, b@, pos as int, regs) == Some(Seq::<LineRow>::empty()));
        assert(rows@ + Seq::<LineRow>::empty() =~= rows@);
    }
    Ok(rows)
}

/// One operation of the machine, as `spec_line_step` states it; `None` exactly
/// where the step is malformed. The returned position always advances.
fn step_exec(p: &LineProgramParams, b: &Vec<u8>, pos: usize, regs: LineRegisters) -> (r: Option<
    (Option<LineRow>, usize, LineRegisters),
>)
    requires
        pos < b@.len(),
    ensures
        match r {
            Some((emitted, n, r2)) => {
                &&& spec_line_step(*p, b@, pos as int, regs) == Some((emitted, n as int, r2))
                &&& pos < n <= b@.len()
            },
            None => spec_line_step(*p, b@, pos as int, regs) is None,
        },
{
    let blen = b.len();
    let op = b[pos];
    if p.opcode_base > 0 && op >= p.opcode_base {
        if p.line_range == 0 {
            return None;
        }
        let adjusted = (op - p.opcode_base) as u64;
        let addr_ops = adjusted / (p.line_range as u64);
        let a2 = match advance_address_exec(regs.address, addr_ops, p.minimum_instruction_length) {
            None => {
                return None;
            },
            Some(a) => a,
        };
        let rem = adjusted % (p.line_range as u64);
        let l2 = match advance_line_special(regs.line, p.line_base, rem) {
            None => {
                return None;
            },
            Some(l) => l,
        };
        let r2 = LineRegisters { address: a2, line: l2, ..regs };
        if 1 <= r2.file && r2.file <= p.file_count {
            let row = LineRow {
                offset: r2.address,
                file: r2.file - 1,
                line: r2.line,
                column: r2.column,
                is_stmt: r2.is_stmt,
                end_sequence: false,
            };
            Some((Some(row), pos + 1, r2))
        } else {
            None
        }
    } else if op == 0 {
        let (len, n) = match decode_uleb(b, pos + 1) {
            None => {
                return None;
            },
            Some(v) => v,
        };
        proof {
            lemma_uleb64_advances(b@, pos + 1);
        }
        if len == 0 || len > (b.len() - n) as u64 {
            return None;
        }
        let len_u: usize = len as usize;
        let sub = b[n];
        if sub == 1 {
            let row = LineRow {
                offset: regs.address,
                file: 0,
                line: 0,
                column: 0,
                is_stmt: false,
                end_sequence: true,
            };
            Some((Some(row), n + len_u, initial_registers(p.default_is_stmt)))
        } else if sub == 2 {
            if (p.address_size == 4 || p.address_size == 8) && len == 1 + p.address_size as u64 {
                let a2 = read_le(b, n + 1, p.address_size as usize);
                proof {
                    assert(b@.subrange(n + 1, n + len_u) == b@.subrange(
                        n + 1,
                        n + 1 + p.address_size as int,
                    ));
                    crate::value::lemma_le_value_bound(b@.subrange(n + 1, n + len_u));
                }
                Some((None, n + len_u, LineRegisters { address: a2, ..regs }))
            } else {
                None
            }
        } else {
            Some((None, n + len_u, regs))
        }
    } else if op == 1 {
        if 1 <= regs.file && regs.file <= p.file_count {
            let row = LineRow {
                offset: regs.address,
                file: regs.file - 1,
                line: regs.line,
                column: regs.column,
                is_stmt: regs.is_stmt,
                end_sequence: false,
            };
            Some((Some(row), pos + 1, regs))
        } else {
            None
        }
    } else if op == 2 {
        let (ops, n) = match decode_uleb(b, pos + 1) {
            None => {
                return None;
            },
            Some(v) => v,
        };
        proof {
            lemma_uleb64_advances(b@, pos + 1);
        }
        match advance_address_exec(regs.address, ops, p.minimum_instruction_length) {
            None => None,
            Some(a2) => Some((None, n, LineRegisters { address: a2, ..regs })),
        }
    } else if op == 3 {
        let (d, n) = match decode_sleb(b, pos + 1) {
            None => {
                return None;
            },
            Some(v) => v,
        };
        proof {
            lemma_sleb64_advances(b@, pos + 1);
        }
        match advance_line_exec(regs.line, d) {
            None => None,
            Some(l2) => Some((None, n, LineRegisters { line: l2, ..regs })),
        }
    } else if op == 4 {
        match decode_uleb(b, pos + 1) {
            None => None,
            Some((f, n)) => {
                proof {
                    lemma_uleb64_advances(b@, pos + 1);
                }
                Some((None, n, LineRegisters { file: f, ..regs }))
            },
        }
    } else if op == 5 {
        match decode_uleb(b, pos + 1) {
            None => None,
            Some((c, n)) => {
                proof {
                    lemma_uleb64_advances(b@, pos + 1);
                }
                Some((None, n, LineRegisters { column: c, ..regs }))
            },
        }
    } else if op == 6 {
        Some((None, pos + 1, LineRegisters { is_stmt: !regs.is_stmt, ..regs }))
    } else if op == 7 {
        Some((None, pos + 1, regs))
    } else if op == 8 {
        if p.line_range == 0 {
            return None;
        }
        let adjusted = (255 - p.opcode_base) as u64;
        let addr_ops = adjusted / (p.line_range as u64);
        match advance_address_exec(regs.address, addr_ops, p.minimum_instruction_length) {
            None => None,
            Some(a2) => Some((None, pos + 1, LineRegisters { address: a2, ..regs })),
        }
    } else if op == 9 {
        if b.len() - pos < 3 {
            return None;
        }
        let d = read_le(b, pos + 1, 2);
        proof {
            crate::value::lemma_le_value_bound(b@.subrange(pos + 1, pos + 3));
        }
        if regs.address <= u64::MAX - d {
            Some((None, pos + 3, LineRegisters { address: regs.address + d, ..regs }))
        } else {
            None
        }
    } else if op == 10 || op == 11 {
        Some((None, pos + 1, regs))
    } else if op == 12 {
        match decode_uleb(b, pos + 1) {
            None => None,
            Some((_isa, n)) => {
                proof {
                    lemma_uleb64_advances(b@, pos + 1);
                }
                Some((None, n, regs))
            },
        }
    } else {
        if 1 <= op && ((op - 1) as usize) < p.standard_opcode_lengths.len() {
            let count = p.standard_opcode_lengths[(op - 1) as usize];
            match skip_ulebs(b, pos + 1, count, regs) {
                None => None,
                Some(n) => Some((None, n, regs)),
            }
        } else {
            None
        }
    }
}

/// The address advance, checked; `None` on overflow.
fn advance_address_exec(address: u64, ops: u64, min_len: u8) -> (r: Option<u64>)
    ensures
        r == spec_advance_address(address, ops, min_len),
{
    if min_len == 0 {
        proof {
            assert(ops * min_len == 0) by (nonlinear_arith)
                requires
                    min_len == 0,
            {}
        }
        return Some(address);
    }
    if ops <= u64::MAX / (min_len as u64) {
        proof {
            assert(ops * min_len <= u64::MAX) by (nonlinear_arith)
                requires
                    ops <= u64::MAX as int / min_len as int,
                    min_len > 0,
            {}
        }
        let adv = ops * (min_len as u64);
        if address <= u64::MAX - adv {
            Some(address + adv)
        } else {
            None
        }
    } else {
        proof {
            assert(ops * min_len > u64::MAX) by (nonlinear_arith)
                requires
                    ops > u64::MAX as int / min_len as int,
                    min_len > 0,
            {}
        }
        None
    }
}

/// The line advance, checked; `None` when it leaves the register's range.
fn advance_line_exec(line: u64, delta: i64) -> (r: Option<u64>)
    ensures
        r == spec_advance_line(line, delta as int),
{
    let t: i128 = line as i128 + delta as i128;
    if 0 <= t && t <= u64::MAX as i128 {
        Some(t as u64)
    } else {
        None
    }
}

/// The line advance a special opcode makes, checked.
fn advance_line_special(line: u64, base: i64, rem: u64) -> (r: Option<u64>)
    requires
        rem < 256,
    ensures
        r == spec_advance_line(line, base + rem),
{
    let t: i128 = line as i128 + base as i128 + rem as i128;
    if 0 <= t && t <= u64::MAX as i128 {
        Some(t as u64)
    } else {
        None
    }
}

} // verus!
