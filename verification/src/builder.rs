use vstd::prelude::*;
use crate::subroutine::{Variable, LexicalBlock, Subroutine, DeclarationKind};

verus! {

/// What kind of entry the unit walker met.
#[derive(Clone, Copy, PartialEq, Eq, Structural, Debug)]
pub enum EntryTag {
    Subprogram,
    Block,
    Parameter,
    VariableDecl,
    Other,
}

/// One address range of a discontiguous ranges attribute.
#[derive(Clone, Copy, PartialEq, Eq, Structural, Debug)]
pub struct RangeEntry {
    pub low: u64,
    pub high: u64,
}

/// One entry of a unit's tree, in depth-first order with its tree depth, as
/// plain values: the builder consumes these and nothing else.
pub struct DebugEntry {
    pub depth: u64,
    pub tag: EntryTag,
    pub name: Option<String>,
    pub low_pc: Option<u64>,
    pub high_pc: Option<u64>,
    pub ranges: Vec<RangeEntry>,
    pub type_offset: Option<u64>,
    pub location: Vec<u8>,
    pub frame_base: Vec<u8>,
}

/// A variable, at the level contracts speak of.
#[verifier::ext_equal]
pub ghost struct VariableV {
    pub name: Seq<char>,
    pub type_offset: Option<u64>,
    pub location: Seq<u8>,
    pub kind: DeclarationKind,
}

/// A lexical block, at the level contracts speak of.
#[verifier::ext_equal]
pub ghost struct BlockV {
    pub low_pc: u64,
    pub high_pc: u64,
    pub depth: u64,
    pub variables: Seq<VariableV>,
}

/// A subprogram scope, at the level contracts speak of.
#[verifier::ext_equal]
pub ghost struct SubV {
    pub name: Option<Seq<char>>,
    pub low_pc: u64,
    pub high_pc: u64,
    pub unit_offset: u64,
    pub frame_base: Seq<u8>,
    pub parameters: Seq<VariableV>,
    pub variables: Seq<VariableV>,
    pub blocks: Seq<BlockV>,
}

pub open spec fn var_view(v: Variable) -> VariableV {
    VariableV {
        name: v.name@,
        type_offset: v.type_offset,
        location: v.location@,
        kind: v.kind,
    }
}

pub open spec fn vars_view(vs: Seq<Variable>) -> Seq<VariableV> {
    vs.map(|i: int, v: Variable| var_view(v))
}

pub open spec fn block_view(b: LexicalBlock) -> BlockV {
    BlockV {
        low_pc: b.low_pc,
        high_pc: b.high_pc,
        depth: b.depth,
        variables: vars_view(b.variables@),
    }
}

pub open spec fn sub_view(s: Subroutine) -> SubV {
    SubV {
        name: match s.name {
            Some(n) => Some(n@),
            None => None,
        },
        low_pc: s.low_pc,
        high_pc: s.high_pc,
        unit_offset: s.unit_offset,
        frame_base: s.frame_base@,
        parameters: vars_view(s.parameters@),
        variables: vars_view(s.variables@),
        blocks: s.blocks@.map(|i: int, b: LexicalBlock| block_view(b)),
    }
}

pub open spec fn subs_view(ss: Seq<Subroutine>) -> Seq<SubV> {
    ss.map(|i: int, s: Subroutine| sub_view(s))
}

/// The builder's running state: finished scopes, unit-level variables, and
/// the subprogram still open, with the tree depth it was opened at.
#[verifier::ext_equal]
pub ghost struct BuildStateV {
    pub done: Seq<SubV>,
    pub globals: Seq<VariableV>,
    pub cur: Option<SubV>,
    pub cur_depth: u64,
}

/// The lowest low bound of a ranges attribute.
pub open spec fn env_low(rs: Seq<RangeEntry>) -> u64
    decreases rs.len(),
{
    if rs.len() == 0 {
        0
    } else if rs.len() == 1 {
        rs[0].low
    } else {
        let rest = env_low(rs.drop_last());
        if rs.last().low < rest {
            rs.last().low
        } else {
            rest
        }
    }
}

/// The highest high bound of a ranges attribute.
pub open spec fn env_high(rs: Seq<RangeEntry>) -> u64
    decreases rs.len(),
{
    if rs.len() == 0 {
        0
    } else if rs.len() == 1 {
        rs[0].high
    } else {
        let rest = env_high(rs.drop_last());
        if rs.last().high > rest {
            rs.last().high
        } else {
            rest
        }
    }
}

/// An entry's address range: its bounds when both are present, the envelope
/// of its ranges attribute otherwise, and a zero-width (excluded) range when
/// it carries neither.
pub open spec fn entry_range(e: DebugEntry) -> (u64, u64) {
    match (e.low_pc, e.high_pc) {
        (Some(l), Some(h)) => (l, h),
        _ => if e.ranges@.len() > 0 {
            (env_low(e.ranges@), env_high(e.ranges@))
        } else {
            (0, 0)
        },
    }
}

/// The innermost open block for an entry at depth `d`: the last block opened
/// at a smaller depth. Blocks at the same or a greater depth lie in subtrees
/// the depth-first walk has already left.
pub open spec fn last_open_block(blocks: Seq<BlockV>, d: u64) -> Option<int>
    decreases blocks.len(),
{
    if blocks.len() == 0 {
        None
    } else if blocks.last().depth < d {
        Some(blocks.len() - 1)
    } else {
        last_open_block(blocks.drop_last(), d)
    }
}

/// A declaration attached to the innermost open scope of the current
/// subprogram: a block when one is open at this depth, the subprogram's own
/// parameter or variable list otherwise.
pub open spec fn attach_var(c: SubV, d: u64, v: VariableV, is_param: bool) -> SubV {
    match last_open_block(c.blocks, d) {
        Some(j) => SubV {
            blocks: c.blocks.update(
                j,
                BlockV {
                    variables: c.blocks[j].variables.push(VariableV { kind: DeclarationKind::Local, ..v }),
                    ..c.blocks[j]
                },
            ),
            ..c
        },
        None => if is_param {
            SubV { parameters: c.parameters.push(v), ..c }
        } else {
            SubV { variables: c.variables.push(v), ..c }
        },
    }
}

/// One step of the scope builder over one entry.
pub open spec fn builder_step(st: BuildStateV, e: DebugEntry, unit_offset: u64) -> BuildStateV {
    match e.tag {
        EntryTag::Subprogram => BuildStateV {
            done: match st.cur {
                Some(c) => st.done.push(c),
                None => st.done,
            },
            globals: st.globals,
            cur: Some(
                SubV {
                    name: match e.name {
                        Some(n) => Some(n@),
                        None => None,
                    },
                    low_pc: entry_range(e).0,
                    high_pc: entry_range(e).1,
                    unit_offset: unit_offset,
                    frame_base: e.frame_base@,
                    parameters: Seq::empty(),
                    variables: Seq::empty(),
                    blocks: Seq::empty(),
                },
            ),
            cur_depth: e.depth,
        },
        EntryTag::Block => match st.cur {
            Some(c) => if e.depth > st.cur_depth {
                BuildStateV {
                    cur: Some(
                        SubV {
                            blocks: c.blocks.push(
                                BlockV {
                                    low_pc: entry_range(e).0,
                                    high_pc: entry_range(e).1,
                                    depth: e.depth,
                                    variables: Seq::empty(),
                                },
                            ),
                            ..c
                        },
                    ),
                    ..st
                }
            } else {
                st
            },
            None => st,
        },
        EntryTag::Parameter => match e.name {
            None => st,
            Some(n) => match st.cur {
                Some(c) => if e.depth > st.cur_depth {
                    BuildStateV {
                        cur: Some(
                            attach_var(
                                c,
                                e.depth,
                                VariableV {
                                    name: n@,
                                    type_offset: e.type_offset,
                                    location: e.location@,
                                    kind: DeclarationKind::Parameter,
                                },
                                true,
                            ),
                        ),
                        ..st
                    }
                } else {
                    st
                },
                None => st,
            },
        },
        EntryTag::VariableDecl => match e.name {
            None => st,
            Some(n) => {
                let inside = st.cur is Some && e.depth > st.cur_depth;
                if inside {
                    BuildStateV {
                        cur: Some(
                            attach_var(
                                st.cur->Some_0,
                                e.depth,
                                VariableV {
                                    name: n@,
                                    type_offset: e.type_offset,
                                    location: e.location@,
                                    kind: DeclarationKind::Local,
                                },
                                false,
                            ),
                        ),
                        ..st
                    }
                } else {
                    BuildStateV {
                        globals: st.globals.push(
                            VariableV {
                                name: n@,
                                type_offset: e.type_offset,
                                location: e.location@,
                                kind: DeclarationKind::Global,
                            },
                        ),
                        ..st
                    }
                }
            },
        },
        EntryTag::Other => st,
    }
}

/// The open scope as contracts see it.
pub open spec fn opt_sub_view(o: Option<Subroutine>) -> Option<SubV> {
    match o {
        Some(c) => Some(sub_view(c)),
        None => None,
    }
}

/// The builder's state after the first `n` entries.
pub open spec fn builder_run(entries: Seq<DebugEntry>, n: int, unit_offset: u64) -> BuildStateV
    decreases n,
{
    if n <= 0 {
        BuildStateV { done: Seq::empty(), globals: Seq::empty(), cur: None, cur_depth: 0 }
    } else {
        builder_step(builder_run(entries, n - 1, unit_offset), entries[n - 1], unit_offset)
    }
}

/// The subprograms a unit yields: every finished scope, plus the one still
/// open when the entries end.
pub open spec fn builder_subs(entries: Seq<DebugEntry>, unit_offset: u64) -> Seq<SubV> {
    let st = builder_run(entries, entries.len() as int, unit_offset);
    match st.cur {
        Some(c) => st.done.push(c),
        None => st.done,
    }
}

/// The unit-level variables a unit yields.
pub open spec fn builder_globals(entries: Seq<DebugEntry>, unit_offset: u64) -> Seq<VariableV> {
    builder_run(entries, entries.len() as int, unit_offset).globals
}

/// An exact copy of a byte vector.
fn clone_bytes(v: &Vec<u8>) -> (r: Vec<u8>)
    ensures
        r@ == v@,
{
    let mut r: Vec<u8> = Vec::new();
    let mut k: usize = 0;
    while k < v.len()
        invariant
            k <= v@.len(),
            r@ == v@.subrange(0, k as int),
        decreases v@.len() - k,
    {
        r.push(v[k]);
        proof {
            assert(v@.subrange(0, k + 1) =~= v@.subrange(0, k as int).push(v@[k as int]));
        }
        k = k + 1;
    }
    proof {
        assert(v@.subrange(0, v@.len() as int) =~= v@);
    }
    r
}

/// An entry's address range, as `entry_range` states it.
fn entry_range_exec(e: &DebugEntry) -> (r: (u64, u64))
    ensures
        r == entry_range(*e),
{
    match (e.low_pc, e.high_pc) {
        (Some(l), Some(h)) => (l, h),
        _ => {
            if e.ranges.len() == 0 {
                (0, 0)
            } else {
                let mut low = e.ranges[0].low;
                let mut high = e.ranges[0].high;
                let mut k: usize = 1;
                proof {
                    assert(e.ranges@.subrange(0, 1).len() == 1);
                    assert(e.ranges@.subrange(0, 1)[0] == e.ranges@[0]);
                }
                while k < e.ranges.len()
                    invariant
                        1 <= k <= e.ranges@.len(),
                        low == env_low(e.ranges@.subrange(0, k as int)),
                        high == env_high(e.ranges@.subrange(0, k as int)),
                    decreases e.ranges@.len() - k,
                {
                    let ghost pre = e.ranges@.subrange(0, k + 1);
                    proof {
                        assert(pre.last() == e.ranges@[k as int]);
                        assert(pre.drop_last() =~= e.ranges@.subrange(0, k as int));
                        assert(pre.len() > 1);
                    }
                    let r = e.ranges[k];
                    if r.low < low {
                        low = r.low;
                    }
                    if r.high > high {
                        high = r.high;
                    }
                    k = k + 1;
                }
                proof {
                    assert(e.ranges@.subrange(0, e.ranges@.len() as int) =~= e.ranges@);
                }
                (low, high)
            }
        },
    }
}

/// Build one unit's subprogram scopes and its unit-level variable list by one
/// depth-first pass over its entries. The result is a pure function of the
/// entries, so two passes over the same unit agree exactly.
pub fn build_unit(entries: &Vec<DebugEntry>, unit_offset: u64) -> (r: (Vec<Subroutine>, Vec<
    Variable,
>))
    ensures
        subs_view(r.0@) == builder_subs(entries@, unit_offset),
        vars_view(r.1@) == builder_globals(entries@, unit_offset),
{
    let mut done: Vec<Subroutine> = Vec::new();
    let mut globals: Vec<Variable> = Vec::new();
    let mut cur: Option<Subroutine> = None;
    let mut cur_depth: u64 = 0;
    let mut k: usize = 0;
    proof {
        assert(subs_view(done@) =~= Seq::<SubV>::empty());
        assert(vars_view(globals@) =~= Seq::<VariableV>::empty());
    }
    while k < entries.len()
        invariant
            k <= entries@.len(),
            builder_run(entries@, k as int, unit_offset) == (BuildStateV {
                done: subs_view(done@),
                globals: vars_view(globals@),
                cur: opt_sub_view(cur),
                cur_depth: cur_depth,
            }),
        decreases entries@.len() - k,
    {
        let ghost st_pre = builder_run(entries@, k as int, unit_offset);
        let e = &entries[k];
        match e.tag {
            EntryTag::Subprogram => {
                cur = match cur {
                    Some(c) => {
                        let ghost cv = sub_view(c);
                        done.push(c);
                        proof {
                            assert(subs_view(done@) =~~= st_pre.done.push(cv));
                        }
                        None
                    },
                    None => None,
                };
                let range = entry_range_exec(e);
                let name = match &e.name {
                    Some(n) => Some(n.clone()),
                    None => None,
                };
                cur = Some(
                    Subroutine {
                        name,
                        low_pc: range.0,
                        high_pc: range.1,
                        unit_offset,
                        frame_base: clone_bytes(&e.frame_base),
                        parameters: Vec::new(),
                        variables: Vec::new(),
                        blocks: Vec::new(),
                    },
                );
                cur_depth = e.depth;
                proof {
                    let c2 = opt_sub_view(cur);
                    assert(c2 matches Some(cv2) && cv2.parameters
                        =~= Seq::<VariableV>::empty() && cv2.variables
                        =~= Seq::<VariableV>::empty() && cv2.blocks =~= Seq::<BlockV>::empty());
                }
            },
            EntryTag::Block => {
                cur = match cur {
                    Some(mut c) => {
                        if e.depth > cur_depth {
                            let ghost cv = sub_view(c);
                            let range = entry_range_exec(e);
                            c.blocks.push(
                                LexicalBlock {
                                    low_pc: range.0,
                                    high_pc: range.1,
                                    depth: e.depth,
                                    variables: Vec::new(),
                                },
                            );
                            proof {
                                assert(sub_view(c).blocks =~~= cv.blocks.push(
                                    BlockV {
                                        low_pc: entry_range(*e).0,
                                        high_pc: entry_range(*e).1,
                                        depth: e.depth,
                                        variables: Seq::empty(),
                                    },
                                ));
                            }
                            Some(c)
                        } else {
                            Some(c)
                        }
                    },
                    None => None,
                };
            },
            EntryTag::Parameter => {
                cur = match cur {
                    Some(mut c) => {
                        match &e.name {
                            Some(n) => {
                                if e.depth > cur_depth {
                                    let var = Variable {
                                        name: n.clone(),
                                        type_offset: e.type_offset,
                                        location: clone_bytes(&e.location),
                                        kind: DeclarationKind::Parameter,
                                    };
                                    attach_var_exec(&mut c, e.depth, var, true);
                                }
                            },
                            None => {
                            },
                        }
                        Some(c)
                    },
                    None => None,
                };
            },
            EntryTag::VariableDecl => {
                match &e.name {
                    Some(n) => {
                        let is_inside = cur.is_some() && e.depth > cur_depth;
                        if is_inside {
                            cur = match cur {
                                Some(mut c) => {
                                    let var = Variable {
                                        name: n.clone(),
                                        type_offset: e.type_offset,
                                        location: clone_bytes(&e.location),
                                        kind: DeclarationKind::Local,
                                    };
                                    attach_var_exec(&mut c, e.depth, var, false);
                                    Some(c)
                                },
                                None => None,
                            };
                        } else {
                            let ghost gv = vars_view(globals@);
                            globals.push(
                                Variable {
                                    name: n.clone(),
                                    type_offset: e.type_offset,
                                    location: clone_bytes(&e.location),
                                    kind: DeclarationKind::Global,
                                },
                            );
                            proof {
                                assert(vars_view(globals@) =~~= gv.push(
                                    VariableV {
                                        name: n@,
                                        type_offset: e.type_offset,
                                        location: e.location@,
                                        kind: DeclarationKind::Global,
                                    },
                                ));
                            }
                        }
                    },
                    None => {
                    },
                }
            },
            EntryTag::Other => {
            },
        }
        k = k + 1;
    }
    let subs: Vec<Subroutine> = match cur {
        Some(c) => {
            let ghost cv = sub_view(c);
            let mut d = done;
            d.push(c);
            proof {
                assert(subs_view(d@) =~~= subs_view(d@.drop_last()).push(cv));
                assert(d@.drop_last() =~= d@.subrange(0, d@.len() - 1));
            }
            d
        },
        None => done,
    };
    proof {
        assert(entries@.subrange(0, entries@.len() as int) =~= entries@);
    }
    (subs, globals)
}

/// Attach a declaration to the innermost open scope of `c`, as `attach_var`
/// states it.
fn attach_var_exec(c: &mut Subroutine, d: u64, var: Variable, is_param: bool)
    ensures
        sub_view(*final(c)) == attach_var(sub_view(*old(c)), d, var_view(var), is_param),
{
    let ghost cv = sub_view(*old(c));
    let ghost vv = var_view(var);
    proof {
        assert(sub_view(*c).blocks.subrange(0, sub_view(*c).blocks.len() as int)
            =~= sub_view(*c).blocks);
    }
    let mut j: usize = c.blocks.len();
    while j > 0 && c.blocks[j - 1].depth >= d
        invariant
            j <= c.blocks@.len(),
            *c == *old(c),
            last_open_block(sub_view(*c).blocks, d)
                == last_open_block(sub_view(*c).blocks.subrange(0, j as int), d),
            forall|w: int| 0 <= w < sub_view(*c).blocks.len() ==> #[trigger] sub_view(
                *c,
            ).blocks[w].depth == c.blocks@[w].depth,
        decreases j,
    {
        proof {
            let bl = sub_view(*c).blocks;
            assert(bl.subrange(0, j as int).last() == bl[j - 1]);
            assert(bl.subrange(0, j as int).drop_last() =~= bl.subrange(0, j - 1));
        }
        j = j - 1;
    }
    proof {
        let bl = sub_view(*c).blocks;
        if j > 0 {
            assert(bl.subrange(0, j as int).last() == bl[j - 1]);
        } else {
            assert(bl.subrange(0, 0) =~= Seq::<BlockV>::empty());
        }
    }
    if j > 0 {
        // the block at j - 1 is the innermost open scope
        let mut blk = c.blocks.remove(j - 1);
        let ghost bv = block_view(blk);
        let mut var2 = var;
        var2.kind = DeclarationKind::Local;
        blk.variables.push(var2);
        proof {
            assert(block_view(blk).variables =~~= bv.variables.push(
                VariableV { kind: DeclarationKind::Local, ..vv },
            ));
        }
        c.blocks.insert(j - 1, blk);
        proof {
            assert(sub_view(*c).blocks =~~= cv.blocks.update(
                j - 1,
                BlockV {
                    variables: cv.blocks[j - 1].variables.push(
                        VariableV { kind: DeclarationKind::Local, ..vv },
                    ),
                    ..cv.blocks[j - 1]
                },
            ));
        }
    } else if is_param {
        let ghost ps = sub_view(*c).parameters;
        c.parameters.push(var);
        proof {
            assert(sub_view(*c).parameters =~~= ps.push(vv));
        }
    } else {
        let ghost vs = sub_view(*c).variables;
        c.variables.push(var);
        proof {
            assert(sub_view(*c).variables =~~= vs.push(vv));
        }
    }
}

} // verus!
