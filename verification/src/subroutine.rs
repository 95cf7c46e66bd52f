use vstd::prelude::*;
use crate::error::DwarfError;

verus! {

/// Where a variable was declared.
#[derive(Clone, Copy, PartialEq, Eq, Structural, Debug)]
pub enum DeclarationKind {
    Parameter,
    Local,
    Global,
}

/// A declared variable: its name, a reference into its unit's entry tree for
/// the declared type, and the byte-encoded location expression saying where
/// its value lives at runtime.
#[derive(Clone)]
pub struct Variable {
    pub name: String,
    pub type_offset: Option<u64>,
    pub location: Vec<u8>,
    pub kind: DeclarationKind,
}

/// A lexical block: an address-range-bounded scope inside a subprogram.
/// `depth` is the block's depth in the unit's entry tree; blocks are kept in
/// depth-first order, so of two blocks containing the same offset the later
/// one is the inner one.
pub struct LexicalBlock {
    pub low_pc: u64,
    pub high_pc: u64,
    pub depth: u64,
    pub variables: Vec<Variable>,
}

/// A subprogram scope with its parameters, body variables and nested blocks.
pub struct Subroutine {
    pub name: Option<String>,
    pub low_pc: u64,
    pub high_pc: u64,
    pub unit_offset: u64,
    pub frame_base: Vec<u8>,
    pub parameters: Vec<Variable>,
    pub variables: Vec<Variable>,
    pub blocks: Vec<LexicalBlock>,
}

/// The forest of subprogram scopes of every unit, merged in unit order.
pub struct DwarfSubroutineMap {
    pub subroutines: Vec<Subroutine>,
}

/// A scope is active at `o` exactly when its half-open range holds `o`.
pub open spec fn contains_offset(low: u64, high: u64, o: u64) -> bool {
    low <= o < high
}

/// Index of the first subroutine whose range contains `o`, scanning from `from`.
pub open spec fn first_subroutine_from(subs: Seq<Subroutine>, o: u64, from: int) -> Option<int>
    decreases subs.len() - from,
{
    if from < 0 || from >= subs.len() {
        None
    } else if contains_offset(subs[from].low_pc, subs[from].high_pc, o) {
        Some(from)
    } else {
        first_subroutine_from(subs, o, from + 1)
    }
}

/// The declared names of a variable list, in declaration order.
pub open spec fn var_names(vars: Seq<Variable>) -> Seq<String> {
    vars.map(|i: int, v: Variable| v.name)
}

/// Names of the blocks active at `o`, innermost first: blocks are stored in
/// depth-first order, so the scan walks them from the last to the first.
pub open spec fn blocks_names(blocks: Seq<LexicalBlock>, o: u64) -> Seq<String>
    decreases blocks.len(),
{
    if blocks.len() == 0 {
        Seq::empty()
    } else if contains_offset(blocks.last().low_pc, blocks.last().high_pc, o) {
        var_names(blocks.last().variables@) + blocks_names(blocks.drop_last(), o)
    } else {
        blocks_names(blocks.drop_last(), o)
    }
}

/// All names visible at `o` inside `sub`: the active blocks' variables,
/// innermost scope first, then the subprogram's own variables and parameters.
/// A name declared in an inner and an outer scope appears twice, the inner
/// occurrence first: ordering is what records shadowing.
pub open spec fn names_at(sub: Subroutine, o: u64) -> Seq<String> {
    blocks_names(sub.blocks@, o) + var_names(sub.variables@) + var_names(sub.parameters@)
}

/// Blocks of one subprogram nest: two blocks are disjoint or the later
/// (deeper-or-sibling) one lies inside the earlier one.
pub open spec fn blocks_nested(blocks: Seq<LexicalBlock>) -> bool {
    forall|i: int, j: int| 0 <= i < j < blocks.len() ==> {
        ||| blocks[j].high_pc <= blocks[i].low_pc
        ||| blocks[j].low_pc >= blocks[i].high_pc
        ||| (blocks[i].low_pc <= blocks[j].low_pc && blocks[j].high_pc <= blocks[i].high_pc)
    }
}

/// Inner scopes come first: of two blocks active at the same offset, the one
/// stored later lies inside the one stored earlier, and `names_at` lists the
/// later one's names first.
pub proof fn lemma_inner_scopes_first(blocks: Seq<LexicalBlock>, o: u64, i: int, j: int)
    requires
        blocks_nested(blocks),
        0 <= i < j < blocks.len(),
        contains_offset(blocks[i].low_pc, blocks[i].high_pc, o),
        contains_offset(blocks[j].low_pc, blocks[j].high_pc, o),
    ensures
        blocks[i].low_pc <= blocks[j].low_pc && blocks[j].high_pc <= blocks[i].high_pc,
{
}

/// What a first-containing-subroutine index means, in both outcomes.
pub proof fn lemma_first_subroutine_props(subs: Seq<Subroutine>, o: u64, from: int)
    requires
        0 <= from,
    ensures
        match first_subroutine_from(subs, o, from) {
            Some(j) => {
                &&& from <= j < subs.len()
                &&& contains_offset(subs[j].low_pc, subs[j].high_pc, o)
                &&& forall|k: int| from <= k < j
                    ==> !contains_offset(#[trigger] subs[k].low_pc, subs[k].high_pc, o)
            },
            None => forall|k: int| from <= k < subs.len()
                ==> !contains_offset(#[trigger] subs[k].low_pc, subs[k].high_pc, o),
        },
    decreases subs.len() - from,
{
    if from < subs.len() && !contains_offset(subs[from].low_pc, subs[from].high_pc, o) {
        lemma_first_subroutine_props(subs, o, from + 1);
    }
}

impl DwarfSubroutineMap {
    /// The subroutine whose range contains `offset`: the first such in storage
    /// order (sibling subprogram ranges never overlap in well-formed input, so
    /// at most one contains it). `SubroutineNotFound` exactly when no
    /// subprogram's range contains `offset`.
    pub fn find_subroutine(&self, offset: u64) -> (r: Result<&Subroutine, DwarfError>)
        ensures
            match r {
                Ok(s) => {
                    &&& first_subroutine_from(self.subroutines@, offset, 0) matches Some(i)
                    &&& *s == self.subroutines@[i]
                },
                Err(e) => {
                    &&& e == DwarfError::SubroutineNotFound
                    &&& first_subroutine_from(self.subroutines@, offset, 0) is None
                },
            },
    {
        let mut k: usize = 0;
        while k < self.subroutines.len()
            invariant
                k <= self.subroutines@.len(),
                first_subroutine_from(self.subroutines@, offset, 0)
                    == first_subroutine_from(self.subroutines@, offset, k as int),
            decreases self.subroutines@.len() - k,
        {
            let s = &self.subroutines[k];
            if s.low_pc <= offset && offset < s.high_pc {
                return Ok(s);
            }
            k = k + 1;
        }
        Err(DwarfError::SubroutineNotFound)
    }

    /// Every variable name visible at `offset`: the containing subprogram's
    /// active blocks innermost first, then its body variables, then its
    /// parameters. `SubroutineNotFound` exactly when no subprogram's range
    /// contains `offset`.
    pub fn variable_name_list(&self, offset: u64) -> (r: Result<Vec<String>, DwarfError>)
        ensures
            match r {
                Ok(names) => {
                    &&& first_subroutine_from(self.subroutines@, offset, 0) matches Some(i)
                    &&& names@ == names_at(self.subroutines@[i], offset)
                },
                Err(e) => {
                    &&& e == DwarfError::SubroutineNotFound
                    &&& first_subroutine_from(self.subroutines@, offset, 0) is None
                },
            },
    {
        let sub = match self.find_subroutine(offset) {
            Ok(s) => s,
            Err(e) => {
                return Err(e);
            },
        };
        let mut names: Vec<String> = Vec::new();
        let mut b: usize = sub.blocks.len();
        proof {
            assert(sub.blocks@.subrange(0, sub.blocks@.len() as int) =~= sub.blocks@);
        }
        while b > 0
            invariant
                b <= sub.blocks@.len(),
                blocks_names(sub.blocks@, offset) == names@
                    + blocks_names(sub.blocks@.subrange(0, b as int), offset),
            decreases b,
        {
            b = b - 1;
            let ghost pre = sub.blocks@.subrange(0, b + 1);
            proof {
                assert(pre.last() == sub.blocks@[b as int]);
                assert(pre.drop_last() =~= sub.blocks@.subrange(0, b as int));
            }
            let blk = &sub.blocks[b];
            if blk.low_pc <= offset && offset < blk.high_pc {
                let mut v: usize = 0;
                while v < blk.variables.len()
                    invariant
                        v <= blk.variables@.len(),
                        blocks_names(sub.blocks@, offset) == names@
                            + var_names(blk.variables@).subrange(v as int, blk.variables@.len() as int)
                            + blocks_names(sub.blocks@.subrange(0, b as int), offset),
                    decreases blk.variables@.len() - v,
                {
                    names.push(blk.variables[v].name.clone());
                    proof {
                        assert(var_names(blk.variables@)[v as int] == blk.variables@[v as int].name);
                        assert(names@ + var_names(blk.variables@).subrange(
                            v + 1, blk.variables@.len() as int)
                            + blocks_names(sub.blocks@.subrange(0, b as int), offset)
                            =~= names@.drop_last() + var_names(blk.variables@).subrange(
                                v as int, blk.variables@.len() as int)
                            + blocks_names(sub.blocks@.subrange(0, b as int), offset));
                    }
                    v = v + 1;
                }
                proof {
                    assert(var_names(blk.variables@).subrange(
                        blk.variables@.len() as int, blk.variables@.len() as int)
                        =~= Seq::<String>::empty());
                    assert(names@ + Seq::<String>::empty()
                        + blocks_names(sub.blocks@.subrange(0, b as int), offset)
                        =~= names@ + blocks_names(sub.blocks@.subrange(0, b as int), offset));
                }
            }
        }
        proof {
            assert(sub.blocks@.subrange(0, 0) =~= Seq::<LexicalBlock>::empty());
            assert(blocks_names(Seq::<LexicalBlock>::empty(), offset)
                == Seq::<String>::empty());
            assert(names@ + Seq::<String>::empty() =~= names@);
        }
        let mut v: usize = 0;
        while v < sub.variables.len()
            invariant
                v <= sub.variables@.len(),
                names@ == blocks_names(sub.blocks@, offset)
                    + var_names(sub.variables@).subrange(0, v as int),
            decreases sub.variables@.len() - v,
        {
            names.push(sub.variables[v].name.clone());
            proof {
                assert(var_names(sub.variables@)[v as int] == sub.variables@[v as int].name);
                assert(blocks_names(sub.blocks@, offset)
                    + var_names(sub.variables@).subrange(0, v + 1)
                    =~= names@);
            }
            v = v + 1;
        }
        proof {
            assert(var_names(sub.variables@).subrange(0, sub.variables@.len() as int)
                =~= var_names(sub.variables@));
        }
        let mut p: usize = 0;
        while p < sub.parameters.len()
            invariant
                p <= sub.parameters@.len(),
                names@ == blocks_names(sub.blocks@, offset) + var_names(sub.variables@)
                    + var_names(sub.parameters@).subrange(0, p as int),
            decreases sub.parameters@.len() - p,
        {
            names.push(sub.parameters[p].name.clone());
            proof {
                assert(var_names(sub.parameters@)[p as int] == sub.parameters@[p as int].name);
                assert(blocks_names(sub.blocks@, offset) + var_names(sub.variables@)
                    + var_names(sub.parameters@).subrange(0, p + 1)
                    =~= names@);
            }
            p = p + 1;
        }
        proof {
            assert(var_names(sub.parameters@).subrange(0, sub.parameters@.len() as int)
                =~= var_names(sub.parameters@));
        }
        Ok(names)
    }
}

} // verus!
