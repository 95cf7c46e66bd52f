use vstd::prelude::*;
use crate::error::DwarfError;
use crate::subroutine::{Variable, LexicalBlock, Subroutine, contains_offset};
use crate::typeinfo::{TypeTag, TypeEncoding};
use crate::value::{le_value, le_signed, dec_u, dec_i, decode_unsigned_le, decode_signed_le,
    format_unsigned, format_signed};
use vstd::string::StringExecFns;

verus! {

/// A resolved variable, handed to the debugger front-end: where its value
/// lives, how many bytes it occupies, the raw bytes once the caller has read
/// them, and enough of its type to render a scalar.
pub struct VariableInfo {
    pub name: String,
    pub address: u64,
    pub byte_size: u64,
    pub memory_slice: Vec<u8>,
    pub tag: TypeTag,
    pub encoding: TypeEncoding,
    pub type_offset: Option<u64>,
}

/// What `print` renders: scalars by their encoding over the held bytes.
/// Aggregates need the entry tree and are rendered through the type table
/// instead; floating point is not formatted by this engine.
pub open spec fn spec_print(
    tag: TypeTag,
    encoding: TypeEncoding,
    byte_size: u64,
    bytes: Seq<u8>,
) -> Option<Seq<char>> {
    match tag {
        TypeTag::BaseType => if 1 <= byte_size <= 8 && byte_size <= bytes.len() {
            let span = bytes.subrange(0, byte_size as int);
            match encoding {
                TypeEncoding::Signed => Some(dec_i(le_signed(span))),
                TypeEncoding::Unsigned => Some(dec_u(le_value(span))),
                TypeEncoding::Address => Some(dec_u(le_value(span))),
                TypeEncoding::Boolean => if le_value(span) == 0 {
                    Some("false"@)
                } else {
                    Some("true"@)
                },
                TypeEncoding::Float => None,
            }
        } else {
            None
        },
        TypeTag::PointerType => if bytes.len() >= 4 {
            Some(seq!['0', 'x'] + dec_u(le_value(bytes.subrange(0, 4))))
        } else {
            None
        },
        TypeTag::VoidType => Some("void"@),
        TypeTag::ArrayType => None,
        TypeTag::StructureType => None,
    }
}

impl VariableInfo {
    /// Store the bytes the caller read at `address`; every other field keeps
    /// its value.
    pub fn set_memory_slice(&mut self, data: &[u8])
        ensures
            final(self).memory_slice@ == data@,
            final(self).name == old(self).name,
            final(self).address == old(self).address,
            final(self).byte_size == old(self).byte_size,
            final(self).tag == old(self).tag,
            final(self).encoding == old(self).encoding,
            final(self).type_offset == old(self).type_offset,
    {
        let mut v: Vec<u8> = Vec::new();
        let mut k: usize = 0;
        while k < data.len()
            invariant
                k <= data@.len(),
                v@ == data@.subrange(0, k as int),
            decreases data@.len() - k,
        {
            v.push(data[k]);
            proof {
                assert(data@.subrange(0, k + 1) =~= data@.subrange(0, k as int).push(
                    data@[k as int],
                ));
            }
            k = k + 1;
        }
        proof {
            assert(data@.subrange(0, data@.len() as int) =~= data@);
        }
        self.memory_slice = v;
    }

    /// Render the held bytes as the scalar the type describes; `None` when the
    /// value is an aggregate, a floating point value, or the span is too short.
    pub fn print(&self) -> (r: Option<String>)
        ensures
            match r {
                Some(s) => spec_print(self.tag, self.encoding, self.byte_size, self.memory_slice@)
                    == Some(s@),
                None => spec_print(self.tag, self.encoding, self.byte_size, self.memory_slice@)
                    is None,
            },
    {
        match self.tag {
            TypeTag::BaseType => {
                if !(1 <= self.byte_size && self.byte_size <= 8 && self.byte_size
                    <= self.memory_slice.len() as u64) {
                    return None;
                }
                let bs = self.byte_size as usize;
                let mut span: Vec<u8> = Vec::new();
                let mut k: usize = 0;
                while k < bs
                    invariant
                        k <= bs,
                        bs <= self.memory_slice@.len(),
                        span@ == self.memory_slice@.subrange(0, k as int),
                    decreases bs - k,
                {
                    span.push(self.memory_slice[k]);
                    proof {
                        assert(self.memory_slice@.subrange(0, k + 1) =~= self.memory_slice@
                            .subrange(0, k as int).push(self.memory_slice@[k as int]));
                    }
                    k = k + 1;
                }
                match self.encoding {
                    TypeEncoding::Signed => Some(format_signed(decode_signed_le(&span))),
                    TypeEncoding::Unsigned => Some(format_unsigned(decode_unsigned_le(&span))),
                    TypeEncoding::Address => Some(format_unsigned(decode_unsigned_le(&span))),
                    TypeEncoding::Boolean => {
                        let v = decode_unsigned_le(&span);
                        if v == 0 {
                            Some(String::from_str("false"))
                        } else {
                            Some(String::from_str("true"))
                        }
                    },
                    TypeEncoding::Float => None,
                }
            },
            TypeTag::PointerType => {
                if self.memory_slice.len() < 4 {
                    return None;
                }
                let mut span: Vec<u8> = Vec::new();
                let mut k: usize = 0;
                while k < 4
                    invariant
                        k <= 4,
                        4 <= self.memory_slice@.len(),
                        span@ == self.memory_slice@.subrange(0, k as int),
                    decreases 4 - k,
                {
                    span.push(self.memory_slice[k]);
                    proof {
                        assert(self.memory_slice@.subrange(0, k + 1) =~= self.memory_slice@
                            .subrange(0, k as int).push(self.memory_slice@[k as int]));
                    }
                    k = k + 1;
                }
                proof {
                    reveal_strlit("0x");
                }
                let mut s = String::from_str("0x");
                s.append(format_unsigned(decode_unsigned_le(&span)).as_str());
                proof {
                    assert(s@ =~= seq!['0', 'x'] + dec_u(le_value(self.memory_slice@.subrange(
                        0,
                        4,
                    ))));
                }
                Some(s)
            },
            TypeTag::VoidType => Some(String::from_str("void")),
            TypeTag::ArrayType => None,
            TypeTag::StructureType => None,
        }
    }
}

/// Index of the first variable named `name`, scanning from `from`.
pub open spec fn find_var_in(vars: Seq<Variable>, name: Seq<char>, from: int) -> Option<int>
    decreases vars.len() - from,
{
    if from < 0 || from >= vars.len() {
        None
    } else if vars[from].name@ == name {
        Some(from)
    } else {
        find_var_in(vars, name, from + 1)
    }
}

/// The variable named `name` in the innermost active block: blocks are in
/// depth-first order, so the scan walks them from the last to the first, and
/// an inner declaration shadows an outer one.
pub open spec fn find_in_blocks(blocks: Seq<LexicalBlock>, o: u64, name: Seq<char>) -> Option<
    Variable,
>
    decreases blocks.len(),
{
    if blocks.len() == 0 {
        None
    } else if contains_offset(blocks.last().low_pc, blocks.last().high_pc, o) && find_var_in(
        blocks.last().variables@,
        name,
        0,
    ) is Some {
        Some(blocks.last().variables@[find_var_in(blocks.last().variables@, name, 0)->Some_0])
    } else {
        find_in_blocks(blocks.drop_last(), o, name)
    }
}

/// The declaration of `name` visible at `o` in `sub`: the innermost active
/// block first, then the subprogram's body variables, then its parameters.
pub open spec fn spec_find_variable(sub: Subroutine, o: u64, name: Seq<char>) -> Option<Variable> {
    match find_in_blocks(sub.blocks@, o, name) {
        Some(v) => Some(v),
        None => match find_var_in(sub.variables@, name, 0) {
            Some(i) => Some(sub.variables@[i]),
            None => match find_var_in(sub.parameters@, name, 0) {
                Some(i) => Some(sub.parameters@[i]),
                None => None,
            },
        },
    }
}

/// Find the first variable named `name` in a list.
pub fn find_var_exec<'a>(vars: &'a Vec<Variable>, name: &String) -> (r: Option<&'a Variable>)
    ensures
        match r {
            Some(v) => {
                &&& find_var_in(vars@, name@, 0) matches Some(i)
                &&& *v == vars@[i]
            },
            None => find_var_in(vars@, name@, 0) is None,
        },
{
    let mut k: usize = 0;
    while k < vars.len()
        invariant
            k <= vars@.len(),
            find_var_in(vars@, name@, 0) == find_var_in(vars@, name@, k as int),
        decreases vars@.len() - k,
    {
        if vars[k].name == *name {
            return Some(&vars[k]);
        }
        k = k + 1;
    }
    None
}

/// Find the declaration of `name` visible at `offset` in `sub`.
pub fn find_variable<'a>(sub: &'a Subroutine, offset: u64, name: &String) -> (r: Option<
    &'a Variable,
>)
    ensures
        match r {
            Some(v) => spec_find_variable(*sub, offset, name@) == Some(*v),
            None => spec_find_variable(*sub, offset, name@) is None,
        },
{
    let mut b: usize = sub.blocks.len();
    proof {
        assert(sub.blocks@.subrange(0, sub.blocks@.len() as int) =~= sub.blocks@);
    }
    while b > 0
        invariant
            b <= sub.blocks@.len(),
            find_in_blocks(sub.blocks@, offset, name@)
                == find_in_blocks(sub.blocks@.subrange(0, b as int), offset, name@),
        decreases b,
    {
        b = b - 1;
        let ghost pre = sub.blocks@.subrange(0, b + 1);
        proof {
            assert(pre.last() == sub.blocks@[b as int]);
            assert(pre.drop_last() =~= sub.blocks@.subrange(0, b as int));
        }
        let blk = &sub.blocks[b];
        if blk.low_pc <= offset && offset < blk.high_pc {
            match find_var_exec(&blk.variables, name) {
                Some(v) => {
                    return Some(v);
                },
                None => {
                },
            }
        }
    }
    proof {
        assert(sub.blocks@.subrange(0, 0) =~= Seq::<LexicalBlock>::empty());
    }
    match find_var_exec(&sub.variables, name) {
        Some(v) => {
            return Some(v);
        },
        None => {
        },
    }
    match find_var_exec(&sub.parameters, name) {
        Some(v) => {
            return Some(v);
        },
        None => {
        },
    }
    None
}

/// The unit-level variables of one compilation unit.
pub struct UnitGlobals {
    pub unit_offset: u64,
    pub variables: Vec<Variable>,
}

/// Unit-level variables of every unit, in unit order.
pub struct DwarfGlobalVariables {
    pub units: Vec<UnitGlobals>,
}

/// Index of the first unit record bearing `unit_offset`.
pub open spec fn find_unit_from(units: Seq<UnitGlobals>, unit_offset: u64, from: int) -> Option<
    int,
>
    decreases units.len() - from,
{
    if from < 0 || from >= units.len() {
        None
    } else if units[from].unit_offset == unit_offset {
        Some(from)
    } else {
        find_unit_from(units, unit_offset, from + 1)
    }
}

impl DwarfGlobalVariables {
    /// The names of the unit's global variables, in declaration order; a unit
    /// this table does not know yields no names.
    pub fn variable_name_list(&self, unit_offset: u64) -> (r: Vec<String>)
        ensures
            match find_unit_from(self.units@, unit_offset, 0) {
                Some(i) => r@ == crate::subroutine::var_names(self.units@[i].variables@),
                None => r@ == Seq::<String>::empty(),
            },
    {
        let mut k: usize = 0;
        while k < self.units.len()
            invariant
                k <= self.units@.len(),
                find_unit_from(self.units@, unit_offset, 0)
                    == find_unit_from(self.units@, unit_offset, k as int),
            decreases self.units@.len() - k,
        {
            if self.units[k].unit_offset == unit_offset {
                let vars = &self.units[k].variables;
                let mut names: Vec<String> = Vec::new();
                let mut v: usize = 0;
                while v < vars.len()
                    invariant
                        v <= vars@.len(),
                        names@ == crate::subroutine::var_names(vars@).subrange(0, v as int),
                    decreases vars@.len() - v,
                {
                    names.push(vars[v].name.clone());
                    proof {
                        assert(crate::subroutine::var_names(vars@)[v as int] == vars@[v as int]
                            .name);
                        assert(crate::subroutine::var_names(vars@).subrange(0, v + 1) =~= names@);
                    }
                    v = v + 1;
                }
                proof {
                    assert(crate::subroutine::var_names(vars@).subrange(
                        0,
                        vars@.len() as int,
                    ) =~= crate::subroutine::var_names(vars@));
                }
                return names;
            }
            k = k + 1;
        }
        Vec::new()
    }

    /// The first global of the unit named `name`.
    pub fn find_global<'a>(&'a self, unit_offset: u64, name: &String) -> (r: Option<&'a Variable>)
        ensures
            match r {
                Some(v) => {
                    &&& find_unit_from(self.units@, unit_offset, 0) matches Some(i)
                    &&& find_var_in(self.units@[i].variables@, name@, 0) matches Some(j)
                    &&& *v == self.units@[i].variables@[j]
                },
                None => match find_unit_from(self.units@, unit_offset, 0) {
                    Some(i) => find_var_in(self.units@[i].variables@, name@, 0) is None,
                    None => true,
                },
            },
    {
        let mut k: usize = 0;
        while k < self.units.len()
            invariant
                k <= self.units@.len(),
                find_unit_from(self.units@, unit_offset, 0)
                    == find_unit_from(self.units@, unit_offset, k as int),
            decreases self.units@.len() - k,
        {
            if self.units[k].unit_offset == unit_offset {
                return find_var_exec(&self.units[k].variables, name);
            }
            k = k + 1;
        }
        None
    }
}

} // verus!
