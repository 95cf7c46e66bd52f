pub mod builder;
pub mod error;
pub mod leb128;
pub mod lineprog;
pub mod location;
pub mod sourcemap;
pub mod subroutine;
pub mod typeinfo;
pub mod value;
pub mod variables;

use vstd::prelude::*;
use crate::builder::{DebugEntry, SubV, VariableV, build_unit, builder_subs, builder_globals,
    subs_view, vars_view};
use crate::error::DwarfError;
use crate::location::{ops_at, spec_evaluate, EvaluatedLocation, decode_expression, evaluate};
use crate::sourcemap::{DwarfSourceMap, UnitSourceRows, LineRow, LineInfo, rows_files_ok,
    insert_all, remap_rows, spec_find_row, first_match_from};
use crate::subroutine::{DwarfSubroutineMap, Subroutine, Variable, first_subroutine_from,
    names_at, var_names};
use crate::typeinfo::{TypeTable, TypeRecord, TypeEntry, TypeTag, TypeEncoding, spec_size,
    spec_lookup_from};
use crate::variables::{VariableInfo, DwarfGlobalVariables, UnitGlobals, spec_find_variable,
    find_variable, find_var_in, find_unit_from};

verus! {

/// How many type references a resolution chases before giving up: the entry
/// tree may hold reference cycles, and resolution rejects rather than loops.
pub const TYPE_CHASE_DEPTH: u64 = 64;

/// Everything the transformation extracted from one compilation unit, as
/// plain values: its section offset, its line-program rows and file table,
/// its entry records in depth-first order, and its type entries.
pub struct UnitData {
    pub unit_offset: u64,
    pub source: UnitSourceRows,
    pub entries: Vec<DebugEntry>,
    pub types: TypeTable,
}

/// One unit's type table, keyed by the unit's section offset.
pub struct UnitTypes {
    pub unit_offset: u64,
    pub table: TypeTable,
}

/// The type tables of every unit.
pub struct TypeTables {
    pub units: Vec<UnitTypes>,
}

/// A unit's type table, at the level contracts speak of.
#[verifier::ext_equal]
pub ghost struct UnitTypesV {
    pub unit_offset: u64,
    pub records: Seq<TypeRecord>,
}

/// A unit's global variable list, at the level contracts speak of.
#[verifier::ext_equal]
pub ghost struct UnitGlobalsV {
    pub unit_offset: u64,
    pub variables: Seq<VariableV>,
}

/// The immutable aggregate every query reads: the merged source map, the
/// subprogram scope forest, the unit-level variable lists, and the per-unit
/// type tables. Built once from the unit data and never mutated afterward.
pub struct DwarfDebugInfo {
    pub sourcemap: DwarfSourceMap,
    pub subroutine: DwarfSubroutineMap,
    pub global_variables: DwarfGlobalVariables,
    pub types: TypeTables,
}

/// A unit's rows count only when every row's file index points into the
/// unit's own file table; a unit that breaks this has a malformed line
/// program and its rows are dropped, other units unaffected.
pub open spec fn unit_rows_ok(u: UnitData) -> bool {
    rows_files_ok(u.source.rows@, u.source.files@.len() as int)
}

/// The merged file table over a prefix of units, malformed units dropped.
pub open spec fn tf_files(units: Seq<UnitData>) -> Seq<String>
    decreases units.len(),
{
    if units.len() == 0 {
        Seq::empty()
    } else if unit_rows_ok(units.last()) {
        tf_files(units.drop_last()) + units.last().source.files@
    } else {
        tf_files(units.drop_last())
    }
}

/// The merged, offset-sorted row table over a prefix of units.
pub open spec fn tf_rows(units: Seq<UnitData>) -> Seq<LineRow>
    decreases units.len(),
{
    if units.len() == 0 {
        Seq::empty()
    } else if unit_rows_ok(units.last()) {
        insert_all(
            tf_rows(units.drop_last()),
            remap_rows(units.last().source.rows@, tf_files(units.drop_last()).len() as int),
        )
    } else {
        tf_rows(units.drop_last())
    }
}

/// The subprogram scopes of every unit, in unit order.
pub open spec fn tf_subs(units: Seq<UnitData>) -> Seq<SubV>
    decreases units.len(),
{
    if units.len() == 0 {
        Seq::empty()
    } else {
        tf_subs(units.drop_last()) + builder_subs(
            units.last().entries@,
            units.last().unit_offset,
        )
    }
}

/// The unit-level variable lists, one per unit.
pub open spec fn tf_globals(units: Seq<UnitData>) -> Seq<UnitGlobalsV> {
    units.map(
        |i: int, u: UnitData| UnitGlobalsV {
            unit_offset: u.unit_offset,
            variables: builder_globals(u.entries@, u.unit_offset),
        },
    )
}

/// The type tables, one per unit.
pub open spec fn tf_types(units: Seq<UnitData>) -> Seq<UnitTypesV> {
    units.map(
        |i: int, u: UnitData| UnitTypesV {
            unit_offset: u.unit_offset,
            records: u.types.records@,
        },
    )
}

pub open spec fn globals_view(units: Seq<UnitGlobals>) -> Seq<UnitGlobalsV> {
    units.map(
        |i: int, u: UnitGlobals| UnitGlobalsV {
            unit_offset: u.unit_offset,
            variables: vars_view(u.variables@),
        },
    )
}

pub open spec fn types_view(units: Seq<UnitTypes>) -> Seq<UnitTypesV> {
    units.map(
        |i: int, u: UnitTypes| UnitTypesV {
            unit_offset: u.unit_offset,
            records: u.table.records@,
        },
    )
}

/// What `transform_dwarf` builds from given unit data: the whole derived
/// state is a function of the units alone.
pub open spec fn transform_rel(d: DwarfDebugInfo, units: Seq<UnitData>) -> bool {
    &&& d.sourcemap.files@ == tf_files(units)
    &&& d.sourcemap.rows@ == tf_rows(units)
    &&& d.sourcemap.wf()
    &&& subs_view(d.subroutine.subroutines@) == tf_subs(units)
    &&& globals_view(d.global_variables.units@) == tf_globals(units)
    &&& types_view(d.types.units@) == tf_types(units)
}

/// Transformation runs once: every derived table is an exact function of the
/// unit data, so two aggregates built from the same units hold identical
/// source maps, scope forests, variable lists and type tables.
pub proof fn lemma_transform_deterministic(
    a: DwarfDebugInfo,
    b: DwarfDebugInfo,
    units: Seq<UnitData>,
)
    requires
        transform_rel(a, units),
        transform_rel(b, units),
    ensures
        a.sourcemap.files@ == b.sourcemap.files@,
        a.sourcemap.rows@ == b.sourcemap.rows@,
        subs_view(a.subroutine.subroutines@) == subs_view(b.subroutine.subroutines@),
        globals_view(a.global_variables.units@) == globals_view(b.global_variables.units@),
        types_view(a.types.units@) == types_view(b.types.units@),
{
}

/// Build the immutable debug-information aggregate from every unit's data:
/// merge the line tables, fold each unit's entry tree into its scope forest
/// and its unit-level variable list, and keep each unit's type table. A unit
/// whose line rows reference files outside its own table contributes no rows;
/// everything else of it is kept.
pub fn transform_dwarf(units: Vec<UnitData>) -> (r: DwarfDebugInfo)
    ensures
        transform_rel(r, units@),
{
    let mut rest = units;
    let ghost orig = rest@;
    let total = rest.len();
    let mut sourcemap = DwarfSourceMap::empty();
    let mut subroutines: Vec<Subroutine> = Vec::new();
    let mut globals: Vec<UnitGlobals> = Vec::new();
    let mut types: Vec<UnitTypes> = Vec::new();
    let mut k: usize = 0;
    proof {
        assert(subs_view(subroutines@) =~= Seq::<SubV>::empty());
        assert(globals_view(globals@) =~= Seq::<UnitGlobalsV>::empty());
        assert(types_view(types@) =~= Seq::<UnitTypesV>::empty());
        assert(orig.subrange(0, 0) =~= Seq::<UnitData>::empty());
        assert(rest@ =~= orig.skip(0));
    }
    while rest.len() > 0
        invariant
            k <= orig.len(),
            total == orig.len(),
            rest@ == orig.skip(k as int),
            sourcemap.wf(),
            sourcemap.files@ == tf_files(orig.subrange(0, k as int)),
            sourcemap.rows@ == tf_rows(orig.subrange(0, k as int)),
            subs_view(subroutines@) == tf_subs(orig.subrange(0, k as int)),
            globals_view(globals@) == tf_globals(orig.subrange(0, k as int)),
            types_view(types@) == tf_types(orig.subrange(0, k as int)),
        decreases rest@.len(),
    {
        let ghost pre_state = orig.subrange(0, k as int);
        let u = rest.remove(0);
        proof {
            assert(orig.skip(k as int)[0] == orig[k as int]);
            assert(rest@ =~= orig.skip(k + 1));
            assert(orig.subrange(0, k + 1).drop_last() =~= orig.subrange(0, k as int));
            assert(orig.subrange(0, k + 1).last() == orig[k as int]);
        }
        let UnitData { unit_offset, source, entries, types: unit_types } = u;
        // a row referencing a file outside the unit's table marks a malformed
        // line program: that unit's rows are dropped
        let mut rows_ok = true;
        let mut w: usize = 0;
        while w < source.rows.len()
            invariant
                w <= source.rows@.len(),
                rows_ok == rows_files_ok(
                    source.rows@.subrange(0, w as int),
                    source.files@.len() as int,
                ),
            decreases source.rows@.len() - w,
        {
            let ghost pre = source.rows@.subrange(0, w + 1);
            proof {
                assert(forall|i: int| 0 <= i < w ==> pre[i] == #[trigger] source.rows@.subrange(
                    0,
                    w as int,
                )[i]);
                assert(pre[w as int] == source.rows@[w as int]);
                assert(pre.drop_last() =~= source.rows@.subrange(0, w as int));
            }
            if source.rows[w].file >= source.files.len() as u64 {
                rows_ok = false;
            }
            w = w + 1;
        }
        proof {
            assert(source.rows@.subrange(0, source.rows@.len() as int) =~= source.rows@);
        }
        if rows_ok {
            sourcemap.add_unit(&source);
        }
        let built = build_unit(&entries, unit_offset);
        let ghost pre_subs = subs_view(subroutines@);
        let mut new_subs = built.0;
        let ghost add_subs = subs_view(new_subs@);
        subroutines.append(&mut new_subs);
        globals.push(UnitGlobals { unit_offset, variables: built.1 });
        types.push(UnitTypes { unit_offset, table: unit_types });
        proof {
            assert(subs_view(subroutines@) =~= pre_subs + add_subs);
            assert(globals_view(globals@) =~= tf_globals(pre_state).push(
                UnitGlobalsV {
                    unit_offset,
                    variables: builder_globals(
                        orig[k as int].entries@,
                        orig[k as int].unit_offset,
                    ),
                },
            ));
            assert(tf_globals(orig.subrange(0, k + 1)) =~= tf_globals(pre_state).push(
                UnitGlobalsV {
                    unit_offset,
                    variables: builder_globals(
                        orig[k as int].entries@,
                        orig[k as int].unit_offset,
                    ),
                },
            ));
            assert(types_view(types@) =~= tf_types(pre_state).push(
                UnitTypesV { unit_offset, records: orig[k as int].types.records@ },
            ));
            assert(tf_types(orig.subrange(0, k + 1)) =~= tf_types(pre_state).push(
                UnitTypesV { unit_offset, records: orig[k as int].types.records@ },
            ));
        }
        k = k + 1;
    }
    proof {
        assert(orig.subrange(0, orig.len() as int) =~= orig);
    }
    DwarfDebugInfo {
        sourcemap,
        subroutine: DwarfSubroutineMap { subroutines },
        global_variables: DwarfGlobalVariables { units: globals },
        types: TypeTables { units: types },
    }
}

/// The unit's global names: empty when the table does not know the unit.
pub open spec fn spec_global_names(units: Seq<UnitGlobals>, unit_offset: u64) -> Seq<String> {
    match find_unit_from(units, unit_offset, 0) {
        Some(g) => var_names(units[g].variables@),
        None => Seq::empty(),
    }
}

/// Index of the first type table bearing `unit_offset`.
pub open spec fn find_types_from(units: Seq<UnitTypes>, unit_offset: u64, from: int) -> Option<int>
    decreases units.len() - from,
{
    if from < 0 || from >= units.len() {
        None
    } else if units[from].unit_offset == unit_offset {
        Some(from)
    } else {
        find_types_from(units, unit_offset, from + 1)
    }
}

impl TypeTables {
    /// The type table of the unit at `unit_offset`.
    pub fn find_table(&self, unit_offset: u64) -> (r: Option<&TypeTable>)
        ensures
            match r {
                Some(t) => {
                    &&& find_types_from(self.units@, unit_offset, 0) matches Some(i)
                    &&& t.records@ == self.units@[i].table.records@
                },
                None => find_types_from(self.units@, unit_offset, 0) is None,
            },
    {
        let mut k: usize = 0;
        while k < self.units.len()
            invariant
                k <= self.units@.len(),
                find_types_from(self.units@, unit_offset, 0) == find_types_from(
                    self.units@,
                    unit_offset,
                    k as int,
                ),
            decreases self.units@.len() - k,
        {
            if self.units[k].unit_offset == unit_offset {
                return Some(&self.units[k].table);
            }
            k = k + 1;
        }
        None
    }
}

/// The tag and scalar encoding of the type at `off`: what a resolved
/// variable reports of its type without chasing aggregates.
pub open spec fn spec_type_summary(records: Seq<TypeRecord>, off: Option<u64>) -> Option<(
    TypeTag,
    TypeEncoding,
)> {
    match off {
        None => Some((TypeTag::VoidType, TypeEncoding::Unsigned)),
        Some(o) => match spec_lookup_from(records, o, 0) {
            None => None,
            Some(i) => match records[i].entry {
                TypeEntry::Base { encoding, .. } => Some((TypeTag::BaseType, encoding)),
                TypeEntry::Pointer { .. } => Some((TypeTag::PointerType, TypeEncoding::Address)),
                TypeEntry::Array { .. } => Some((TypeTag::ArrayType, TypeEncoding::Unsigned)),
                TypeEntry::Structure { .. } => Some(
                    (TypeTag::StructureType, TypeEncoding::Unsigned),
                ),
            },
        },
    }
}

/// Byte `i` of the little-endian image of `v`.
pub open spec fn le_byte(v: u64, i: int) -> u8 {
    ((v >> (8 * i) as u64) & 0xff) as u8
}

/// The frame base an expression yields against a snapshot, whichever class
/// of location it lands in.
pub open spec fn spec_frame_base(
    sub: Subroutine,
    locals: Seq<u64>,
    globals: Seq<u64>,
    operand_stack: Seq<u64>,
) -> Option<u64> {
    match ops_at(sub.frame_base@, 0) {
        None => None,
        Some(ops) => match spec_evaluate(ops, locals, globals, operand_stack, 0) {
            None => None,
            Some(EvaluatedLocation::Memory { address }) => Some(address),
            Some(EvaluatedLocation::Scalar { value }) => Some(value),
        },
    }
}

/// Where a variable's location expression puts its value.
pub open spec fn spec_var_location(
    var: Variable,
    locals: Seq<u64>,
    globals: Seq<u64>,
    operand_stack: Seq<u64>,
    frame_base: u64,
) -> Option<EvaluatedLocation> {
    match ops_at(var.location@, 0) {
        None => None,
        Some(ops) => spec_evaluate(ops, locals, globals, operand_stack, frame_base),
    }
}

/// A resolved variable, at the level contracts speak of.
#[verifier::ext_equal]
pub ghost struct VariableInfoV {
    pub name: Seq<char>,
    pub address: u64,
    pub byte_size: u64,
    pub memory_slice: Seq<u8>,
    pub tag: TypeTag,
    pub encoding: TypeEncoding,
    pub type_offset: Option<u64>,
}

/// What resolving one found variable yields: its location evaluated against
/// the snapshot, its type summarized, and - when the value is already a
/// scalar - the value's bytes; a memory location leaves the bytes for the
/// caller to read at the address.
pub open spec fn spec_resolve_variable(
    var: Variable,
    records: Seq<TypeRecord>,
    locals: Seq<u64>,
    globals: Seq<u64>,
    operand_stack: Seq<u64>,
    frame_base: u64,
) -> Result<VariableInfoV, DwarfError> {
    match spec_var_location(var, locals, globals, operand_stack, frame_base) {
        None => Err(DwarfError::UnsupportedLocationOp),
        Some(loc) => match spec_size(records, var.type_offset, TYPE_CHASE_DEPTH as nat) {
            None => Err(DwarfError::TypeMismatch),
            Some(bs) => match spec_type_summary(records, var.type_offset) {
                None => Err(DwarfError::TypeMismatch),
                Some((tag, encoding)) => Ok(
                    VariableInfoV {
                        name: var.name@,
                        address: match loc {
                            EvaluatedLocation::Memory { address } => address,
                            EvaluatedLocation::Scalar { .. } => 0,
                        },
                        byte_size: bs as u64,
                        memory_slice: match loc {
                            EvaluatedLocation::Memory { .. } => Seq::empty(),
                            EvaluatedLocation::Scalar { value } => Seq::new(
                                if bs <= 8 {
                                    bs
                                } else {
                                    8 as nat
                                },
                                |i: int| le_byte(value, i),
                            ),
                        },
                        tag: tag,
                        encoding: encoding,
                        type_offset: var.type_offset,
                    },
                ),
            },
        },
    }
}

pub open spec fn info_view(v: VariableInfo) -> VariableInfoV {
    VariableInfoV {
        name: v.name@,
        address: v.address,
        byte_size: v.byte_size,
        memory_slice: v.memory_slice@,
        tag: v.tag,
        encoding: v.encoding,
        type_offset: v.type_offset,
    }
}

/// What `get_variable_info` answers: the named variable visible at `offset`,
/// found in the containing subprogram's scopes first and among the unit's
/// globals second, resolved against the snapshot. `SubroutineNotFound` when
/// no subprogram contains `offset`; `Ok(None)` when the name is not visible
/// there; the resolution's own error when its location or type cannot be
/// handled.
pub open spec fn spec_get_variable_info(
    subs: Seq<Subroutine>,
    gunits: Seq<UnitGlobals>,
    tunits: Seq<UnitTypes>,
    name: Seq<char>,
    locals: Seq<u64>,
    globals: Seq<u64>,
    operand_stack: Seq<u64>,
    offset: u64,
) -> Result<Option<VariableInfoV>, DwarfError> {
    match first_subroutine_from(subs, offset, 0) {
        None => Err(DwarfError::SubroutineNotFound),
        Some(i) => {
            let sub = subs[i];
            match find_types_from(tunits, sub.unit_offset, 0) {
                None => Err(DwarfError::TypeMismatch),
                Some(t) => {
                    let records = tunits[t].table.records@;
                    match spec_find_variable(sub, offset, name) {
                        Some(var) => match spec_frame_base(sub, locals, globals, operand_stack) {
                            None => Err(DwarfError::UnsupportedLocationOp),
                            Some(fb) => match spec_resolve_variable(
                                var,
                                records,
                                locals,
                                globals,
                                operand_stack,
                                fb,
                            ) {
                                Ok(vi) => Ok(Some(vi)),
                                Err(e) => Err(e),
                            },
                        },
                        None => match find_unit_from(gunits, sub.unit_offset, 0) {
                            None => Ok(None),
                            Some(g) => match find_var_in(gunits[g].variables@, name, 0) {
                                None => Ok(None),
                                Some(j) => match spec_resolve_variable(
                                    gunits[g].variables@[j],
                                    records,
                                    locals,
                                    globals,
                                    operand_stack,
                                    0,
                                ) {
                                    Ok(vi) => Ok(Some(vi)),
                                    Err(e) => Err(e),
                                },
                            },
                        },
                    }
                },
            }
        },
    }
}

impl DwarfDebugInfo {
    /// Offset-to-source lookup, straight off the merged source map.
    pub fn find_line_info(&self, offset: u64) -> (r: Option<LineInfo>)
        requires
            self.sourcemap.wf(),
        ensures
            match r {
                None => spec_find_row(self.sourcemap.rows@, offset) is None,
                Some(li) => {
                    &&& spec_find_row(self.sourcemap.rows@, offset) matches Some(i)
                    &&& li.file@ == self.sourcemap.spec_files()[self.sourcemap.rows@[i].file as int]
                    &&& li.line == self.sourcemap.rows@[i].line
                    &&& li.column == self.sourcemap.rows@[i].column
                },
            },
    {
        self.sourcemap.find_line_info(offset)
    }

    /// Source-to-offset lookup, straight off the merged source map.
    pub fn find_address(&self, file: &String, line: u64) -> (r: Option<u64>)
        requires
            self.sourcemap.wf(),
        ensures
            match r {
                None => first_match_from(
                    self.sourcemap.rows@,
                    file@,
                    self.sourcemap.spec_files(),
                    line,
                    0,
                ) is None,
                Some(a) => {
                    &&& first_match_from(
                        self.sourcemap.rows@,
                        file@,
                        self.sourcemap.spec_files(),
                        line,
                        0,
                    ) matches Some(i)
                    &&& a == self.sourcemap.rows@[i].offset
                },
            },
    {
        self.sourcemap.find_address(file, line)
    }

    /// Every variable name visible at `offset`, innermost scope first.
    pub fn variable_name_list(&self, offset: u64) -> (r: Result<Vec<String>, DwarfError>)
        ensures
            match r {
                Ok(names) => {
                    &&& first_subroutine_from(self.subroutine.subroutines@, offset, 0)
                        matches Some(i)
                    &&& names@ == names_at(self.subroutine.subroutines@[i], offset)
                },
                Err(e) => {
                    &&& e == DwarfError::SubroutineNotFound
                    &&& first_subroutine_from(self.subroutine.subroutines@, offset, 0) is None
                },
            },
    {
        self.subroutine.variable_name_list(offset)
    }

    /// The unit-level variable names of the unit owning the subprogram at
    /// `offset`. `SubroutineNotFound` exactly when no subprogram contains it.
    pub fn global_variable_name_list(&self, offset: u64) -> (r: Result<Vec<String>, DwarfError>)
        ensures
            match r {
                Ok(names) => {
                    &&& first_subroutine_from(self.subroutine.subroutines@, offset, 0)
                        matches Some(i)
                    &&& names@ == spec_global_names(
                        self.global_variables.units@,
                        self.subroutine.subroutines@[i].unit_offset,
                    )
                },
                Err(e) => {
                    &&& e == DwarfError::SubroutineNotFound
                    &&& first_subroutine_from(self.subroutine.subroutines@, offset, 0) is None
                },
            },
    {
        let sub = match self.subroutine.find_subroutine(offset) {
            Ok(s) => s,
            Err(e) => {
                return Err(e);
            },
        };
        Ok(self.global_variables.variable_name_list(sub.unit_offset))
    }

    /// Resolve the variable named `opts` at `offset` against the snapshot.
    pub fn get_variable_info(
        &self,
        opts: &String,
        locals: &Vec<u64>,
        globals: &Vec<u64>,
        operand_stack: &Vec<u64>,
        offset: u64,
    ) -> (r: Result<Option<VariableInfo>, DwarfError>)
        ensures
            ({
                let s = spec_get_variable_info(
                    self.subroutine.subroutines@,
                    self.global_variables.units@,
                    self.types.units@,
                    opts@,
                    locals@,
                    globals@,
                    operand_stack@,
                    offset,
                );
                match r {
                    Ok(Some(vi)) => s == Ok::<Option<VariableInfoV>, DwarfError>(
                        Some(info_view(vi)),
                    ),
                    Ok(None) => s == Ok::<Option<VariableInfoV>, DwarfError>(None),
                    Err(e) => s == Err::<Option<VariableInfoV>, DwarfError>(e),
                }
            }),
    {
        let sub = match self.subroutine.find_subroutine(offset) {
            Ok(s) => s,
            Err(e) => {
                return Err(e);
            },
        };
        let table = match self.types.find_table(sub.unit_offset) {
            Some(t) => t,
            None => {
                return Err(DwarfError::TypeMismatch);
            },
        };
        match find_variable(sub, offset, opts) {
            Some(var) => {
                let fb_ops = match decode_expression(&sub.frame_base) {
                    Ok(ops) => ops,
                    Err(_) => {
                        return Err(DwarfError::UnsupportedLocationOp);
                    },
                };
                let fb = match evaluate(&fb_ops, locals, globals, operand_stack, 0) {
                    Ok(EvaluatedLocation::Memory { address }) => address,
                    Ok(EvaluatedLocation::Scalar { value }) => value,
                    Err(_) => {
                        return Err(DwarfError::UnsupportedLocationOp);
                    },
                };
                match resolve_variable(var, table, locals, globals, operand_stack, fb) {
                    Ok(vi) => Ok(Some(vi)),
                    Err(e) => Err(e),
                }
            },
            None => {
                let gvar = match self.global_variables.find_global(sub.unit_offset, opts) {
                    Some(v) => v,
                    None => {
                        return Ok(None);
                    },
                };
                match resolve_variable(gvar, table, locals, globals, operand_stack, 0) {
                    Ok(vi) => Ok(Some(vi)),
                    Err(e) => Err(e),
                }
            },
        }
    }
}

/// Evaluate one variable's location and summarize its type, as
/// `spec_resolve_variable` states it.
fn resolve_variable(
    var: &Variable,
    table: &TypeTable,
    locals: &Vec<u64>,
    globals: &Vec<u64>,
    operand_stack: &Vec<u64>,
    frame_base: u64,
) -> (r: Result<VariableInfo, DwarfError>)
    ensures
        match r {
            Ok(vi) => spec_resolve_variable(
                *var,
                table.records@,
                locals@,
                globals@,
                operand_stack@,
                frame_base,
            ) == Ok::<VariableInfoV, DwarfError>(info_view(vi)),
            Err(e) => spec_resolve_variable(
                *var,
                table.records@,
                locals@,
                globals@,
                operand_stack@,
                frame_base,
            ) == Err::<VariableInfoV, DwarfError>(e),
        },
{
    let ops = match decode_expression(&var.location) {
        Ok(ops) => ops,
        Err(_) => {
            return Err(DwarfError::UnsupportedLocationOp);
        },
    };
    let loc = match evaluate(&ops, locals, globals, operand_stack, frame_base) {
        Ok(l) => l,
        Err(_) => {
            return Err(DwarfError::UnsupportedLocationOp);
        },
    };
    let bs = match table.type_size(var.type_offset, TYPE_CHASE_DEPTH) {
        Some(s) => s,
        None => {
            return Err(DwarfError::TypeMismatch);
        },
    };
    let summary: (TypeTag, TypeEncoding) = match var.type_offset {
        None => (TypeTag::VoidType, TypeEncoding::Unsigned),
        Some(o) => match table.lookup(o) {
            None => {
                return Err(DwarfError::TypeMismatch);
            },
            Some(e) => match e {
                TypeEntry::Base { encoding, .. } => (TypeTag::BaseType, *encoding),
                TypeEntry::Pointer { .. } => (TypeTag::PointerType, TypeEncoding::Address),
                TypeEntry::Array { .. } => (TypeTag::ArrayType, TypeEncoding::Unsigned),
                TypeEntry::Structure { .. } => (TypeTag::StructureType, TypeEncoding::Unsigned),
            },
        },
    };
    let mut address: u64 = 0;
    let mut memory_slice: Vec<u8> = Vec::new();
    match loc {
        EvaluatedLocation::Memory { address: a } => {
            address = a;
        },
        EvaluatedLocation::Scalar { value } => {
            let n: usize = if bs <= 8 {
                bs as usize
            } else {
                8
            };
            let mut i: usize = 0;
            while i < n
                invariant
                    i <= n <= 8,
                    memory_slice@.len() == i,
                    forall|w: int| 0 <= w < i ==> memory_slice@[w] == le_byte(value, w),
                decreases n - i,
            {
                let shift: u64 = 8 * (i as u64);
                let byte: u8 = ((value >> shift) & 0xff) as u8;
                memory_slice.push(byte);
                proof {
                    assert(byte == le_byte(value, i as int));
                }
                i = i + 1;
            }
            proof {
                assert(memory_slice@ =~= Seq::new(
                    if bs as nat <= 8 {
                        bs as nat
                    } else {
                        8 as nat
                    },
                    |w: int| le_byte(value, w),
                ));
            }
        },
    }
    Ok(
        VariableInfo {
            name: var.name.clone(),
            address,
            byte_size: bs,
            memory_slice,
            tag: summary.0,
            encoding: summary.1,
            type_offset: var.type_offset,
        },
    )
}

} // verus!
