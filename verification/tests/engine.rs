use dwarf::builder::{build_unit, DebugEntry, EntryTag, RangeEntry};
use dwarf::error::DwarfError;
use dwarf::leb128::{decode_sleb, decode_uleb};
use dwarf::lineprog::{run_line_program, LineProgramParams};
use dwarf::location::{decode_expression, evaluate, EvaluatedLocation, LocationOp};
use dwarf::sourcemap::{DwarfSourceMap, LineRow, UnitSourceRows};
use dwarf::subroutine::{DwarfSubroutineMap, LexicalBlock, Subroutine, Variable, DeclarationKind};
use dwarf::typeinfo::{FieldEntry, TypeEncoding, TypeEntry, TypeRecord, TypeTable, TypeTag};
use dwarf::value::{decode_signed_le, decode_unsigned_le, format_signed, format_unsigned};
use dwarf::variables::VariableInfo;
use dwarf::{transform_dwarf, TypeTables, UnitData, UnitTypes, TYPE_CHASE_DEPTH};

fn row(offset: u64, file: u64, line: u64, column: u64, is_stmt: bool, end: bool) -> LineRow {
    LineRow { offset, file, line, column, is_stmt, end_sequence: end }
}

fn var(name: &str, type_offset: Option<u64>, location: Vec<u8>, kind: DeclarationKind) -> Variable {
    Variable { name: name.to_string(), type_offset, location, kind }
}

fn sample_map() -> DwarfSourceMap {
    let unit = UnitSourceRows {
        rows: vec![
            row(0, 0, 10, 1, true, false),
            row(4, 0, 11, 1, false, false),
            row(8, 0, 12, 1, true, false),
            row(16, 0, 0, 0, false, true),
        ],
        files: vec!["main.c".to_string()],
    };
    let mut m = DwarfSourceMap::empty();
    m.add_unit(&unit);
    m
}

#[test]
fn find_line_floor_lookup() {
    let m = sample_map();
    let li = m.find_line_info(5).unwrap();
    assert_eq!(li.file, "main.c");
    assert_eq!(li.line, 11);
    let li0 = m.find_line_info(0).unwrap();
    assert_eq!(li0.line, 10);
    // past the unit's rows: the floor row is the end-of-sequence marker
    assert!(m.find_line_info(20).is_none());
}

#[test]
fn find_address_first_statement_row() {
    let m = sample_map();
    // row at offset 4 matches line 11 but is not a statement row
    assert_eq!(m.find_address(&"main.c".to_string(), 11), None);
    assert_eq!(m.find_address(&"main.c".to_string(), 12), Some(8));
    assert_eq!(m.find_address(&"other.c".to_string(), 12), None);
}

#[test]
fn line_round_trip_through_statement_rows() {
    let m = sample_map();
    // a statement row round-trips: info at 9 is line 12, whose address is 8,
    // whose info is line 12 again
    let li = m.find_line_info(9).unwrap();
    assert_eq!(li.line, 12);
    let back = m.find_address(&li.file, li.line).unwrap();
    assert_eq!(back, 8);
    let li2 = m.find_line_info(back).unwrap();
    assert_eq!(li2.file, li.file);
    assert_eq!(li2.line, li.line);
    assert_eq!(li2.column, li.column);
}

#[test]
fn find_line_monotonic_rows() {
    let m = sample_map();
    let mut last_line = 0;
    for o in 0..16 {
        if let Some(li) = m.find_line_info(o) {
            assert!(li.line >= last_line);
            last_line = li.line;
        }
    }
}

#[test]
fn merged_units_sorted_and_remapped() {
    let unit_a = UnitSourceRows {
        rows: vec![row(8, 0, 3, 0, true, false), row(24, 0, 0, 0, false, true)],
        files: vec!["a.c".to_string()],
    };
    let unit_b = UnitSourceRows {
        rows: vec![row(0, 0, 7, 0, true, false), row(6, 0, 0, 0, false, true)],
        files: vec!["b.c".to_string()],
    };
    let m = DwarfSourceMap::new(&vec![unit_a, unit_b]);
    assert_eq!(m.files, vec!["a.c".to_string(), "b.c".to_string()]);
    let offsets: Vec<u64> = m.rows.iter().map(|r| r.offset).collect();
    assert_eq!(offsets, vec![0, 6, 8, 24]);
    // rows of the second unit point at the remapped file table entry
    let li = m.find_line_info(0).unwrap();
    assert_eq!(li.file, "b.c");
    let li = m.find_line_info(9).unwrap();
    assert_eq!(li.file, "a.c");
}

#[test]
fn uleb_and_sleb_decoding() {
    let b: Vec<u8> = vec![0xe5, 0x8e, 0x26];
    assert_eq!(decode_uleb(&b, 0), Some((624485, 3)));
    let s: Vec<u8> = vec![0x9b, 0xf1, 0x59];
    assert_eq!(decode_sleb(&s, 0), Some((-624485, 3)));
    assert_eq!(decode_uleb(&vec![0x80], 0), None);
    assert_eq!(decode_uleb(&vec![0x00], 0), Some((0, 1)));
    assert_eq!(decode_sleb(&vec![0x7f], 0), Some((-1, 1)));
}

#[test]
fn signed_and_unsigned_spans() {
    let b: Vec<u8> = vec![0xff, 0xff, 0xff, 0xff];
    assert_eq!(decode_signed_le(&b), -1);
    assert_eq!(decode_unsigned_le(&b), 4294967295);
    let one: Vec<u8> = vec![0x01, 0x00];
    assert_eq!(decode_signed_le(&one), 1);
    let min: Vec<u8> = vec![0x00, 0x80];
    assert_eq!(decode_signed_le(&min), -32768);
}

#[test]
fn decimal_rendering() {
    assert_eq!(format_unsigned(0), "0");
    assert_eq!(format_unsigned(1234567890), "1234567890");
    assert_eq!(format_unsigned(u64::MAX), "18446744073709551615");
    assert_eq!(format_signed(-1), "-1");
    assert_eq!(format_signed(i64::MIN), "-9223372036854775808");
    assert_eq!(format_signed(42), "42");
}

fn int32_record(offset: u64) -> TypeRecord {
    TypeRecord {
        offset,
        entry: TypeEntry::Base {
            name: "int".to_string(),
            encoding: TypeEncoding::Signed,
            byte_size: 4,
        },
    }
}

#[test]
fn structure_decodes_fieldwise() {
    let table = TypeTable {
        records: vec![
            int32_record(1),
            TypeRecord {
                offset: 2,
                entry: TypeEntry::Structure {
                    name: "point".to_string(),
                    byte_size: 8,
                    fields: vec![
                        FieldEntry { name: "x".to_string(), offset: 0, type_offset: Some(1) },
                        FieldEntry { name: "y".to_string(), offset: 4, type_offset: Some(1) },
                    ],
                },
            },
        ],
    };
    let bytes: Vec<u8> = vec![1, 0, 0, 0, 2, 0, 0, 0];
    let s = table.format_value(Some(2), &bytes, 0, TYPE_CHASE_DEPTH).unwrap();
    assert_eq!(s, "{x: 1, y: 2}");
}

#[test]
fn scalars_arrays_and_failures() {
    let table = TypeTable {
        records: vec![
            int32_record(1),
            TypeRecord { offset: 3, entry: TypeEntry::Array { element: Some(1), count: 2 } },
            TypeRecord { offset: 4, entry: TypeEntry::Pointer { target: Some(1) } },
            TypeRecord {
                offset: 5,
                entry: TypeEntry::Base {
                    name: "bool".to_string(),
                    encoding: TypeEncoding::Boolean,
                    byte_size: 1,
                },
            },
            // a self-referential entry: resolution must reject, not loop
            TypeRecord { offset: 9, entry: TypeEntry::Array { element: Some(9), count: 1 } },
        ],
    };
    let bytes: Vec<u8> = vec![0xff, 0xff, 0xff, 0xff, 2, 0, 0, 0];
    assert_eq!(table.format_value(Some(1), &bytes, 0, TYPE_CHASE_DEPTH).unwrap(), "-1");
    assert_eq!(table.format_value(Some(3), &bytes, 0, TYPE_CHASE_DEPTH).unwrap(), "[-1, 2]");
    assert_eq!(
        table.format_value(Some(4), &bytes, 0, TYPE_CHASE_DEPTH).unwrap(),
        "0x4294967295"
    );
    assert_eq!(table.format_value(Some(5), &bytes, 0, TYPE_CHASE_DEPTH).unwrap(), "true");
    assert_eq!(table.format_value(None, &bytes, 0, TYPE_CHASE_DEPTH).unwrap(), "void");
    // span too short for the type
    let short: Vec<u8> = vec![1];
    assert_eq!(
        table.format_value(Some(1), &short, 0, TYPE_CHASE_DEPTH),
        Err(DwarfError::TypeMismatch)
    );
    // unknown type reference
    assert_eq!(
        table.format_value(Some(77), &bytes, 0, TYPE_CHASE_DEPTH),
        Err(DwarfError::TypeMismatch)
    );
    // reference cycle
    assert_eq!(
        table.format_value(Some(9), &bytes, 0, TYPE_CHASE_DEPTH),
        Err(DwarfError::TypeMismatch)
    );
}

fn sample_subroutine() -> Subroutine {
    Subroutine {
        name: Some("calc".to_string()),
        low_pc: 16,
        high_pc: 64,
        unit_offset: 0,
        frame_base: vec![0xed, 0x00, 0x00],
        parameters: vec![var("p", Some(1), vec![0xed, 0x00, 0x01], DeclarationKind::Parameter)],
        variables: vec![var("x", Some(1), vec![0x91, 0x08], DeclarationKind::Local)],
        blocks: vec![
            LexicalBlock {
                low_pc: 24,
                high_pc: 48,
                depth: 2,
                variables: vec![var("x", Some(1), vec![0x91, 0x10], DeclarationKind::Local)],
            },
            LexicalBlock {
                low_pc: 28,
                high_pc: 40,
                depth: 3,
                variables: vec![var("inner", Some(1), vec![0x91, 0x18], DeclarationKind::Local)],
            },
        ],
    }
}

#[test]
fn offset_outside_every_range_is_not_found() {
    let map = DwarfSubroutineMap { subroutines: vec![sample_subroutine()] };
    assert!(matches!(map.find_subroutine(100), Err(DwarfError::SubroutineNotFound)));
    assert!(matches!(map.find_subroutine(15), Err(DwarfError::SubroutineNotFound)));
    assert!(matches!(map.find_subroutine(64), Err(DwarfError::SubroutineNotFound)));
    assert!(matches!(map.variable_name_list(100), Err(DwarfError::SubroutineNotFound)));
    assert!(map.find_subroutine(16).is_ok());
}

#[test]
fn names_inner_scopes_first_with_shadowing() {
    let map = DwarfSubroutineMap { subroutines: vec![sample_subroutine()] };
    // at offset 30 both blocks are active: innermost block first, then the
    // outer block's shadowed name, then the subprogram's own names
    let names = map.variable_name_list(30).unwrap();
    assert_eq!(names, vec!["inner", "x", "x", "p"]);
    // at offset 20 no block is active
    let names = map.variable_name_list(20).unwrap();
    assert_eq!(names, vec!["x", "p"]);
    // at offset 44 only the outer block is active
    let names = map.variable_name_list(44).unwrap();
    assert_eq!(names, vec!["x", "x", "p"]);
}

#[test]
fn expression_decoding_and_unknown_ops() {
    // frame-relative, wasm local, constant add, stack value
    let b: Vec<u8> = vec![0x91, 0x08, 0xed, 0x00, 0x02, 0x23, 0x04, 0x9f];
    let ops = decode_expression(&b).unwrap();
    assert_eq!(
        ops,
        vec![
            LocationOp::FrameBaseOffset(8),
            LocationOp::Local(2),
            LocationOp::PlusUconst(4),
            LocationOp::StackValue,
        ]
    );
    // an operation code this engine does not know
    assert_eq!(decode_expression(&vec![0x55]), Err(DwarfError::UnsupportedLocationOp));
    // a truncated operand
    assert_eq!(decode_expression(&vec![0x91]), Err(DwarfError::UnsupportedLocationOp));
}

#[test]
fn evaluation_folds_over_the_stack() {
    let locals: Vec<u64> = vec![100, 200];
    let globals: Vec<u64> = vec![7];
    let stack: Vec<u64> = vec![55];
    // frame base + 8 is a memory address
    let ops = vec![LocationOp::FrameBaseOffset(8)];
    assert_eq!(
        evaluate(&ops, &locals, &globals, &stack, 1000),
        Ok(EvaluatedLocation::Memory { address: 1008 })
    );
    // a local read plus a constant, marked as the value itself
    let ops = vec![LocationOp::Local(1), LocationOp::PlusUconst(4), LocationOp::StackValue];
    assert_eq!(
        evaluate(&ops, &locals, &globals, &stack, 0),
        Ok(EvaluatedLocation::Scalar { value: 204 })
    );
    let ops = vec![LocationOp::Global(0)];
    assert_eq!(
        evaluate(&ops, &locals, &globals, &stack, 0),
        Ok(EvaluatedLocation::Memory { address: 7 })
    );
    let ops = vec![LocationOp::OperandStack(0)];
    assert_eq!(
        evaluate(&ops, &locals, &globals, &stack, 0),
        Ok(EvaluatedLocation::Memory { address: 55 })
    );
    // an index beyond the snapshot
    let ops = vec![LocationOp::Local(9)];
    assert_eq!(
        evaluate(&ops, &locals, &globals, &stack, 0),
        Err(DwarfError::UnsupportedLocationOp)
    );
    // an empty expression leaves nothing on the stack
    let ops: Vec<LocationOp> = vec![];
    assert_eq!(
        evaluate(&ops, &locals, &globals, &stack, 0),
        Err(DwarfError::UnsupportedLocationOp)
    );
}

fn entry(
    depth: u64,
    tag: EntryTag,
    name: Option<&str>,
    low: Option<u64>,
    high: Option<u64>,
) -> DebugEntry {
    DebugEntry {
        depth,
        tag,
        name: name.map(|s| s.to_string()),
        low_pc: low,
        high_pc: high,
        ranges: Vec::new(),
        type_offset: Some(1),
        location: vec![0x91, 0x00],
        frame_base: vec![0xed, 0x00, 0x00],
    }
}

fn sample_entries() -> Vec<DebugEntry> {
    vec![
        entry(1, EntryTag::VariableDecl, Some("g"), None, None),
        entry(1, EntryTag::Subprogram, Some("f"), Some(16), Some(64)),
        entry(2, EntryTag::Parameter, Some("p"), None, None),
        entry(2, EntryTag::VariableDecl, Some("x"), None, None),
        entry(2, EntryTag::Block, None, Some(24), Some(48)),
        entry(3, EntryTag::VariableDecl, Some("y"), None, None),
        entry(1, EntryTag::Subprogram, Some("h"), Some(64), Some(96)),
        entry(2, EntryTag::VariableDecl, Some("z"), None, None),
    ]
}

#[test]
fn builder_folds_the_entry_tree() {
    let (subs, globals) = build_unit(&sample_entries(), 5);
    assert_eq!(subs.len(), 2);
    assert_eq!(subs[0].name.as_deref(), Some("f"));
    assert_eq!(subs[0].low_pc, 16);
    assert_eq!(subs[0].high_pc, 64);
    assert_eq!(subs[0].unit_offset, 5);
    assert_eq!(subs[0].parameters.len(), 1);
    assert_eq!(subs[0].parameters[0].name, "p");
    assert_eq!(subs[0].parameters[0].kind, DeclarationKind::Parameter);
    assert_eq!(subs[0].variables.len(), 1);
    assert_eq!(subs[0].variables[0].name, "x");
    assert_eq!(subs[0].blocks.len(), 1);
    assert_eq!(subs[0].blocks[0].low_pc, 24);
    assert_eq!(subs[0].blocks[0].variables[0].name, "y");
    assert_eq!(subs[1].name.as_deref(), Some("h"));
    assert_eq!(subs[1].variables[0].name, "z");
    assert_eq!(globals.len(), 1);
    assert_eq!(globals[0].name, "g");
    assert_eq!(globals[0].kind, DeclarationKind::Global);
}

#[test]
fn builder_derives_range_envelope() {
    let mut e = entry(1, EntryTag::Subprogram, Some("f"), None, None);
    e.ranges = vec![RangeEntry { low: 40, high: 44 }, RangeEntry { low: 16, high: 20 }];
    let (subs, _) = build_unit(&vec![e], 0);
    assert_eq!(subs[0].low_pc, 16);
    assert_eq!(subs[0].high_pc, 44);
    // neither bounds nor ranges: a zero-width, excluded scope
    let e2 = entry(1, EntryTag::Subprogram, Some("g"), None, None);
    let (subs, _) = build_unit(&vec![e2], 0);
    assert_eq!((subs[0].low_pc, subs[0].high_pc), (0, 0));
}

fn sample_units() -> Vec<UnitData> {
    vec![UnitData {
        unit_offset: 0,
        source: UnitSourceRows {
            rows: vec![row(16, 0, 1, 0, true, false), row(64, 0, 0, 0, false, true)],
            files: vec!["main.c".to_string()],
        },
        entries: sample_entries(),
        types: TypeTable { records: vec![int32_record(1)] },
    }]
}

#[test]
fn transformation_is_deterministic() {
    let a = transform_dwarf(sample_units());
    let b = transform_dwarf(sample_units());
    assert_eq!(a.sourcemap.rows, b.sourcemap.rows);
    assert_eq!(a.sourcemap.files, b.sourcemap.files);
    assert_eq!(a.subroutine.subroutines.len(), b.subroutine.subroutines.len());
    for (x, y) in a.subroutine.subroutines.iter().zip(b.subroutine.subroutines.iter()) {
        assert_eq!(x.name, y.name);
        assert_eq!((x.low_pc, x.high_pc, x.unit_offset), (y.low_pc, y.high_pc, y.unit_offset));
        assert_eq!(x.parameters.len(), y.parameters.len());
        assert_eq!(x.variables.len(), y.variables.len());
        assert_eq!(x.blocks.len(), y.blocks.len());
    }
    assert_eq!(a.global_variables.units.len(), b.global_variables.units.len());
    assert_eq!(
        a.global_variables.units[0].variables[0].name,
        b.global_variables.units[0].variables[0].name
    );
}

#[test]
fn transformation_drops_malformed_unit_rows() {
    let mut units = sample_units();
    // a row referencing an undeclared file index marks the line program
    // malformed: the unit's rows are dropped, its scopes are kept
    units[0].source.rows[0].file = 9;
    let d = transform_dwarf(units);
    assert_eq!(d.sourcemap.rows.len(), 0);
    assert_eq!(d.subroutine.subroutines.len(), 2);
}

#[test]
fn queries_against_the_aggregate() {
    let d = transform_dwarf(sample_units());
    let li = d.find_line_info(20).unwrap();
    assert_eq!(li.file, "main.c");
    assert_eq!(li.line, 1);
    assert_eq!(d.find_address(&"main.c".to_string(), 1), Some(16));
    let names = d.variable_name_list(30).unwrap();
    assert_eq!(names, vec!["y", "x", "p"]);
    let globals = d.global_variable_name_list(30).unwrap();
    assert_eq!(globals, vec!["g"]);
    assert!(matches!(
        d.global_variable_name_list(200),
        Err(DwarfError::SubroutineNotFound)
    ));
}

#[test]
fn variable_resolution_against_a_snapshot() {
    let d = transform_dwarf(sample_units());
    let locals: Vec<u64> = vec![4096];
    let globals: Vec<u64> = vec![];
    let stack: Vec<u64> = vec![];
    // "x" lives at frame base plus zero; the frame base is local 0
    let vi = d
        .get_variable_info(&"x".to_string(), &locals, &globals, &stack, 30)
        .unwrap()
        .unwrap();
    assert_eq!(vi.name, "x");
    assert_eq!(vi.address, 4096);
    assert_eq!(vi.byte_size, 4);
    assert_eq!(vi.tag, TypeTag::BaseType);
    assert_eq!(vi.encoding, TypeEncoding::Signed);
    // a name nobody declares
    assert_eq!(
        d.get_variable_info(&"nope".to_string(), &locals, &globals, &stack, 30)
            .unwrap()
            .is_none(),
        true
    );
    // outside every subprogram
    assert!(matches!(
        d.get_variable_info(&"x".to_string(), &locals, &globals, &stack, 200),
        Err(DwarfError::SubroutineNotFound)
    ));
    // the global is found through the unit's global list
    let vi = d
        .get_variable_info(&"g".to_string(), &locals, &globals, &stack, 30)
        .unwrap()
        .unwrap();
    assert_eq!(vi.name, "g");
}

#[test]
fn print_renders_scalars_from_held_bytes() {
    let mut vi = VariableInfo {
        name: "x".to_string(),
        address: 0,
        byte_size: 4,
        memory_slice: Vec::new(),
        tag: TypeTag::BaseType,
        encoding: TypeEncoding::Signed,
        type_offset: Some(1),
    };
    vi.set_memory_slice(&[0xff, 0xff, 0xff, 0xff]);
    assert_eq!(vi.print().unwrap(), "-1");
    vi.encoding = TypeEncoding::Unsigned;
    assert_eq!(vi.print().unwrap(), "4294967295");
    vi.encoding = TypeEncoding::Boolean;
    vi.byte_size = 1;
    assert_eq!(vi.print().unwrap(), "true");
    vi.set_memory_slice(&[0, 0, 0, 0]);
    assert_eq!(vi.print().unwrap(), "false");
    vi.tag = TypeTag::PointerType;
    vi.set_memory_slice(&[0x10, 0x00, 0x00, 0x00]);
    assert_eq!(vi.print().unwrap(), "0x16");
    vi.tag = TypeTag::StructureType;
    assert!(vi.print().is_none());
    // a span shorter than the type
    vi.tag = TypeTag::BaseType;
    vi.encoding = TypeEncoding::Signed;
    vi.byte_size = 8;
    assert!(vi.print().is_none());
}

#[test]
fn type_tables_key_by_unit() {
    let tables = TypeTables {
        units: vec![UnitTypes { unit_offset: 3, table: TypeTable { records: vec![] } }],
    };
    assert!(tables.find_table(3).is_some());
    assert!(tables.find_table(4).is_none());
}

#[test]
fn declared_names_resolve_by_offset() {
    let table = TypeTable {
        records: vec![
            int32_record(1),
            TypeRecord { offset: 4, entry: TypeEntry::Pointer { target: Some(1) } },
        ],
    };
    assert_eq!(table.declared_name(None).unwrap(), "void");
    assert_eq!(table.declared_name(Some(1)).unwrap(), "int");
    assert_eq!(table.declared_name(Some(4)), Err(DwarfError::TypeMismatch));
    assert_eq!(table.declared_name(Some(9)), Err(DwarfError::TypeMismatch));
}

#[test]
fn error_messages_name_the_kind() {
    assert_eq!(DwarfError::SubroutineNotFound.message(), "subroutine not found");
    assert_eq!(DwarfError::TypeMismatch.message(), "type mismatch");
    assert_eq!(DwarfError::UnsupportedLocationOp.message(), "unsupported location operation");
    assert_eq!(DwarfError::MalformedLineProgram.message(), "malformed line program");
    assert_eq!(DwarfError::SectionMissing.message(), "section missing");
    assert_eq!(DwarfError::EntryTreeCorrupt.message(), "entry tree corrupt");
}

#[test]
fn line_program_emits_rows() {
    let params = LineProgramParams {
        minimum_instruction_length: 1,
        default_is_stmt: true,
        line_base: -1,
        line_range: 4,
        opcode_base: 13,
        standard_opcode_lengths: vec![0, 1, 1, 1, 1, 0, 0, 0, 1, 0, 0, 1],
        file_count: 1,
        address_size: 4,
    };
    // set the address to 16, emit, advance line by 2 and address by 4, emit,
    // close the sequence
    let program: Vec<u8> = vec![
        0x00, 0x05, 0x02, 0x10, 0x00, 0x00, 0x00, // extended: set address 16
        0x01, // copy
        0x03, 0x02, // advance line by 2
        0x02, 0x04, // advance address by 4
        0x01, // copy
        0x00, 0x01, 0x01, // extended: end of sequence
    ];
    let rows = run_line_program(&params, &program).unwrap();
    assert_eq!(rows.len(), 3);
    assert_eq!((rows[0].offset, rows[0].file, rows[0].line), (16, 0, 1));
    assert!(rows[0].is_stmt && !rows[0].end_sequence);
    assert_eq!((rows[1].offset, rows[1].line), (20, 3));
    assert!(rows[2].end_sequence);
    assert_eq!(rows[2].offset, 20);
}

#[test]
fn line_program_special_opcodes() {
    let params = LineProgramParams {
        minimum_instruction_length: 1,
        default_is_stmt: true,
        line_base: -1,
        line_range: 4,
        opcode_base: 13,
        standard_opcode_lengths: vec![0, 1, 1, 1, 1, 0, 0, 0, 1, 0, 0, 1],
        file_count: 1,
        address_size: 4,
    };
    // special opcode 22: adjusted 9, so the address advances by 9/4 = 2 and
    // the line by -1 + 9%4 = 0; opcode 19: adjusted 6, address +1, line +1
    let program: Vec<u8> = vec![
        22, // special: address 2, line 1
        19, // special: address 3, line 2
        0x00, 0x01, 0x01, // end of sequence
    ];
    let rows = run_line_program(&params, &program).unwrap();
    assert_eq!(rows.len(), 3);
    assert_eq!((rows[0].offset, rows[0].line), (2, 1));
    assert_eq!((rows[1].offset, rows[1].line), (3, 2));
}

#[test]
fn line_program_rejects_undeclared_file() {
    let params = LineProgramParams {
        minimum_instruction_length: 1,
        default_is_stmt: true,
        line_base: -1,
        line_range: 4,
        opcode_base: 13,
        standard_opcode_lengths: vec![0, 1, 1, 1, 1, 0, 0, 0, 1, 0, 0, 1],
        file_count: 1,
        address_size: 4,
    };
    // set the file register to an undeclared index, then emit
    let program: Vec<u8> = vec![0x04, 0x05, 0x01];
    assert_eq!(
        run_line_program(&params, &program),
        Err(DwarfError::MalformedLineProgram)
    );
    // a truncated operand is malformed too
    assert_eq!(
        run_line_program(&params, &vec![0x02]),
        Err(DwarfError::MalformedLineProgram)
    );
}
