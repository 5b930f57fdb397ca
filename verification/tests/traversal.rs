use dwarf_jsondump::compilation_unit_parser::{
    get_address_ranges_or_take_parent, traverse_and_flatten_rec, Traversal, MAX_TREE_DEPTH,
};
use dwarf_jsondump::debug_entry::{
    Attribute, AttributeValue, DebugEntry, FileRecord, LineProgram, LineRow, TableString, UnitData,
    DW_AT_ABSTRACT_ORIGIN, DW_AT_CALL_FILE, DW_AT_CALL_LINE, DW_AT_CONST_VALUE, DW_AT_DECL_FILE,
    DW_AT_DECL_LINE, DW_AT_HIGH_PC, DW_AT_LINKAGE_NAME, DW_AT_LOCATION, DW_AT_LOW_PC, DW_AT_NAME,
    DW_AT_TYPE, DW_TAG_FORMAL_PARAMETER, DW_TAG_INLINED_SUBROUTINE, DW_TAG_SUBPROGRAM,
    DW_TAG_VARIABLE,
};
use dwarf_jsondump::die_extensions::ParsingError;
use dwarf_jsondump::types::data_structures::{
    extract_all_var_type_ids, insert_variable, AddressRange, CompilationUnit, DWARFOperationsList,
    InlinedMethod, LineNumberInfo, Method, MethodType, SourceRange, Subprogram, Variable,
};
use dwarf_jsondump::types::operation_types::OperationJson;
use dwarf_jsondump::types::rust_type::RustTypeId;
use dwarf_jsondump::ParsingOptions;

const DW_TAG_COMPILE_UNIT: u16 = 0x11;
const DW_TAG_LEXICAL_BLOCK: u16 = 0x0b;

fn attr(name: u16, value: AttributeValue) -> Attribute {
    Attribute { name, value }
}

fn text(s: &str) -> AttributeValue {
    AttributeValue::Text(s.to_string())
}

fn entry(offset: usize, tag: u16, attributes: Vec<Attribute>, children: Vec<usize>) -> DebugEntry {
    DebugEntry { offset, tag, attributes, children }
}

fn range(start: u64, end: u64) -> AddressRange {
    AddressRange { start, end }
}

fn pc(low: u64, length: u64) -> Vec<Attribute> {
    vec![attr(DW_AT_LOW_PC, AttributeValue::Addr(low)), attr(DW_AT_HIGH_PC, AttributeValue::Udata(length))]
}

fn declared(name: &str, line: u64) -> Vec<Attribute> {
    vec![
        attr(DW_AT_NAME, text(name)),
        attr(DW_AT_DECL_FILE, AttributeValue::FileIndex(1)),
        attr(DW_AT_DECL_LINE, AttributeValue::Udata(line)),
    ]
}

fn called_at(line: u64) -> Vec<Attribute> {
    vec![
        attr(DW_AT_CALL_FILE, AttributeValue::FileIndex(1)),
        attr(DW_AT_CALL_LINE, AttributeValue::Udata(line)),
    ]
}

fn all(parts: Vec<Vec<Attribute>>) -> Vec<Attribute> {
    parts.into_iter().flatten().collect()
}

fn source(line: u64) -> SourceRange {
    SourceRange { file_path: "/src/a.rs".to_string(), line, col: None }
}

fn unit(entries: Vec<DebugEntry>) -> UnitData {
    UnitData {
        offset: 0,
        version: 4,
        address_size: 4,
        dwarf64: false,
        big_endian: false,
        comp_dir: Some("/src".to_string()),
        index: UnitData::index_entries(&entries),
        entries,
        line_program: Some(LineProgram {
            files: vec![
                None,
                Some(FileRecord {
                    directory_index: 0,
                    directory: TableString::Text("/src".to_string()),
                    path_name: TableString::Text("a.rs".to_string()),
                }),
                Some(FileRecord {
                    directory_index: 1,
                    directory: TableString::Text("lib".to_string()),
                    path_name: TableString::Text("b.rs".to_string()),
                }),
            ],
            rows: Vec::new(),
            failure: None,
        }),
    }
}

fn options(extract_variables: bool, demangle: bool) -> ParsingOptions {
    ParsingOptions { demangle, output_file_path: None, extract_variables }
}

/// A calls B inline, and B calls C inline.
fn chain() -> UnitData {
    unit(vec![
        entry(0, DW_TAG_COMPILE_UNIT, pc(0x100, 0x100), vec![1, 4, 5]),
        entry(
            10,
            DW_TAG_SUBPROGRAM,
            all(vec![declared("a", 3), pc(0x100, 0x80), vec![attr(DW_AT_LINKAGE_NAME, text("_ZN1a17h0123456789abcdefE"))]]),
            vec![2],
        ),
        entry(
            20,
            DW_TAG_INLINED_SUBROUTINE,
            all(vec![vec![attr(DW_AT_ABSTRACT_ORIGIN, AttributeValue::UnitRef(40))], pc(0x110, 0x40), called_at(4)]),
            vec![3],
        ),
        entry(
            30,
            DW_TAG_INLINED_SUBROUTINE,
            all(vec![vec![attr(DW_AT_ABSTRACT_ORIGIN, AttributeValue::UnitRef(50))], pc(0x120, 0x10), called_at(9)]),
            vec![],
        ),
        entry(40, DW_TAG_SUBPROGRAM, declared("b", 8), vec![]),
        entry(50, DW_TAG_SUBPROGRAM, declared("c", 13), vec![]),
    ])
}

#[test]
fn inline_chain_is_flattened_with_growing_depth() {
    let u = chain();
    let o = options(true, false);
    let mut cu = CompilationUnit::new(&o);
    assert_eq!(cu.parse_compilation_unit(&u), Ok(()));
    assert_eq!(cu.ranges, vec![range(0x100, 0x200)]);
    assert_eq!(cu.parsing_errors, Vec::<String>::new());
    assert_eq!(cu.methods.len(), 1);
    assert_eq!(cu.subprograms.len(), 1);
    let a = &cu.subprograms[0];
    assert_eq!(a.method_name, "a");
    assert_eq!(a.linkage_name, "_ZN1a17h0123456789abcdefE");
    assert_eq!(a.decl_range, source(3));
    assert_eq!(a.address_ranges, vec![range(0x100, 0x180)]);
    assert_eq!(a.inlined_methods.len(), 2);
    let c = &a.inlined_methods[0];
    let b = &a.inlined_methods[1];
    assert_eq!(b.method_name, "b");
    assert_eq!(c.method_name, "c");
    assert_eq!(b.inline_depth, 1);
    assert_eq!(c.inline_depth, 2);
    assert!(c.inline_depth > b.inline_depth && b.inline_depth > 0);
    assert_eq!(b.call_site_range, source(4));
    assert_eq!(c.call_site_range, source(9));
    assert_eq!(b.decl_range, source(8));
    assert_eq!(c.decl_range, source(13));
    assert_eq!(b.address_ranges, vec![range(0x110, 0x150)]);
    assert_eq!(c.address_ranges, vec![range(0x120, 0x130)]);
}

#[test]
fn blocks_between_inlined_calls_do_not_count_for_the_depth() {
    let mut u = chain();
    // a lexical block between A and B
    u.entries.push(entry(60, DW_TAG_LEXICAL_BLOCK, vec![], vec![2]));
    u.entries[1].children = vec![6];
    let o = options(false, false);
    let mut cu = CompilationUnit::new(&o);
    assert_eq!(cu.parse_compilation_unit(&u), Ok(()));
    let inlined = &cu.subprograms[0].inlined_methods;
    assert_eq!(inlined.len(), 2);
    assert_eq!((inlined[0].method_name.as_str(), inlined[0].inline_depth), ("c", 2));
    assert_eq!((inlined[1].method_name.as_str(), inlined[1].inline_depth), ("b", 1));
}

#[test]
fn subprogram_without_address_ranges_is_passed_over() {
    let u = unit(vec![
        entry(0, DW_TAG_COMPILE_UNIT, vec![], vec![1]),
        entry(10, DW_TAG_SUBPROGRAM, declared("declaration_only", 3), vec![2]),
        entry(20, DW_TAG_SUBPROGRAM, all(vec![declared("nested", 4), pc(1, 2)]), vec![]),
    ]);
    let o = options(true, false);
    let mut cu = CompilationUnit::new(&o);
    assert_eq!(cu.parse_compilation_unit(&u), Ok(()));
    assert_eq!(cu.subprograms, Vec::<Subprogram>::new());
    assert_eq!(cu.ranges, Vec::<AddressRange>::new());
    assert_eq!(cu.parsing_errors, Vec::<String>::new());
}

#[test]
fn unknown_linkage_name() {
    let u = unit(vec![
        entry(0, DW_TAG_COMPILE_UNIT, vec![], vec![1]),
        entry(10, DW_TAG_SUBPROGRAM, all(vec![declared("f", 3), pc(1, 2)]), vec![]),
    ]);
    let o = options(true, false);
    let mut cu = CompilationUnit::new(&o);
    assert_eq!(cu.parse_compilation_unit(&u), Ok(()));
    assert_eq!(
        cu.subprograms,
        vec![Subprogram {
            method_name: "f".to_string(),
            linkage_name: "<UNKNOWN>".to_string(),
            variables: Vec::new(),
            decl_range: source(3),
            address_ranges: vec![range(1, 3)],
            inlined_methods: Vec::new(),
        }]
    );
}

#[test]
fn names_are_demangled_where_asked() {
    let tree = |name: &str| {
        unit(vec![
            entry(0, DW_TAG_COMPILE_UNIT, vec![], vec![1]),
            entry(10, DW_TAG_SUBPROGRAM, all(vec![declared(name, 3), pc(1, 2)]), vec![]),
        ])
    };
    let mangled = "_ZN3foo3bar17h0123456789abcdefE";
    let on = options(false, true);
    let mut cu = CompilationUnit::new(&on);
    assert_eq!(cu.parse_compilation_unit(&tree(mangled)), Ok(()));
    assert_eq!(cu.subprograms[0].method_name, "foo::bar::h0123456789abcdef");
    let off = options(false, false);
    let mut cu = CompilationUnit::new(&off);
    assert_eq!(cu.parse_compilation_unit(&tree(mangled)), Ok(()));
    assert_eq!(cu.subprograms[0].method_name, mangled);
    let mut cu = CompilationUnit::new(&on);
    assert_eq!(cu.parse_compilation_unit(&tree("plain")), Ok(()));
    assert_eq!(cu.subprograms[0].method_name, "plain");
    assert_eq!(
        Method::create(&tree(mangled).entries[1], &tree(mangled), 0, true).unwrap().method_name,
        rustc_demangle::demangle(mangled).to_string()
    );
}

fn with_variables() -> UnitData {
    unit(vec![
        entry(0, DW_TAG_COMPILE_UNIT, pc(0x100, 0x100), vec![1]),
        entry(10, DW_TAG_SUBPROGRAM, all(vec![declared("a", 3), pc(0x100, 0x80)]), vec![2, 3, 4, 7]),
        entry(
            20,
            DW_TAG_FORMAL_PARAMETER,
            vec![
                attr(DW_AT_NAME, text("x")),
                attr(DW_AT_TYPE, AttributeValue::UnitRef(100)),
                attr(DW_AT_LOCATION, AttributeValue::Exprloc(vec![0x91, 0x04])),
            ],
            vec![],
        ),
        entry(
            30,
            DW_TAG_LEXICAL_BLOCK,
            pc(0x120, 0x10),
            vec![5],
        ),
        entry(
            40,
            DW_TAG_INLINED_SUBROUTINE,
            all(vec![vec![attr(DW_AT_ABSTRACT_ORIGIN, AttributeValue::UnitRef(60))], pc(0x140, 0x8), called_at(5)]),
            vec![],
        ),
        entry(
            50,
            DW_TAG_VARIABLE,
            vec![attr(DW_AT_NAME, text("y")), attr(DW_AT_TYPE, AttributeValue::UnitRef(200))],
            vec![],
        ),
        entry(60, DW_TAG_SUBPROGRAM, declared("b", 8), vec![8]),
        entry(70, DW_TAG_VARIABLE, vec![attr(DW_AT_NAME, text("untyped"))], vec![]),
        entry(
            80,
            DW_TAG_VARIABLE,
            vec![
                attr(DW_AT_NAME, text("z")),
                attr(DW_AT_TYPE, AttributeValue::UnitRef(300)),
                attr(DW_AT_CONST_VALUE, AttributeValue::Udata(9)),
            ],
            vec![],
        ),
    ])
}

#[test]
fn variables_go_to_the_innermost_method() {
    let u = with_variables();
    let o = options(true, false);
    let mut cu = CompilationUnit::new(&o);
    assert_eq!(cu.parse_compilation_unit(&u), Ok(()));
    let a = &cu.subprograms[0];
    assert_eq!(
        a.variables,
        vec![
            Variable {
                address_ranges: Vec::new(),
                register_locations: vec![DWARFOperationsList {
                    operations: vec![OperationJson::FrameOffset { offset: 4 }],
                    range: range(0x100, 0x180),
                }],
                var_name: "x".to_string(),
                var_type_id: RustTypeId(100, 0),
            },
            Variable {
                address_ranges: vec![range(0x120, 0x130)],
                register_locations: Vec::new(),
                var_name: "y".to_string(),
                var_type_id: RustTypeId(200, 0),
            },
        ]
    );
    assert_eq!(
        a.inlined_methods,
        vec![InlinedMethod {
            inline_depth: 1,
            call_site_range: source(5),
            method_name: "b".to_string(),
            variables: vec![Variable {
                address_ranges: Vec::new(),
                register_locations: vec![DWARFOperationsList {
                    operations: vec![OperationJson::UnsignedConstant { value: 9 }],
                    range: range(0x140, 0x148),
                }],
                var_name: "z".to_string(),
                var_type_id: RustTypeId(300, 0),
            }],
            decl_range: source(8),
            address_ranges: vec![range(0x140, 0x148)],
        }]
    );
    assert_eq!(
        cu.parsing_errors,
        vec![
            "Failed to parse variable \"untyped\" in inlined method. \"a\", Some(Failure(\"Could not not parse DW_AT_type [DebuggingInformationEntry at offset 70 (hex: 46)]\"))"
                .to_string()
        ]
    );
    assert_eq!(
        extract_all_var_type_ids(&vec![cu]),
        vec![RustTypeId(100, 0), RustTypeId(200, 0), RustTypeId(300, 0)]
    );
}

#[test]
fn variables_are_left_out_where_not_asked_for() {
    let u = with_variables();
    let o = options(false, false);
    let mut cu = CompilationUnit::new(&o);
    assert_eq!(cu.parse_compilation_unit(&u), Ok(()));
    assert_eq!(cu.subprograms[0].variables, Vec::<Variable>::new());
    assert_eq!(cu.subprograms[0].inlined_methods[0].variables, Vec::<Variable>::new());
    assert_eq!(cu.parsing_errors, Vec::<String>::new());
    assert_eq!(extract_all_var_type_ids(&vec![cu]), Vec::<RustTypeId>::new());
}

#[test]
fn a_variable_seen_twice_is_kept_once() {
    // the subprogram names itself as its origin: its children are visited twice
    let u = unit(vec![
        entry(0, DW_TAG_COMPILE_UNIT, vec![], vec![1]),
        entry(
            10,
            DW_TAG_SUBPROGRAM,
            all(vec![declared("a", 3), pc(0x100, 0x80), vec![attr(DW_AT_ABSTRACT_ORIGIN, AttributeValue::UnitRef(30))]]),
            vec![2],
        ),
        entry(
            20,
            DW_TAG_VARIABLE,
            vec![attr(DW_AT_NAME, text("v")), attr(DW_AT_TYPE, AttributeValue::UnitRef(100))],
            vec![],
        ),
        entry(30, DW_TAG_SUBPROGRAM, vec![], vec![2]),
    ]);
    let o = options(true, false);
    let mut cu = CompilationUnit::new(&o);
    assert_eq!(cu.parse_compilation_unit(&u), Ok(()));
    assert_eq!(cu.subprograms.len(), 1);
    assert_eq!(cu.subprograms[0].variables.len(), 1);
    assert_eq!(cu.subprograms[0].variables[0].var_name, "v");
    assert_eq!(cu.subprograms[0].variables[0].address_ranges, vec![range(0x100, 0x180)]);
}

#[test]
fn insert_variable_keeps_the_first_of_equal_variables() {
    let v = |name: &str, id: usize| Variable {
        address_ranges: vec![range(1, 2)],
        register_locations: Vec::new(),
        var_name: name.to_string(),
        var_type_id: RustTypeId(id, 0),
    };
    let mut vars = Vec::new();
    assert!(insert_variable(&mut vars, v("a", 1)));
    assert!(insert_variable(&mut vars, v("b", 1)));
    assert!(!insert_variable(&mut vars, v("a", 1)));
    assert!(insert_variable(&mut vars, v("a", 2)));
    assert_eq!(vars, vec![v("a", 1), v("b", 1), v("a", 2)]);
    assert!(vars[0].same_as(&v("a", 1)));
    assert!(!vars[0].same_as(&vars[1]));
    assert_eq!(vars[0].clone(), vars[0]);
}

#[test]
fn variable_outside_of_any_method_is_reported() {
    let u = unit(vec![
        entry(0, DW_TAG_COMPILE_UNIT, pc(1, 2), vec![1]),
        entry(
            10,
            DW_TAG_VARIABLE,
            vec![attr(DW_AT_NAME, text("global")), attr(DW_AT_TYPE, AttributeValue::UnitRef(100))],
            vec![],
        ),
    ]);
    let o = options(true, false);
    let mut cu = CompilationUnit::new(&o);
    assert_eq!(cu.parse_compilation_unit(&u), Ok(()));
    assert_eq!(cu.subprograms, Vec::<Subprogram>::new());
    assert_eq!(
        cu.parsing_errors,
        vec!["Found a variable outside of any method [DebuggingInformationEntry at offset 10 (hex: a)]".to_string()]
    );
}

#[test]
fn inlined_call_outside_of_any_subprogram_is_an_error() {
    let u = unit(vec![
        entry(0, DW_TAG_COMPILE_UNIT, vec![], vec![1]),
        entry(
            10,
            DW_TAG_INLINED_SUBROUTINE,
            all(vec![declared("lost", 3), pc(1, 2), called_at(4)]),
            vec![],
        ),
    ]);
    let o = options(true, false);
    let mut cu = CompilationUnit::new(&o);
    assert_eq!(
        cu.parse_compilation_unit(&u),
        Err(ParsingError::Failure(
            "Encountered an inlined method, but the top level element should always be a subprogram."
                .to_string()
        ))
    );
}

#[test]
fn unit_without_entries_is_an_error() {
    let u = unit(Vec::new());
    let o = options(true, false);
    let mut cu = CompilationUnit::new(&o);
    assert_eq!(
        cu.traverse_and_flatten(&u),
        Err(ParsingError::Failure("Could not find the root entry of the unit".to_string()))
    );
}

#[test]
fn entries_that_are_nested_too_deeply_are_reported() {
    // every entry is the child of the one before
    let depth = MAX_TREE_DEPTH as usize + 3;
    let mut entries = Vec::new();
    for i in 0..depth {
        let children = if i + 1 < depth { vec![i + 1] } else { vec![] };
        entries.push(entry(i, DW_TAG_LEXICAL_BLOCK, vec![], children));
    }
    let u = unit(entries);
    let o = options(true, false);
    let mut cu = CompilationUnit::new(&o);
    assert_eq!(cu.parse_compilation_unit(&u), Ok(()));
    assert_eq!(MAX_TREE_DEPTH, 256);
    assert_eq!(
        cu.parsing_errors,
        vec!["The entries are nested too deeply [DebuggingInformationEntry at offset 257 (hex: 101)]".to_string()]
    );
}

#[test]
fn many_children_are_visited_one_after_the_other() {
    let count = 200_000;
    let mut entries = vec![entry(0, DW_TAG_COMPILE_UNIT, vec![], (1..=count).collect())];
    for i in 1..=count {
        entries.push(entry(i, DW_TAG_LEXICAL_BLOCK, vec![], vec![]));
    }
    entries[count] = entry(count, DW_TAG_SUBPROGRAM, all(vec![declared("last", 3), pc(1, 2)]), vec![]);
    let u = unit(entries);
    let o = options(true, false);
    let mut cu = CompilationUnit::new(&o);
    assert_eq!(cu.parse_compilation_unit(&u), Ok(()));
    assert_eq!(cu.subprograms.len(), 1);
    assert_eq!(cu.subprograms[0].method_name, "last");
    assert_eq!(cu.parsing_errors, Vec::<String>::new());
}

#[test]
fn an_origin_that_names_itself_ends() {
    let u = unit(vec![
        entry(0, DW_TAG_COMPILE_UNIT, vec![], vec![1]),
        entry(10, DW_TAG_LEXICAL_BLOCK, vec![attr(DW_AT_ABSTRACT_ORIGIN, AttributeValue::UnitRef(10))], vec![]),
    ]);
    let o = options(true, false);
    let mut cu = CompilationUnit::new(&o);
    assert_eq!(cu.parse_compilation_unit(&u), Ok(()));
    assert_eq!(cu.parsing_errors.len(), 1);
    assert_eq!(
        cu.parsing_errors[0],
        "The entries are nested too deeply [DebuggingInformationEntry at offset 10 (hex: a)]"
    );
}

#[test]
fn an_origin_that_is_no_entry_is_reported() {
    let u = unit(vec![
        entry(0, DW_TAG_COMPILE_UNIT, vec![attr(DW_AT_ABSTRACT_ORIGIN, AttributeValue::UnitRef(77))], vec![]),
    ]);
    let state = Traversal { methods: Vec::new(), errors: Vec::new(), orphaned: false, subprogram: None, inlined: None };
    let walk = traverse_and_flatten_rec(&u, true, false, &u.entries[0], &Vec::new(), 0, 8, state);
    assert_eq!(
        walk.errors,
        vec!["Could not find the entry of DW_AT_abstract_origin [DebuggingInformationEntry at offset 0 (hex: 0)]".to_string()]
    );
    assert!(!walk.orphaned);
    assert!(walk.methods.is_empty());
}

#[test]
fn a_child_that_is_no_entry_is_passed_over() {
    let u = unit(vec![
        entry(0, DW_TAG_COMPILE_UNIT, vec![], vec![5, 1]),
        entry(10, DW_TAG_SUBPROGRAM, all(vec![declared("f", 3), pc(1, 2)]), vec![9]),
    ]);
    let o = options(true, false);
    let mut cu = CompilationUnit::new(&o);
    assert_eq!(cu.parse_compilation_unit(&u), Ok(()));
    assert_eq!(cu.subprograms.len(), 1);
    assert_eq!(cu.parsing_errors, Vec::<String>::new());
}

#[test]
fn ranges_of_the_parent_are_taken_where_the_entry_has_none() {
    let u = unit(vec![
        entry(0, DW_TAG_LEXICAL_BLOCK, vec![], vec![]),
        entry(10, DW_TAG_LEXICAL_BLOCK, pc(5, 5), vec![]),
    ]);
    let parent = vec![range(1, 2), range(3, 4)];
    assert_eq!(get_address_ranges_or_take_parent(&u.entries[0], &u, &parent), parent);
    assert_eq!(get_address_ranges_or_take_parent(&u.entries[1], &u, &parent), vec![range(5, 10)]);
}

#[test]
fn method_and_variable_are_made_from_their_entries() {
    let u = chain();
    let b = Method::create(&u.entries[2], &u, 7, false).unwrap();
    assert_eq!(
        b,
        Method {
            method_type: MethodType::InlinedMethodType { call_site_range: source(4), inline_depth: 7 },
            method_name: "b".to_string(),
            variables: Vec::new(),
            decl_range: source(8),
            address_ranges: vec![range(0x110, 0x150)],
        }
    );
    assert_eq!(
        Method::create(&u.entries[4], &u, 0, false),
        Err(ParsingError::Failure(
            "Could not get ranges [DebuggingInformationEntry at offset 40 (hex: 28)]".to_string()
        ))
    );
    let v = with_variables();
    assert_eq!(
        Variable::create(&v.entries[5], &vec![range(1, 2)], &v),
        Ok(Variable {
            address_ranges: vec![range(1, 2)],
            register_locations: Vec::new(),
            var_name: "y".to_string(),
            var_type_id: RustTypeId(200, 0),
        })
    );
}

#[test]
fn line_table_has_a_row_for_each_row_of_the_program() {
    let mut u = unit(vec![entry(0, DW_TAG_COMPILE_UNIT, vec![], vec![])]);
    u.line_program.as_mut().unwrap().rows = vec![
        LineRow { address: 0x100, file_index: 1, line: 3, column: 5, end_sequence: false },
        LineRow { address: 0x104, file_index: 2, line: 4, column: 0, end_sequence: false },
        LineRow { address: 0x108, file_index: 9, line: 0, column: 1, end_sequence: false },
        LineRow { address: 0x10c, file_index: 1, line: 7, column: 7, end_sequence: true },
        LineRow { address: 0x200, file_index: 1, line: 9, column: 2, end_sequence: false },
    ];
    let o = options(true, false);
    let mut cu = CompilationUnit::new(&o);
    assert_eq!(cu.parse_compilation_unit(&u), Ok(()));
    let row = |address, file_path: &str, line, col| LineNumberInfo {
        address,
        file_path: file_path.to_string(),
        col,
        line,
    };
    assert_eq!(
        cu.line_number_info,
        vec![
            row(0x100, "/src/a.rs", 3, 5),
            row(0x104, "/src/lib/b.rs", 4, 0),
            row(0x108, "", 0, 1),
            row(0x10c, "end-sequence", 0, 0),
            row(0x200, "/src/a.rs", 9, 2),
        ]
    );
    assert_eq!(cu.line_number_info[0].clone(), cu.line_number_info[0]);
}

#[test]
fn line_program_that_cannot_be_read_is_an_error() {
    let mut u = unit(vec![entry(0, DW_TAG_COMPILE_UNIT, vec![], vec![])]);
    u.line_program.as_mut().unwrap().rows =
        vec![LineRow { address: 0x100, file_index: 1, line: 3, column: 5, end_sequence: false }];
    u.line_program.as_mut().unwrap().failure = Some("bad row".to_string());
    let o = options(true, false);
    let mut cu = CompilationUnit::new(&o);
    assert_eq!(cu.parse_compilation_unit(&u), Err(ParsingError::Failure("bad row".to_string())));
    assert_eq!(cu.line_number_info, Vec::<LineNumberInfo>::new());

    let mut u = unit(vec![entry(0, DW_TAG_COMPILE_UNIT, vec![], vec![])]);
    u.line_program.as_mut().unwrap().files[2] = Some(FileRecord {
        directory_index: 1,
        directory: TableString::Unreadable("bad directory".to_string()),
        path_name: TableString::Text("b.rs".to_string()),
    });
    u.line_program.as_mut().unwrap().rows = vec![
        LineRow { address: 0x100, file_index: 1, line: 3, column: 5, end_sequence: false },
        LineRow { address: 0x104, file_index: 2, line: 3, column: 5, end_sequence: false },
    ];
    let mut cu = CompilationUnit::new(&o);
    assert_eq!(
        cu.parse_line_number_program(&u),
        Err(ParsingError::Failure("bad directory".to_string()))
    );
}

#[test]
fn unit_without_line_program_has_no_rows() {
    let mut u = unit(vec![entry(0, DW_TAG_COMPILE_UNIT, vec![], vec![])]);
    u.line_program = None;
    let o = options(true, false);
    let mut cu = CompilationUnit::new(&o);
    assert_eq!(cu.parse_compilation_unit(&u), Ok(()));
    assert_eq!(cu.line_number_info, Vec::<LineNumberInfo>::new());
}

#[test]
fn translate_methods_reports_each_method_behind_the_others() {
    let o = options(true, false);
    let mut cu = CompilationUnit::new(&o);
    let inlined = Method {
        method_type: MethodType::InlinedMethodType { call_site_range: source(4), inline_depth: 1 },
        method_name: "b".to_string(),
        variables: Vec::new(),
        decl_range: source(8),
        address_ranges: vec![range(3, 4)],
    };
    cu.methods.push(Method {
        method_type: MethodType::SubprogramType {
            inlined_methods: vec![inlined],
            linkage_name: "link".to_string(),
        },
        method_name: "a".to_string(),
        variables: Vec::new(),
        decl_range: source(3),
        address_ranges: vec![range(1, 9)],
    });
    cu.translate_methods();
    cu.translate_methods();
    let expected = Subprogram {
        method_name: "a".to_string(),
        linkage_name: "link".to_string(),
        variables: Vec::new(),
        decl_range: source(3),
        address_ranges: vec![range(1, 9)],
        inlined_methods: vec![InlinedMethod {
            inline_depth: 1,
            call_site_range: source(4),
            method_name: "b".to_string(),
            variables: Vec::new(),
            decl_range: source(8),
            address_ranges: vec![range(3, 4)],
        }],
    };
    assert_eq!(cu.subprograms.len(), 2);
    assert_eq!(cu.subprograms[0], expected);
    assert_eq!(cu.subprograms[1], expected);
    assert_eq!(cu.methods.len(), 1);
}
