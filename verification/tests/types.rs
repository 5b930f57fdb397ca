use dwarf_jsondump::debug_entry::{
    Attribute, AttributeValue, DebugEntry, UnitData, DW_ATE_BOOLEAN, DW_ATE_FLOAT, DW_ATE_SIGNED,
    DW_ATE_UNSIGNED, DW_AT_BYTE_SIZE, DW_AT_COUNT, DW_AT_DATA_MEMBER_LOCATION, DW_AT_DISCR,
    DW_AT_DISCR_VALUE, DW_AT_ENCODING, DW_AT_HIGH_PC, DW_AT_LOW_PC, DW_AT_NAME, DW_AT_TYPE,
    DW_TAG_ARRAY_TYPE, DW_TAG_BASE_TYPE, DW_TAG_ENUMERATION_TYPE, DW_TAG_ENUMERATOR,
    DW_TAG_MEMBER, DW_TAG_POINTER_TYPE, DW_TAG_STRUCTURE_TYPE, DW_TAG_SUBPROGRAM,
    DW_TAG_SUBRANGE_TYPE, DW_TAG_VARIABLE, DW_TAG_VARIANT, DW_TAG_VARIANT_PART,
};
use dwarf_jsondump::die_extensions::ParsingError;
use dwarf_jsondump::report::{collect_parsing_errors, parse_compilation_units};
use dwarf_jsondump::type_parser::{
    parse_primitive_type, parse_variable_type, parse_variable_type_at_offset, TypeParser,
};
use dwarf_jsondump::types::data_structures::{CompilationUnit, DWARFDebugInformation};
use dwarf_jsondump::types::rust_type::{
    Discriminant, EnumVariant, EnumVariantType, RustType, RustTypeId, StructField, Variant,
};
use dwarf_jsondump::ParsingOptions;

const DW_TAG_COMPILE_UNIT: u16 = 0x11;
const DW_TAG_UNION_TYPE: u16 = 0x17;

fn attr(name: u16, value: AttributeValue) -> Attribute {
    Attribute { name, value }
}

fn text(s: &str) -> AttributeValue {
    AttributeValue::Text(s.to_string())
}

fn entry(offset: usize, tag: u16, attributes: Vec<Attribute>, children: Vec<usize>) -> DebugEntry {
    DebugEntry { offset, tag, attributes, children }
}

fn unit_at(offset: usize, entries: Vec<DebugEntry>) -> UnitData {
    UnitData {
        offset,
        version: 4,
        address_size: 4,
        dwarf64: false,
        big_endian: false,
        comp_dir: None,
        index: UnitData::index_entries(&entries),
        entries,
        line_program: None,
    }
}

fn base(offset: usize, encoding: u8, size: u64) -> DebugEntry {
    entry(
        offset,
        DW_TAG_BASE_TYPE,
        vec![
            attr(DW_AT_NAME, text("scalar")),
            attr(DW_AT_ENCODING, AttributeValue::Encoding(encoding)),
            attr(DW_AT_BYTE_SIZE, AttributeValue::Udata(size)),
        ],
        vec![],
    )
}

fn member(offset: usize, name: &str, type_offset: usize, place: u64) -> DebugEntry {
    entry(
        offset,
        DW_TAG_MEMBER,
        vec![
            attr(DW_AT_NAME, text(name)),
            attr(DW_AT_TYPE, AttributeValue::UnitRef(type_offset)),
            attr(DW_AT_DATA_MEMBER_LOCATION, AttributeValue::Udata(place)),
        ],
        vec![],
    )
}

fn failure(msg: &str, offset: usize) -> ParsingError {
    ParsingError::Failure(format!(
        "{} [DebuggingInformationEntry at offset {:?} (hex: {:x})]",
        msg, offset, offset
    ))
}

#[test]
fn scalar_types_by_encoding_and_size() {
    let cases = [
        (DW_ATE_SIGNED, 1, RustType::I8),
        (DW_ATE_SIGNED, 2, RustType::I16),
        (DW_ATE_SIGNED, 4, RustType::I32),
        (DW_ATE_SIGNED, 8, RustType::I64),
        (DW_ATE_SIGNED, 16, RustType::I128),
        (DW_ATE_UNSIGNED, 1, RustType::U8),
        (DW_ATE_UNSIGNED, 2, RustType::U16),
        (DW_ATE_UNSIGNED, 4, RustType::U32),
        (DW_ATE_UNSIGNED, 8, RustType::U64),
        (DW_ATE_UNSIGNED, 16, RustType::U128),
        (DW_ATE_FLOAT, 4, RustType::F32),
        (DW_ATE_FLOAT, 8, RustType::F64),
        (DW_ATE_BOOLEAN, 1, RustType::Bool),
    ];
    for (encoding, size, expected) in cases {
        assert_eq!(parse_primitive_type(&base(10, encoding, size)), Ok(expected));
    }
}

#[test]
fn scalar_type_that_matches_nothing_is_an_error() {
    assert_eq!(
        parse_primitive_type(&base(26, DW_ATE_FLOAT, 2)),
        Err(ParsingError::Failure(
            "Encoding Some(DwAte(4)) doesn't match byte site Some(2), type at offfset 26 (hex 1a)".to_string()
        ))
    );
    assert_eq!(
        parse_primitive_type(&entry(26, DW_TAG_BASE_TYPE, vec![], vec![])),
        Err(ParsingError::Failure(
            "Encoding None doesn't match byte site None, type at offfset 26 (hex 1a)".to_string()
        ))
    );
    // a size that is not given as an unsigned number of any width does not count
    let odd = entry(
        26,
        DW_TAG_BASE_TYPE,
        vec![
            attr(DW_AT_ENCODING, AttributeValue::Encoding(DW_ATE_SIGNED)),
            attr(DW_AT_BYTE_SIZE, AttributeValue::Data1(4)),
        ],
        vec![],
    );
    assert_eq!(
        parse_primitive_type(&odd),
        Err(ParsingError::Failure(
            "Encoding Some(DwAte(5)) doesn't match byte site None, type at offfset 26 (hex 1a)".to_string()
        ))
    );
    assert_eq!(format!("{:?}", Some(gimli::DW_ATE_float)), "Some(DwAte(4))");
}

#[test]
fn pointer_wants_its_referent() {
    let u = unit_at(
        64,
        vec![
            entry(10, DW_TAG_POINTER_TYPE, vec![attr(DW_AT_TYPE, AttributeValue::UnitRef(20))], vec![]),
            entry(20, DW_TAG_POINTER_TYPE, vec![], vec![]),
        ],
    );
    assert_eq!(
        parse_variable_type(&u, &u.entries[0]),
        (Ok(RustType::Reference { referent_id: Box::new(RustTypeId(20, 64)) }), vec![RustTypeId(20, 64)])
    );
    assert_eq!(
        parse_variable_type(&u, &u.entries[1]),
        (Err(failure("Could not not parse DW_AT_type", 20)), vec![])
    );
}

#[test]
fn array_takes_the_count_of_the_first_subrange_that_has_one() {
    let u = unit_at(
        0,
        vec![
            entry(10, DW_TAG_ARRAY_TYPE, vec![attr(DW_AT_TYPE, AttributeValue::UnitRef(50))], vec![1, 2, 3]),
            entry(20, DW_TAG_SUBRANGE_TYPE, vec![], vec![]),
            entry(30, DW_TAG_SUBRANGE_TYPE, vec![attr(DW_AT_COUNT, AttributeValue::Data1(3))], vec![]),
            entry(40, DW_TAG_SUBRANGE_TYPE, vec![attr(DW_AT_COUNT, AttributeValue::Data2(9))], vec![]),
            entry(50, DW_TAG_ARRAY_TYPE, vec![attr(DW_AT_TYPE, AttributeValue::UnitRef(50))], vec![5]),
            entry(60, DW_TAG_MEMBER, vec![attr(DW_AT_COUNT, AttributeValue::Data4(7))], vec![]),
            entry(70, DW_TAG_ARRAY_TYPE, vec![attr(DW_AT_TYPE, AttributeValue::UnitRef(50))], vec![7]),
            entry(80, DW_TAG_SUBRANGE_TYPE, vec![attr(DW_AT_COUNT, AttributeValue::Data8(1 << 40))], vec![]),
        ],
    );
    assert_eq!(
        parse_variable_type(&u, &u.entries[0]),
        (
            Ok(RustType::Array { element_type_id: Box::new(RustTypeId(50, 0)), element_count: 3 }),
            vec![RustTypeId(50, 0)]
        )
    );
    assert_eq!(
        parse_variable_type(&u, &u.entries[4]).0,
        Ok(RustType::Array { element_type_id: Box::new(RustTypeId(50, 0)), element_count: 0 })
    );
    assert_eq!(
        parse_variable_type(&u, &u.entries[6]).0,
        Ok(RustType::Array { element_type_id: Box::new(RustTypeId(50, 0)), element_count: 1 << 40 })
    );
}

fn structs() -> UnitData {
    unit_at(
        0,
        vec![
            entry(
                10,
                DW_TAG_STRUCTURE_TYPE,
                vec![attr(DW_AT_NAME, text("Point")), attr(DW_AT_BYTE_SIZE, AttributeValue::Udata(8))],
                vec![1, 2, 3],
            ),
            member(20, "x", 100, 0),
            entry(30, DW_TAG_SUBPROGRAM, vec![], vec![]),
            member(40, "y", 104, 4),
            // an option-like struct: nothing but a variant part
            entry(
                50,
                DW_TAG_STRUCTURE_TYPE,
                vec![attr(DW_AT_NAME, text("Option<u32>")), attr(DW_AT_BYTE_SIZE, AttributeValue::Udata(8))],
                vec![5],
            ),
            entry(60, DW_TAG_VARIANT_PART, vec![attr(DW_AT_DISCR, AttributeValue::UnitRef(70))], vec![6, 7, 9]),
            member(70, "discr", 200, 0),
            entry(80, DW_TAG_VARIANT, vec![attr(DW_AT_DISCR_VALUE, AttributeValue::Data1(0))], vec![8]),
            member(90, "None", 300, 0),
            entry(100, DW_TAG_VARIANT, vec![attr(DW_AT_DISCR_VALUE, AttributeValue::Data1(1))], vec![10]),
            member(110, "Some", 400, 4),
        ],
    )
}

#[test]
fn struct_has_its_member_children_as_fields_in_order() {
    let u = structs();
    assert_eq!(
        parse_variable_type(&u, &u.entries[0]),
        (
            Ok(RustType::Struct {
                name: "Point".to_string(),
                size: 8,
                fields: vec![
                    StructField { name: "x".to_string(), field_type_id: RustTypeId(100, 0), offset: 0 },
                    StructField { name: "y".to_string(), field_type_id: RustTypeId(104, 0), offset: 4 },
                ],
                is_tuple_struct: false,
            }),
            vec![RustTypeId(100, 0), RustTypeId(104, 0)]
        )
    );
}

#[test]
fn struct_with_only_a_variant_part_is_the_variant_part() {
    let u = structs();
    assert_eq!(
        parse_variable_type(&u, &u.entries[4]),
        (
            Ok(RustType::VariantPart {
                discriminant: Discriminant { rust_type_id: RustTypeId(200, 0), offset: 0 },
                variants: vec![
                    Variant {
                        discr_name: "None".to_string(),
                        discr_value: 0,
                        rust_type_id: RustTypeId(300, 0),
                        offset: 0
                    },
                    Variant {
                        discr_name: "Some".to_string(),
                        discr_value: 1,
                        rust_type_id: RustTypeId(400, 0),
                        offset: 4
                    },
                ],
                size: 8,
            }),
            vec![RustTypeId(200, 0), RustTypeId(300, 0), RustTypeId(400, 0)]
        )
    );
}

#[test]
fn struct_errors() {
    let mut u = structs();
    // no size
    u.entries[0].attributes.pop();
    assert_eq!(
        parse_variable_type(&u, &u.entries[0]),
        (Err(failure("Could not parse attr DW_AT_byte_size as u64", 10)), vec![])
    );
    // a field without a place: its type is wanted all the same
    let mut u = structs();
    u.entries[3].attributes.pop();
    assert_eq!(
        parse_variable_type(&u, &u.entries[0]),
        (
            Err(failure("Could not parse attr DW_AT_data_member_location as u64", 40)),
            vec![RustTypeId(100, 0), RustTypeId(104, 0)]
        )
    );
    // a variant part behind a field
    let mut u = structs();
    u.entries[0].children = vec![1, 5];
    assert_eq!(
        parse_variable_type(&u, &u.entries[0]),
        (Err(failure("Found a variant part in a struct with fields", 10)), vec![RustTypeId(100, 0)])
    );
}

#[test]
fn variant_part_errors() {
    let mut u = structs();
    u.entries[5].attributes.clear();
    assert_eq!(
        parse_variable_type(&u, &u.entries[4]),
        (Err(failure("Failed to find DW_AT_discr value", 60)), vec![])
    );
    let mut u = structs();
    u.entries[5].attributes = vec![attr(DW_AT_DISCR, AttributeValue::Udata(70))];
    assert_eq!(
        parse_variable_type(&u, &u.entries[4]),
        (Err(failure("DW_AT_discr is not a UnitRef", 60)), vec![])
    );
    let mut u = structs();
    u.entries[5].attributes = vec![attr(DW_AT_DISCR, AttributeValue::UnitRef(71))];
    assert_eq!(
        parse_variable_type(&u, &u.entries[4]),
        (Err(failure("Could not find the entry of DW_AT_discr", 60)), vec![])
    );
    let mut u = structs();
    u.entries[5].children = vec![6];
    assert_eq!(
        parse_variable_type(&u, &u.entries[4]),
        (Err(failure("Could not parse an variant type", 60)), vec![RustTypeId(200, 0)])
    );
    // a variant without a discriminant value
    let mut u = structs();
    u.entries[9].attributes.clear();
    assert_eq!(
        parse_variable_type(&u, &u.entries[4]),
        (
            Err(failure("Could not parse attr DW_AT_discr_value as u64", 100)),
            vec![RustTypeId(200, 0), RustTypeId(300, 0)]
        )
    );
    // a variant without a member
    let mut u = structs();
    u.entries[9].children.clear();
    assert_eq!(
        parse_variable_type(&u, &u.entries[4]),
        (
            Err(failure("Unable to extract variant type", 100)),
            vec![RustTypeId(200, 0), RustTypeId(300, 0)]
        )
    );
    // a variant with two members
    let mut u = structs();
    u.entries[9].children = vec![10, 8];
    assert_eq!(
        parse_variable_type(&u, &u.entries[4]),
        (
            Err(failure("Found more than one member in a variant", 100)),
            vec![RustTypeId(200, 0), RustTypeId(300, 0), RustTypeId(400, 0), RustTypeId(300, 0)]
        )
    );
}

#[test]
fn enum_has_its_enumerators_as_unit_variants() {
    let u = unit_at(
        0,
        vec![
            entry(10, DW_TAG_ENUMERATION_TYPE, vec![attr(DW_AT_NAME, text("Color"))], vec![1, 2, 3]),
            entry(20, DW_TAG_ENUMERATOR, vec![attr(DW_AT_NAME, text("Red"))], vec![]),
            entry(30, DW_TAG_MEMBER, vec![attr(DW_AT_NAME, text("skipped"))], vec![]),
            entry(40, DW_TAG_ENUMERATOR, vec![attr(DW_AT_NAME, text("Green"))], vec![]),
            entry(50, DW_TAG_ENUMERATION_TYPE, vec![attr(DW_AT_NAME, text("Broken"))], vec![5]),
            entry(60, DW_TAG_ENUMERATOR, vec![], vec![]),
        ],
    );
    assert_eq!(
        parse_variable_type(&u, &u.entries[0]),
        (
            Ok(RustType::Enum {
                name: "Color".to_string(),
                variants: vec![
                    EnumVariant { name: "Red".to_string(), variant_type: EnumVariantType::Unit },
                    EnumVariant { name: "Green".to_string(), variant_type: EnumVariantType::Unit },
                ],
            }),
            vec![]
        )
    );
    assert_eq!(
        parse_variable_type(&u, &u.entries[4]),
        (Err(failure("Could not find DW_AT_name", 60)), vec![])
    );
}

#[test]
fn other_tags_are_not_parsed() {
    let u = unit_at(0, vec![entry(10, DW_TAG_UNION_TYPE, vec![], vec![]), entry(20, 0xfff0, vec![], vec![])]);
    assert_eq!(
        parse_variable_type(&u, &u.entries[0]),
        (Err(failure("Found an unsupported type DW_TAG_union_type", 10)), vec![])
    );
    assert_eq!(
        parse_variable_type(&u, &u.entries[1]),
        (Err(failure(&format!("Found an unsupported type {}", gimli::DwTag(0xfff0)), 20)), vec![])
    );
}

#[test]
fn type_is_found_by_unit_and_entry_offset() {
    let units = vec![unit_at(0, vec![base(10, DW_ATE_SIGNED, 4)]), unit_at(500, vec![base(10, DW_ATE_BOOLEAN, 1)])];
    assert_eq!(parse_variable_type_at_offset(&units, RustTypeId(10, 0)), (Ok(RustType::I32), vec![]));
    assert_eq!(parse_variable_type_at_offset(&units, RustTypeId(10, 500)), (Ok(RustType::Bool), vec![]));
    assert_eq!(
        parse_variable_type_at_offset(&units, RustTypeId(11, 500)),
        (Err(failure("Could not find the entry of the type", 11)), vec![])
    );
    assert_eq!(
        parse_variable_type_at_offset(&units, RustTypeId(10, 7)),
        (Err(ParsingError::Failure("Could not find the unit at offset 7".to_string())), vec![])
    );
}

fn variable(offset: usize, name: &str, type_offset: usize) -> DebugEntry {
    entry(
        offset,
        DW_TAG_VARIABLE,
        vec![attr(DW_AT_NAME, text(name)), attr(DW_AT_TYPE, AttributeValue::UnitRef(type_offset))],
        vec![],
    )
}

/// A function with three variables: a struct that refers to itself through a
/// pointer and holds an enum; the same struct again; and a union.
fn program() -> Vec<UnitData> {
    vec![unit_at(
        0,
        vec![
            entry(0, DW_TAG_COMPILE_UNIT, vec![], vec![1]),
            entry(
                10,
                DW_TAG_SUBPROGRAM,
                vec![
                    attr(DW_AT_NAME, text("main")),
                    attr(DW_AT_LOW_PC, AttributeValue::Addr(0x10)),
                    attr(DW_AT_HIGH_PC, AttributeValue::Udata(0x10)),
                    attr(dwarf_jsondump::debug_entry::DW_AT_DECL_FILE, AttributeValue::FileIndex(1)),
                    attr(dwarf_jsondump::debug_entry::DW_AT_DECL_LINE, AttributeValue::Udata(1)),
                ],
                vec![2, 3, 4],
            ),
            variable(20, "node", 100),
            variable(30, "again", 100),
            variable(40, "odd", 500),
            entry(
                100,
                DW_TAG_STRUCTURE_TYPE,
                vec![attr(DW_AT_NAME, text("Node")), attr(DW_AT_BYTE_SIZE, AttributeValue::Udata(16))],
                vec![6, 7, 8],
            ),
            member(110, "next", 200, 0),
            member(120, "kind", 300, 8),
            member(130, "len", 400, 12),
            entry(200, DW_TAG_POINTER_TYPE, vec![attr(DW_AT_TYPE, AttributeValue::UnitRef(100))], vec![]),
            entry(300, DW_TAG_ENUMERATION_TYPE, vec![attr(DW_AT_NAME, text("Kind"))], vec![11]),
            entry(310, DW_TAG_ENUMERATOR, vec![attr(DW_AT_NAME, text("Leaf"))], vec![]),
            base(400, DW_ATE_UNSIGNED, 4),
            entry(500, DW_TAG_UNION_TYPE, vec![], vec![]),
            // never named by a variable
            base(600, DW_ATE_SIGNED, 8),
        ],
    )]
}

fn with_files(mut units: Vec<UnitData>) -> Vec<UnitData> {
    for u in units.iter_mut() {
        u.line_program = Some(dwarf_jsondump::debug_entry::LineProgram {
            files: vec![
                None,
                Some(dwarf_jsondump::debug_entry::FileRecord {
                    directory_index: 0,
                    directory: dwarf_jsondump::debug_entry::TableString::Missing,
                    path_name: dwarf_jsondump::debug_entry::TableString::Text("main.rs".to_string()),
                }),
            ],
            rows: Vec::new(),
            failure: None,
        });
    }
    units
}

#[test]
fn every_type_that_a_variable_reaches_is_parsed_once() {
    let units = with_files(program());
    let options = ParsingOptions { demangle: false, output_file_path: None, extract_variables: true };
    let parsed = parse_compilation_units(&options, &units).unwrap();
    assert_eq!(parsed.len(), 1);
    assert_eq!(parsed[0].subprograms[0].variables.len(), 3);
    let mut parser = TypeParser::new(&units);
    assert_eq!(parser.process(&parsed), Ok(()));
    let ids: Vec<RustTypeId> = parser.type_nodes.iter().map(|n| n.0).collect();
    assert_eq!(ids, vec![RustTypeId(100, 0), RustTypeId(200, 0), RustTypeId(300, 0), RustTypeId(400, 0)]);
    assert_eq!(
        parser.type_nodes[0].1,
        RustType::Struct {
            name: "Node".to_string(),
            size: 16,
            fields: vec![
                StructField { name: "next".to_string(), field_type_id: RustTypeId(200, 0), offset: 0 },
                StructField { name: "kind".to_string(), field_type_id: RustTypeId(300, 0), offset: 8 },
                StructField { name: "len".to_string(), field_type_id: RustTypeId(400, 0), offset: 12 },
            ],
            is_tuple_struct: false,
        }
    );
    assert_eq!(parser.type_nodes[1].1, RustType::Reference { referent_id: Box::new(RustTypeId(100, 0)) });
    assert_eq!(
        parser.type_nodes[2].1,
        RustType::Enum {
            name: "Kind".to_string(),
            variants: vec![EnumVariant { name: "Leaf".to_string(), variant_type: EnumVariantType::Unit }],
        }
    );
    assert_eq!(parser.type_nodes[3].1, RustType::U32);
    assert_eq!(
        parser.parsing_errors,
        vec![
            "Type Parsing Error: Parsing failed: Found an unsupported type DW_TAG_union_type [DebuggingInformationEntry at offset 500 (hex: 1f4)]"
                .to_string()
        ]
    );
    assert!(parser.worklist.is_empty());

    let report = DWARFDebugInformation::new(&parsed, &parser.type_nodes, &parser.parsing_errors);
    assert_eq!(
        report.parsing_errors,
        vec![
            "Type Parsing Error: Type Parsing Error: Parsing failed: Found an unsupported type DW_TAG_union_type [DebuggingInformationEntry at offset 500 (hex: 1f4)]"
                .to_string()
        ]
    );
    assert_eq!(report.compilation_units.len(), 1);
    assert_eq!(report.type_nodes.len(), 4);
}

#[test]
fn without_variables_no_type_is_parsed() {
    let units = with_files(program());
    let options = ParsingOptions { demangle: false, output_file_path: None, extract_variables: false };
    let parsed = parse_compilation_units(&options, &units).unwrap();
    let mut parser = TypeParser::new(&units);
    assert_eq!(parser.process(&parsed), Ok(()));
    assert!(parser.type_nodes.is_empty());
    assert!(parser.parsing_errors.is_empty());
    assert_eq!(parsed[0].subprograms.len(), 1);
}

#[test]
fn types_are_found_across_units() {
    let mut units = with_files(program());
    let mut second = with_files(program()).remove(0);
    second.offset = 1000;
    units.push(second);
    let options = ParsingOptions { demangle: false, output_file_path: None, extract_variables: true };
    let parsed = parse_compilation_units(&options, &units).unwrap();
    let mut parser = TypeParser::new(&units);
    assert_eq!(parser.process(&parsed), Ok(()));
    let mut ids: Vec<RustTypeId> = parser.type_nodes.iter().map(|n| n.0).collect();
    ids.sort_by_key(|id| (id.1, id.0));
    assert_eq!(
        ids,
        vec![
            RustTypeId(100, 0),
            RustTypeId(200, 0),
            RustTypeId(300, 0),
            RustTypeId(400, 0),
            RustTypeId(100, 1000),
            RustTypeId(200, 1000),
            RustTypeId(300, 1000),
            RustTypeId(400, 1000),
        ]
    );
    assert_eq!(parser.parsing_errors.len(), 2);
}

#[test]
fn messages_are_gathered_under_the_name_of_their_part() {
    let options = ParsingOptions { demangle: false, output_file_path: None, extract_variables: true };
    let mut first = CompilationUnit::new(&options);
    first.parsing_errors = vec!["a".to_string(), "b".to_string()];
    let second = CompilationUnit::new(&options);
    let mut third = CompilationUnit::new(&options);
    third.parsing_errors = vec!["c".to_string()];
    assert_eq!(
        collect_parsing_errors(&vec![first, second, third], &vec!["t".to_string(), "".to_string()]),
        vec![
            "Compilation Unit Parsing Error: a",
            "Compilation Unit Parsing Error: b",
            "Compilation Unit Parsing Error: c",
            "Type Parsing Error: t",
            "Type Parsing Error: ",
        ]
    );
    assert_eq!(collect_parsing_errors(&Vec::new(), &Vec::new()), Vec::<String>::new());
}

#[test]
fn the_first_unit_that_cannot_be_parsed_ends_the_run() {
    let mut units = with_files(program());
    units.push(unit_at(2000, Vec::new()));
    let options = ParsingOptions { demangle: false, output_file_path: None, extract_variables: true };
    assert_eq!(
        parse_compilation_units(&options, &units).err(),
        Some(ParsingError::Failure("Could not find the root entry of the unit".to_string()))
    );
    assert_eq!(parse_compilation_units(&options, &Vec::new()).unwrap().len(), 0);
}
