use dwarf_jsondump::debug_entry::{
    Attribute, AttributeValue, DebugEntry, FileRecord, LineProgram, LocationEntry, TableString,
    UnitData, DW_AT_ABSTRACT_ORIGIN, DW_AT_BYTE_SIZE, DW_AT_CALL_COLUMN, DW_AT_CALL_FILE,
    DW_AT_CALL_LINE, DW_AT_CONST_VALUE, DW_AT_DATA_MEMBER_LOCATION, DW_AT_DECL_COLUMN,
    DW_AT_DECL_FILE, DW_AT_DECL_LINE, DW_AT_HIGH_PC, DW_AT_LINKAGE_NAME, DW_AT_LOCATION,
    DW_AT_LOW_PC, DW_AT_NAME, DW_AT_RANGES, DW_AT_SPECIFICATION, DW_AT_TYPE, DW_TAG_SUBPROGRAM,
    DW_TAG_VARIABLE,
};
use dwarf_jsondump::die_extensions::{DebugEntryExt, 
    discard_null, get_file_name, resolve, ParsingError, Property, PropertyValue,
    MAX_REFERENCE_DEPTH,
};
use dwarf_jsondump::types::data_structures::{AddressRange, DWARFOperationsList, SourceRange};
use dwarf_jsondump::types::operation_types::OperationJson;
use dwarf_jsondump::types::rust_type::RustTypeId;

fn attr(name: u16, value: AttributeValue) -> Attribute {
    Attribute { name, value }
}

fn text(s: &str) -> AttributeValue {
    AttributeValue::Text(s.to_string())
}

fn entry(offset: usize, tag: u16, attributes: Vec<Attribute>) -> DebugEntry {
    DebugEntry { offset, tag, attributes, children: Vec::new() }
}

fn files() -> LineProgram {
    LineProgram {
        files: vec![
            None,
            Some(FileRecord {
                directory_index: 1,
                directory: TableString::Text("lib".to_string()),
                path_name: TableString::Text("a.rs".to_string()),
            }),
            Some(FileRecord {
                directory_index: 0,
                directory: TableString::Text("/src".to_string()),
                path_name: TableString::Text("main.rs".to_string()),
            }),
            Some(FileRecord {
                directory_index: 2,
                directory: TableString::Text("/abs".to_string()),
                path_name: TableString::Text("b.rs".to_string()),
            }),
            Some(FileRecord {
                directory_index: 3,
                directory: TableString::Unreadable("bad string".to_string()),
                path_name: TableString::Text("c.rs".to_string()),
            }),
            Some(FileRecord {
                directory_index: 0,
                directory: TableString::Missing,
                path_name: TableString::Text("d.rs".to_string()),
            }),
        ],
        rows: Vec::new(),
        failure: None,
    }
}

fn unit(entries: Vec<DebugEntry>) -> UnitData {
    UnitData {
        offset: 64,
        version: 4,
        address_size: 4,
        dwarf64: false,
        big_endian: false,
        comp_dir: Some("/src".to_string()),
        index: UnitData::index_entries(&entries),
        entries,
        line_program: Some(files()),
    }
}

fn range(start: u64, end: u64) -> AddressRange {
    AddressRange { start, end }
}

fn failure(msg: &str, offset: usize) -> ParsingError {
    ParsingError::Failure(format!(
        "{} [DebuggingInformationEntry at offset {:?} (hex: {:x})]",
        msg, offset, offset
    ))
}

#[test]
fn name_is_read_from_the_entry() {
    let u = unit(vec![entry(10, DW_TAG_SUBPROGRAM, vec![attr(DW_AT_NAME, text("main"))])]);
    assert_eq!(u.entries[0].try_get_name(&u), Ok("main".to_string()));
}

#[test]
fn first_attribute_of_a_name_counts() {
    let u = unit(vec![entry(
        10,
        DW_TAG_SUBPROGRAM,
        vec![attr(DW_AT_NAME, text("first")), attr(DW_AT_NAME, text("second"))],
    )]);
    assert_eq!(u.entries[0].try_get_name(&u), Ok("first".to_string()));
    assert_eq!(u.entries[0].attr(DW_AT_NAME), Some(&text("first")));
    assert_eq!(u.entries[0].attr(DW_AT_TYPE), None);
}

#[test]
fn missing_name_is_an_error_that_names_the_entry() {
    let u = unit(vec![entry(26, DW_TAG_SUBPROGRAM, vec![])]);
    assert_eq!(u.entries[0].try_get_name(&u), Err(failure("Could not find DW_AT_name", 26)));
    assert_eq!(
        u.entries[0].try_get_linkage_name(&u),
        Err(failure("Could not find DW_AT_linkage_name", 26))
    );
    assert_eq!(u.entries[0].try_get_decl_range(&u), Err(failure("Could not find decl range", 26)));
    assert_eq!(
        u.entries[0].try_get_call_site_range(&u),
        Err(failure("Could not get call site range", 26))
    );
    assert_eq!(u.entries[0].try_get_address_ranges(&u), Err(failure("Could not get ranges", 26)));
    assert_eq!(
        u.entries[0].try_get_type_id(&u),
        Err(failure("Could not not parse DW_AT_type", 26))
    );
    assert_eq!(u.entries[0].try_get_variable_register(&u, &vec![range(1, 2)]), Ok(Vec::new()));
}

#[test]
fn name_that_is_no_text_counts_as_missing() {
    let u = unit(vec![entry(26, DW_TAG_SUBPROGRAM, vec![attr(DW_AT_NAME, AttributeValue::Udata(3))])]);
    assert_eq!(u.entries[0].try_get_name(&u), Err(failure("Could not find DW_AT_name", 26)));
}

#[test]
fn name_falls_back_to_the_specification() {
    let u = unit(vec![
        entry(10, DW_TAG_SUBPROGRAM, vec![attr(DW_AT_SPECIFICATION, AttributeValue::UnitRef(20))]),
        entry(20, DW_TAG_SUBPROGRAM, vec![attr(DW_AT_NAME, text("declared"))]),
    ]);
    assert_eq!(u.entries[0].try_get_name(&u), Ok("declared".to_string()));
}

#[test]
fn name_falls_back_to_the_abstract_origin() {
    let u = unit(vec![
        entry(10, DW_TAG_SUBPROGRAM, vec![attr(DW_AT_ABSTRACT_ORIGIN, AttributeValue::UnitRef(20))]),
        entry(20, DW_TAG_SUBPROGRAM, vec![attr(DW_AT_LINKAGE_NAME, text("_ZN4mainE"))]),
    ]);
    assert_eq!(u.entries[0].try_get_linkage_name(&u), Ok("_ZN4mainE".to_string()));
}

#[test]
fn specification_is_asked_before_the_abstract_origin() {
    let u = unit(vec![
        entry(
            10,
            DW_TAG_SUBPROGRAM,
            vec![
                attr(DW_AT_ABSTRACT_ORIGIN, AttributeValue::UnitRef(30)),
                attr(DW_AT_SPECIFICATION, AttributeValue::UnitRef(20)),
            ],
        ),
        entry(20, DW_TAG_SUBPROGRAM, vec![attr(DW_AT_NAME, text("from specification"))]),
        entry(30, DW_TAG_SUBPROGRAM, vec![attr(DW_AT_NAME, text("from origin"))]),
    ]);
    assert_eq!(u.entries[0].try_get_name(&u), Ok("from specification".to_string()));
}

#[test]
fn abstract_origin_is_asked_where_the_specification_gives_nothing() {
    let u = unit(vec![
        entry(
            10,
            DW_TAG_SUBPROGRAM,
            vec![
                attr(DW_AT_SPECIFICATION, AttributeValue::UnitRef(20)),
                attr(DW_AT_ABSTRACT_ORIGIN, AttributeValue::UnitRef(30)),
            ],
        ),
        entry(20, DW_TAG_SUBPROGRAM, vec![]),
        entry(30, DW_TAG_SUBPROGRAM, vec![attr(DW_AT_NAME, text("from origin"))]),
    ]);
    assert_eq!(u.entries[0].try_get_name(&u), Ok("from origin".to_string()));
}

#[test]
fn own_attributes_win_over_specification_and_origin() {
    let u = unit(vec![
        entry(
            10,
            DW_TAG_SUBPROGRAM,
            vec![
                attr(DW_AT_SPECIFICATION, AttributeValue::UnitRef(20)),
                attr(DW_AT_ABSTRACT_ORIGIN, AttributeValue::UnitRef(20)),
                attr(DW_AT_NAME, text("own")),
                attr(DW_AT_TYPE, AttributeValue::UnitRef(7)),
                attr(DW_AT_LOW_PC, AttributeValue::Addr(8)),
                attr(DW_AT_HIGH_PC, AttributeValue::Udata(4)),
            ],
        ),
        entry(
            20,
            DW_TAG_SUBPROGRAM,
            vec![
                attr(DW_AT_NAME, text("other")),
                attr(DW_AT_TYPE, AttributeValue::UnitRef(9)),
                attr(DW_AT_LOW_PC, AttributeValue::Addr(100)),
                attr(DW_AT_HIGH_PC, AttributeValue::Udata(4)),
            ],
        ),
    ]);
    assert_eq!(u.entries[0].try_get_name(&u), Ok("own".to_string()));
    assert_eq!(u.entries[0].try_get_type_id(&u), Ok(RustTypeId(7, 64)));
    assert_eq!(u.entries[0].try_get_address_ranges(&u), Ok(vec![range(8, 12)]));
}

#[test]
fn a_chain_of_references_is_followed() {
    let u = unit(vec![
        entry(10, DW_TAG_SUBPROGRAM, vec![attr(DW_AT_ABSTRACT_ORIGIN, AttributeValue::UnitRef(20))]),
        entry(20, DW_TAG_SUBPROGRAM, vec![attr(DW_AT_SPECIFICATION, AttributeValue::UnitRef(30))]),
        entry(30, DW_TAG_SUBPROGRAM, vec![attr(DW_AT_NAME, text("deep"))]),
    ]);
    assert_eq!(u.entries[0].try_get_name(&u), Ok("deep".to_string()));
    let none = Vec::new();
    assert_eq!(
        resolve(&u, &u.entries[0], Property::Name, &none, 2),
        Ok(PropertyValue::Text("deep".to_string()))
    );
    assert_eq!(
        resolve(&u, &u.entries[0], Property::Name, &none, 1),
        Err(failure("Could not find DW_AT_name", 10))
    );
    assert_eq!(
        resolve(&u, &u.entries[0], Property::Name, &none, 0),
        Err(failure("Could not find DW_AT_name", 10))
    );
}

#[test]
fn references_in_a_circle_end_in_an_error() {
    let u = unit(vec![
        entry(10, DW_TAG_SUBPROGRAM, vec![attr(DW_AT_ABSTRACT_ORIGIN, AttributeValue::UnitRef(20))]),
        entry(20, DW_TAG_SUBPROGRAM, vec![attr(DW_AT_ABSTRACT_ORIGIN, AttributeValue::UnitRef(10))]),
    ]);
    assert_eq!(u.entries[0].try_get_name(&u), Err(failure("Could not find DW_AT_name", 10)));
    assert_eq!(MAX_REFERENCE_DEPTH, 64);
}

#[test]
fn a_reference_to_no_entry_gives_nothing() {
    let u = unit(vec![entry(
        10,
        DW_TAG_SUBPROGRAM,
        vec![attr(DW_AT_SPECIFICATION, AttributeValue::UnitRef(999))],
    )]);
    assert_eq!(u.entries[0].try_get_name(&u), Err(failure("Could not find DW_AT_name", 10)));
    assert_eq!(u.find(999), None);
    assert_eq!(u.find(10), Some(0));
}

#[test]
fn file_names() {
    let u = unit(Vec::new());
    assert_eq!(get_file_name(&u, 0), None);
    assert_eq!(get_file_name(&u, 1), Some("/src/lib/a.rs".to_string()));
    assert_eq!(get_file_name(&u, 2), Some("/src/main.rs".to_string()));
    assert_eq!(get_file_name(&u, 3), Some("/abs/b.rs".to_string()));
    assert_eq!(get_file_name(&u, 4), None);
    assert_eq!(get_file_name(&u, 5), Some("d.rs".to_string()));
    assert_eq!(get_file_name(&u, 6), None);
    let mut relative = unit(Vec::new());
    relative.comp_dir = None;
    assert_eq!(get_file_name(&relative, 1), Some("lib/a.rs".to_string()));
    let mut newer = unit(Vec::new());
    newer.version = 5;
    newer.line_program.as_mut().unwrap().files[0] = Some(FileRecord {
        directory_index: 0,
        directory: TableString::Text("/src".to_string()),
        path_name: TableString::Text("zero.rs".to_string()),
    });
    assert_eq!(get_file_name(&newer, 0), Some("/src/zero.rs".to_string()));
    let mut bare = unit(Vec::new());
    bare.line_program = None;
    assert_eq!(get_file_name(&bare, 1), None);
}

#[test]
fn declaration_range_with_and_without_column() {
    let u = unit(vec![
        entry(
            10,
            DW_TAG_SUBPROGRAM,
            vec![
                attr(DW_AT_DECL_FILE, AttributeValue::FileIndex(1)),
                attr(DW_AT_DECL_LINE, AttributeValue::Udata(12)),
                attr(DW_AT_DECL_COLUMN, AttributeValue::Data1(5)),
            ],
        ),
        entry(
            20,
            DW_TAG_SUBPROGRAM,
            vec![
                attr(DW_AT_DECL_FILE, AttributeValue::FileIndex(2)),
                attr(DW_AT_DECL_LINE, AttributeValue::Data2(300)),
            ],
        ),
    ]);
    assert_eq!(
        u.entries[0].try_get_decl_range(&u),
        Ok(SourceRange { file_path: "/src/lib/a.rs".to_string(), line: 12, col: Some(5) })
    );
    assert_eq!(
        u.entries[1].try_get_decl_range(&u),
        Ok(SourceRange { file_path: "/src/main.rs".to_string(), line: 300, col: None })
    );
}

#[test]
fn line_zero_is_an_error_and_ends_the_search() {
    let u = unit(vec![
        entry(
            10,
            DW_TAG_SUBPROGRAM,
            vec![
                attr(DW_AT_DECL_FILE, AttributeValue::FileIndex(1)),
                attr(DW_AT_DECL_LINE, AttributeValue::Udata(0)),
                attr(DW_AT_CALL_FILE, AttributeValue::FileIndex(1)),
                attr(DW_AT_CALL_LINE, AttributeValue::Udata(0)),
                attr(DW_AT_ABSTRACT_ORIGIN, AttributeValue::UnitRef(20)),
            ],
        ),
        entry(
            20,
            DW_TAG_SUBPROGRAM,
            vec![
                attr(DW_AT_DECL_FILE, AttributeValue::FileIndex(1)),
                attr(DW_AT_DECL_LINE, AttributeValue::Udata(4)),
            ],
        ),
    ]);
    assert_eq!(
        u.entries[0].try_get_decl_range(&u),
        Err(failure(
            "The line numbers are 1-based, did not expect to find a 0 for a declaration range",
            10
        ))
    );
    assert_eq!(
        u.entries[0].try_get_call_site_range(&u),
        Err(failure(
            "The line numbers are 1-based, did not expect to find a 0 for a call site range",
            10
        ))
    );
}

#[test]
fn call_site_range_falls_back() {
    let u = unit(vec![
        entry(10, DW_TAG_SUBPROGRAM, vec![attr(DW_AT_ABSTRACT_ORIGIN, AttributeValue::UnitRef(20))]),
        entry(
            20,
            DW_TAG_SUBPROGRAM,
            vec![
                attr(DW_AT_CALL_FILE, AttributeValue::FileIndex(3)),
                attr(DW_AT_CALL_LINE, AttributeValue::Data4(77)),
                attr(DW_AT_CALL_COLUMN, AttributeValue::Data8(2)),
            ],
        ),
    ]);
    assert_eq!(
        u.entries[0].try_get_call_site_range(&u),
        Ok(SourceRange { file_path: "/abs/b.rs".to_string(), line: 77, col: Some(2) })
    );
}

#[test]
fn ranges_of_the_list_come_before_the_low_high_pair() {
    let u = unit(vec![entry(
        10,
        DW_TAG_SUBPROGRAM,
        vec![
            attr(DW_AT_LOW_PC, AttributeValue::Addr(0x100)),
            attr(DW_AT_HIGH_PC, AttributeValue::Udata(0x20)),
            attr(DW_AT_RANGES, AttributeValue::RangeList(vec![range(1, 5), range(9, 12)])),
        ],
    )]);
    assert_eq!(
        u.entries[0].try_get_address_ranges(&u),
        Ok(vec![range(1, 5), range(9, 12), range(0x100, 0x120)])
    );
}

#[test]
fn high_pc_may_be_an_address() {
    let u = unit(vec![entry(
        10,
        DW_TAG_SUBPROGRAM,
        vec![
            attr(DW_AT_LOW_PC, AttributeValue::Addr(0x100)),
            attr(DW_AT_HIGH_PC, AttributeValue::Addr(0x180)),
        ],
    )]);
    assert_eq!(u.entries[0].try_get_address_ranges(&u), Ok(vec![range(0x100, 0x180)]));
}

#[test]
fn null_ranges_are_discarded() {
    let u = unit(vec![
        entry(
            10,
            DW_TAG_SUBPROGRAM,
            vec![attr(
                DW_AT_RANGES,
                AttributeValue::RangeList(vec![range(0, 0), range(3, 4), range(0, 0)]),
            )],
        ),
        entry(
            20,
            DW_TAG_SUBPROGRAM,
            vec![
                attr(DW_AT_LOW_PC, AttributeValue::Addr(0)),
                attr(DW_AT_HIGH_PC, AttributeValue::Udata(0)),
            ],
        ),
        entry(
            30,
            DW_TAG_SUBPROGRAM,
            vec![
                attr(DW_AT_RANGES, AttributeValue::RangeList(vec![range(0, 0)])),
                attr(DW_AT_ABSTRACT_ORIGIN, AttributeValue::UnitRef(10)),
            ],
        ),
    ]);
    assert_eq!(u.entries[0].try_get_address_ranges(&u), Ok(vec![range(3, 4)]));
    assert_eq!(u.entries[1].try_get_address_ranges(&u), Err(failure("Could not get ranges", 20)));
    assert_eq!(u.entries[2].try_get_address_ranges(&u), Ok(vec![range(3, 4)]));
    assert_eq!(
        discard_null(&vec![range(0, 0), range(0, 7), range(7, 0), range(0, 0)]),
        vec![range(0, 7), range(7, 0)]
    );
}

#[test]
fn a_lone_low_or_high_pc_gives_no_range() {
    let u = unit(vec![
        entry(10, DW_TAG_SUBPROGRAM, vec![attr(DW_AT_LOW_PC, AttributeValue::Addr(5))]),
        entry(20, DW_TAG_SUBPROGRAM, vec![attr(DW_AT_HIGH_PC, AttributeValue::Addr(5))]),
        entry(30, DW_TAG_SUBPROGRAM, vec![attr(DW_AT_HIGH_PC, AttributeValue::Udata(5))]),
        entry(
            40,
            DW_TAG_SUBPROGRAM,
            vec![
                attr(DW_AT_LOW_PC, AttributeValue::Addr(u64::MAX)),
                attr(DW_AT_HIGH_PC, AttributeValue::Udata(1)),
            ],
        ),
    ]);
    for i in 0..4 {
        assert_eq!(
            u.entries[i].try_get_address_ranges(&u),
            Err(failure("Could not get ranges", u.entries[i].offset))
        );
    }
}

#[test]
fn unreadable_ranges_are_the_error() {
    let u = unit(vec![
        entry(
            10,
            DW_TAG_SUBPROGRAM,
            vec![
                attr(DW_AT_RANGES, AttributeValue::Unreadable("bad range list".to_string())),
                attr(DW_AT_ABSTRACT_ORIGIN, AttributeValue::UnitRef(20)),
            ],
        ),
        entry(
            20,
            DW_TAG_SUBPROGRAM,
            vec![attr(DW_AT_RANGES, AttributeValue::RangeList(vec![range(1, 2)]))],
        ),
        entry(
            30,
            DW_TAG_SUBPROGRAM,
            vec![
                attr(DW_AT_LOW_PC, AttributeValue::Addr(1)),
                attr(DW_AT_HIGH_PC, AttributeValue::Unreadable("bad address".to_string())),
            ],
        ),
        entry(40, DW_TAG_SUBPROGRAM, vec![attr(DW_AT_SPECIFICATION, AttributeValue::UnitRef(10))]),
    ]);
    assert_eq!(
        u.entries[0].try_get_address_ranges(&u),
        Err(ParsingError::Failure("bad range list".to_string()))
    );
    assert_eq!(
        u.entries[2].try_get_address_ranges(&u),
        Err(ParsingError::Failure("bad address".to_string()))
    );
    assert_eq!(u.entries[3].try_get_address_ranges(&u), Err(failure("Could not get ranges", 40)));
}

#[test]
fn type_id_pairs_the_entry_offset_with_the_unit_offset() {
    let u = unit(vec![
        entry(10, DW_TAG_VARIABLE, vec![attr(DW_AT_TYPE, AttributeValue::UnitRef(123))]),
        entry(20, DW_TAG_VARIABLE, vec![attr(DW_AT_ABSTRACT_ORIGIN, AttributeValue::UnitRef(10))]),
        entry(30, DW_TAG_VARIABLE, vec![attr(DW_AT_TYPE, AttributeValue::Udata(123))]),
    ]);
    assert_eq!(u.entries[0].try_get_type_id(&u), Ok(RustTypeId(123, 64)));
    assert_eq!(u.entries[1].try_get_type_id(&u), Ok(RustTypeId(123, 64)));
    assert_eq!(
        u.entries[2].try_get_type_id(&u),
        Err(failure("Could not not parse DW_AT_type", 30))
    );
}

#[test]
fn numbers_of_every_width_are_read() {
    let e = entry(
        10,
        DW_TAG_VARIABLE,
        vec![
            attr(DW_AT_BYTE_SIZE, AttributeValue::Udata(16)),
            attr(DW_AT_DATA_MEMBER_LOCATION, AttributeValue::Data1(8)),
            attr(DW_AT_DECL_LINE, AttributeValue::Data2(0x1234)),
            attr(DW_AT_DECL_COLUMN, AttributeValue::Data4(0x12345678)),
            attr(DW_AT_CALL_LINE, AttributeValue::Data8(u64::MAX)),
            attr(DW_AT_CONST_VALUE, AttributeValue::Sdata(-1)),
        ],
    );
    assert_eq!(e.try_get_byte_size(), Ok(16));
    assert_eq!(e.try_get_data_member_location(), Ok(8));
    assert_eq!(e.try_get_as_u64(DW_AT_DECL_LINE), Ok(0x1234));
    assert_eq!(e.try_get_as_u64(DW_AT_DECL_COLUMN), Ok(0x12345678));
    assert_eq!(e.try_get_as_u64(DW_AT_CALL_LINE), Ok(u64::MAX));
    assert_eq!(
        e.try_get_as_u64(DW_AT_CONST_VALUE),
        Err(failure("Could not parse attr DW_AT_const_value as u64", 10))
    );
    assert_eq!(
        e.try_get_as_u64(DW_AT_CALL_COLUMN),
        Err(failure("Could not parse attr DW_AT_call_column as u64", 10))
    );
}

#[test]
fn single_expression_is_given_once_for_each_default_range() {
    let u = unit(vec![entry(
        10,
        DW_TAG_VARIABLE,
        vec![attr(DW_AT_LOCATION, AttributeValue::Exprloc(vec![0x91, 0x78]))],
    )]);
    let defaults = vec![range(0x10, 0x20), range(0x40, 0x50)];
    let ops = vec![OperationJson::FrameOffset { offset: -8 }];
    assert_eq!(
        u.entries[0].try_get_variable_register(&u, &defaults),
        Ok(vec![
            DWARFOperationsList { operations: ops.clone(), range: range(0x10, 0x20) },
            DWARFOperationsList { operations: ops.clone(), range: range(0x40, 0x50) },
        ])
    );
}

#[test]
fn location_list_gives_one_list_for_each_entry_with_its_own_range() {
    let u = unit(vec![entry(
        10,
        DW_TAG_VARIABLE,
        vec![attr(
            DW_AT_LOCATION,
            AttributeValue::LocationList(vec![
                LocationEntry { begin: 1, end: 2, expression: vec![0x50] },
                LocationEntry { begin: 2, end: 8, expression: vec![0x91, 0x04] },
                LocationEntry { begin: 8, end: 9, expression: vec![0x10, 0x07, 0x9f] },
            ]),
        )],
    )]);
    let defaults = vec![range(0x10, 0x20), range(0x40, 0x50)];
    assert_eq!(
        u.entries[0].try_get_variable_register(&u, &defaults),
        Ok(vec![
            DWARFOperationsList {
                operations: vec![OperationJson::Register { register: 0 }],
                range: range(1, 2)
            },
            DWARFOperationsList {
                operations: vec![OperationJson::FrameOffset { offset: 4 }],
                range: range(2, 8)
            },
            DWARFOperationsList {
                operations: vec![
                    OperationJson::UnsignedConstant { value: 7 },
                    OperationJson::StackValue
                ],
                range: range(8, 9)
            },
        ])
    );
}

#[test]
fn expressions_that_cannot_be_read_are_left_out() {
    let u = unit(vec![
        entry(
            10,
            DW_TAG_VARIABLE,
            vec![attr(
                DW_AT_LOCATION,
                AttributeValue::LocationList(vec![
                    LocationEntry { begin: 1, end: 2, expression: vec![0x91] },
                    LocationEntry { begin: 2, end: 8, expression: vec![0x9f] },
                ]),
            )],
        ),
        entry(20, DW_TAG_VARIABLE, vec![attr(DW_AT_LOCATION, AttributeValue::Exprloc(vec![0x91]))]),
    ]);
    let defaults = vec![range(0x10, 0x20)];
    assert_eq!(
        u.entries[0].try_get_variable_register(&u, &defaults),
        Ok(vec![DWARFOperationsList {
            operations: vec![OperationJson::StackValue],
            range: range(2, 8)
        }])
    );
    assert_eq!(u.entries[1].try_get_variable_register(&u, &defaults), Ok(Vec::new()));
}

#[test]
fn constant_value_is_a_location_for_each_default_range() {
    let u = unit(vec![
        entry(10, DW_TAG_VARIABLE, vec![attr(DW_AT_CONST_VALUE, AttributeValue::Data1(42))]),
        entry(
            20,
            DW_TAG_VARIABLE,
            vec![
                attr(DW_AT_CONST_VALUE, AttributeValue::Udata(1)),
                attr(DW_AT_LOCATION, AttributeValue::Exprloc(vec![0x9f])),
            ],
        ),
    ]);
    let defaults = vec![range(0x10, 0x20), range(0x40, 0x50)];
    let constant = |value| vec![OperationJson::UnsignedConstant { value }];
    assert_eq!(
        u.entries[0].try_get_variable_register(&u, &defaults),
        Ok(vec![
            DWARFOperationsList { operations: constant(42), range: range(0x10, 0x20) },
            DWARFOperationsList { operations: constant(42), range: range(0x40, 0x50) },
        ])
    );
    assert_eq!(
        u.entries[1].try_get_variable_register(&u, &defaults),
        Ok(vec![
            DWARFOperationsList {
                operations: vec![OperationJson::StackValue],
                range: range(0x10, 0x20)
            },
            DWARFOperationsList {
                operations: vec![OperationJson::StackValue],
                range: range(0x40, 0x50)
            },
            DWARFOperationsList { operations: constant(1), range: range(0x10, 0x20) },
            DWARFOperationsList { operations: constant(1), range: range(0x40, 0x50) },
        ])
    );
}

#[test]
fn locations_fall_back_and_unreadable_ones_are_the_error() {
    let u = unit(vec![
        entry(10, DW_TAG_VARIABLE, vec![attr(DW_AT_ABSTRACT_ORIGIN, AttributeValue::UnitRef(20))]),
        entry(20, DW_TAG_VARIABLE, vec![attr(DW_AT_LOCATION, AttributeValue::Exprloc(vec![0x52]))]),
        entry(
            30,
            DW_TAG_VARIABLE,
            vec![
                attr(DW_AT_LOCATION, AttributeValue::Unreadable("bad location list".to_string())),
                attr(DW_AT_CONST_VALUE, AttributeValue::Udata(1)),
            ],
        ),
        entry(
            40,
            DW_TAG_VARIABLE,
            vec![
                attr(DW_AT_SPECIFICATION, AttributeValue::UnitRef(50)),
                attr(DW_AT_ABSTRACT_ORIGIN, AttributeValue::UnitRef(20)),
            ],
        ),
        entry(50, DW_TAG_VARIABLE, vec![]),
    ]);
    let defaults = vec![range(3, 4)];
    assert_eq!(
        u.entries[0].try_get_variable_register(&u, &defaults),
        Ok(vec![DWARFOperationsList {
            operations: vec![OperationJson::Register { register: 2 }],
            range: range(3, 4)
        }])
    );
    assert_eq!(
        u.entries[2].try_get_variable_register(&u, &defaults),
        Err(ParsingError::Failure("bad location list".to_string()))
    );
    // the specification has no location, so the origin is asked
    assert_eq!(
        u.entries[3].try_get_variable_register(&u, &defaults),
        Ok(vec![DWARFOperationsList {
            operations: vec![OperationJson::Register { register: 2 }],
            range: range(3, 4)
        }])
    );
    // an entry with no location anywhere has the list of no locations
    assert_eq!(u.entries[4].try_get_variable_register(&u, &defaults), Ok(Vec::new()));
    let bare = unit(vec![
        entry(10, DW_TAG_VARIABLE, vec![attr(DW_AT_SPECIFICATION, AttributeValue::UnitRef(20))]),
        entry(20, DW_TAG_VARIABLE, vec![]),
    ]);
    assert_eq!(bare.entries[0].try_get_variable_register(&bare, &defaults), Ok(Vec::new()));
}

#[test]
fn a_constant_of_the_origin_is_found_behind_an_empty_specification() {
    let u = unit(vec![
        entry(
            10,
            DW_TAG_VARIABLE,
            vec![
                attr(DW_AT_SPECIFICATION, AttributeValue::UnitRef(20)),
                attr(DW_AT_ABSTRACT_ORIGIN, AttributeValue::UnitRef(30)),
            ],
        ),
        entry(20, DW_TAG_VARIABLE, vec![attr(DW_AT_NAME, text("declared"))]),
        entry(30, DW_TAG_VARIABLE, vec![attr(DW_AT_CONST_VALUE, AttributeValue::Data2(7))]),
    ]);
    let defaults = vec![range(1, 2), range(5, 6)];
    assert_eq!(
        u.entries[0].try_get_variable_register(&u, &defaults),
        Ok(vec![
            DWARFOperationsList {
                operations: vec![OperationJson::UnsignedConstant { value: 7 }],
                range: range(1, 2)
            },
            DWARFOperationsList {
                operations: vec![OperationJson::UnsignedConstant { value: 7 }],
                range: range(5, 6)
            },
        ])
    );
    assert_eq!(u.entries[0].try_get_name(&u), Ok("declared".to_string()));
}

#[test]
fn codes_are_those_of_the_debug_format() {
    assert_eq!(DW_TAG_SUBPROGRAM, gimli::DW_TAG_subprogram.0);
    assert_eq!(DW_TAG_VARIABLE, gimli::DW_TAG_variable.0);
    assert_eq!(dwarf_jsondump::debug_entry::DW_TAG_FORMAL_PARAMETER, gimli::DW_TAG_formal_parameter.0);
    assert_eq!(dwarf_jsondump::debug_entry::DW_TAG_INLINED_SUBROUTINE, gimli::DW_TAG_inlined_subroutine.0);
    assert_eq!(dwarf_jsondump::debug_entry::DW_TAG_ARRAY_TYPE, gimli::DW_TAG_array_type.0);
    assert_eq!(dwarf_jsondump::debug_entry::DW_TAG_BASE_TYPE, gimli::DW_TAG_base_type.0);
    assert_eq!(dwarf_jsondump::debug_entry::DW_TAG_ENUMERATION_TYPE, gimli::DW_TAG_enumeration_type.0);
    assert_eq!(dwarf_jsondump::debug_entry::DW_TAG_ENUMERATOR, gimli::DW_TAG_enumerator.0);
    assert_eq!(dwarf_jsondump::debug_entry::DW_TAG_MEMBER, gimli::DW_TAG_member.0);
    assert_eq!(dwarf_jsondump::debug_entry::DW_TAG_POINTER_TYPE, gimli::DW_TAG_pointer_type.0);
    assert_eq!(dwarf_jsondump::debug_entry::DW_TAG_STRUCTURE_TYPE, gimli::DW_TAG_structure_type.0);
    assert_eq!(dwarf_jsondump::debug_entry::DW_TAG_SUBRANGE_TYPE, gimli::DW_TAG_subrange_type.0);
    assert_eq!(dwarf_jsondump::debug_entry::DW_TAG_VARIANT, gimli::DW_TAG_variant.0);
    assert_eq!(dwarf_jsondump::debug_entry::DW_TAG_VARIANT_PART, gimli::DW_TAG_variant_part.0);
    assert_eq!(DW_AT_NAME, gimli::DW_AT_name.0);
    assert_eq!(DW_AT_LOCATION, gimli::DW_AT_location.0);
    assert_eq!(DW_AT_BYTE_SIZE, gimli::DW_AT_byte_size.0);
    assert_eq!(DW_AT_LOW_PC, gimli::DW_AT_low_pc.0);
    assert_eq!(DW_AT_HIGH_PC, gimli::DW_AT_high_pc.0);
    assert_eq!(dwarf_jsondump::debug_entry::DW_AT_DISCR, gimli::DW_AT_discr.0);
    assert_eq!(dwarf_jsondump::debug_entry::DW_AT_DISCR_VALUE, gimli::DW_AT_discr_value.0);
    assert_eq!(DW_AT_CONST_VALUE, gimli::DW_AT_const_value.0);
    assert_eq!(DW_AT_ABSTRACT_ORIGIN, gimli::DW_AT_abstract_origin.0);
    assert_eq!(dwarf_jsondump::debug_entry::DW_AT_COUNT, gimli::DW_AT_count.0);
    assert_eq!(DW_AT_DATA_MEMBER_LOCATION, gimli::DW_AT_data_member_location.0);
    assert_eq!(DW_AT_DECL_COLUMN, gimli::DW_AT_decl_column.0);
    assert_eq!(DW_AT_DECL_FILE, gimli::DW_AT_decl_file.0);
    assert_eq!(DW_AT_DECL_LINE, gimli::DW_AT_decl_line.0);
    assert_eq!(dwarf_jsondump::debug_entry::DW_AT_ENCODING, gimli::DW_AT_encoding.0);
    assert_eq!(DW_AT_SPECIFICATION, gimli::DW_AT_specification.0);
    assert_eq!(DW_AT_TYPE, gimli::DW_AT_type.0);
    assert_eq!(DW_AT_RANGES, gimli::DW_AT_ranges.0);
    assert_eq!(DW_AT_CALL_COLUMN, gimli::DW_AT_call_column.0);
    assert_eq!(DW_AT_CALL_FILE, gimli::DW_AT_call_file.0);
    assert_eq!(DW_AT_CALL_LINE, gimli::DW_AT_call_line.0);
    assert_eq!(DW_AT_LINKAGE_NAME, gimli::DW_AT_linkage_name.0);
    assert_eq!(dwarf_jsondump::debug_entry::DW_ATE_BOOLEAN, gimli::DW_ATE_boolean.0);
    assert_eq!(dwarf_jsondump::debug_entry::DW_ATE_FLOAT, gimli::DW_ATE_float.0);
    assert_eq!(dwarf_jsondump::debug_entry::DW_ATE_SIGNED, gimli::DW_ATE_signed.0);
    assert_eq!(dwarf_jsondump::debug_entry::DW_ATE_UNSIGNED, gimli::DW_ATE_unsigned.0);
}

#[test]
fn the_index_gives_the_first_entry_at_an_offset() {
    let u = unit(vec![
        entry(10, DW_TAG_SUBPROGRAM, vec![attr(DW_AT_NAME, text("first"))]),
        entry(20, DW_TAG_SUBPROGRAM, vec![]),
        entry(10, DW_TAG_SUBPROGRAM, vec![attr(DW_AT_NAME, text("second"))]),
        entry(30, DW_TAG_SUBPROGRAM, vec![attr(DW_AT_SPECIFICATION, AttributeValue::UnitRef(10))]),
    ]);
    assert_eq!(u.find(10), Some(0));
    assert_eq!(u.find(20), Some(1));
    assert_eq!(u.find(30), Some(3));
    assert_eq!(u.find(11), None);
    assert_eq!(u.entries[3].try_get_name(&u), Ok("first".to_string()));
    let built = UnitData::new(64, 4, 4, false, false, None, Vec::new(), None);
    assert_eq!(built.find(0), None);
    assert!(built.index.is_empty());
}

#[test]
fn an_index_that_points_elsewhere_names_no_entry() {
    let mut u = unit(vec![
        entry(10, DW_TAG_SUBPROGRAM, vec![attr(DW_AT_SPECIFICATION, AttributeValue::UnitRef(20))]),
        entry(20, DW_TAG_SUBPROGRAM, vec![attr(DW_AT_NAME, text("declared"))]),
    ]);
    assert_eq!(u.entries[0].try_get_name(&u), Ok("declared".to_string()));
    u.index.insert(20, 0);
    assert_eq!(u.find(20), None);
    assert_eq!(u.entries[0].try_get_name(&u), Err(failure("Could not find DW_AT_name", 10)));
    u.index.insert(20, 7);
    assert_eq!(u.find(20), None);
    u.index.remove(&20);
    assert_eq!(u.find(20), None);
    u.index.insert(20, 1);
    assert_eq!(u.find(20), Some(1));
}

#[test]
fn well_formed_ranges_end_behind_their_start() {
    assert!(range(3, 3).is_well_formed());
    assert!(range(3, 4).is_well_formed());
    assert!(range(0, 0).is_well_formed());
    assert!(!range(4, 3).is_well_formed());
}
