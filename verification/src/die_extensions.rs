//! Reading a property of a debug entry: from the entry's own attributes, or
//! else from the entry that its specification or its abstract origin names.

use vstd::prelude::*;
use vstd::string::*;
use crate::debug_entry::{
    AttributeValue, DebugEntry, FileRecord, LocationEntry, TableString, UnitData,
    DW_AT_ABSTRACT_ORIGIN, DW_AT_BYTE_SIZE, DW_AT_CALL_COLUMN, DW_AT_CALL_FILE, DW_AT_CALL_LINE,
    DW_AT_CONST_VALUE, DW_AT_DATA_MEMBER_LOCATION, DW_AT_DECL_COLUMN, DW_AT_DECL_FILE,
    DW_AT_DECL_LINE, DW_AT_DISCR_VALUE, DW_AT_HIGH_PC, DW_AT_LINKAGE_NAME, DW_AT_LOCATION,
    DW_AT_LOW_PC, DW_AT_NAME, DW_AT_RANGES, DW_AT_SPECIFICATION, DW_AT_TYPE,
};
use crate::text::{decimal, decimal_text, hex_text, join_path, joined, lower_hex, starts_at_root};
use crate::types::data_structures::{
    clone_ranges, location_views, AddressRange, DWARFOperationsList, OperationsListView,
    SourceRange, SourceRangeView,
};
use crate::types::operation_types::{
    clone_operations, decode_expression, decoded, operation_views, ExpressionEncoding,
    OperationJson, OperationView,
};
use crate::types::rust_type::RustTypeId;

verus! {

/// Why something could not be read.
#[derive(Debug, PartialEq, Eq)]
pub enum ParsingError {
    Failure(String),
}

impl View for ParsingError {
    type V = Seq<char>;

    /// The message.
    open spec fn view(&self) -> Seq<char> {
        match *self {
            ParsingError::Failure(message) => message@,
        }
    }
}

impl Clone for ParsingError {
    fn clone(&self) -> (copy: Self)
        ensures
            copy@ == self@,
    {
        match self {
            ParsingError::Failure(message) => ParsingError::Failure(message.clone()),
        }
    }
}

impl ParsingError {
    /// The error in words.
    pub fn to_string(&self) -> (text: String)
        ensures
            text@ == "Parsing failed: "@ + self@,
    {
        match self {
            ParsingError::Failure(message) => String::from_str("Parsing failed: ").concat(
                message.as_str(),
            ),
        }
    }
}

/// How deep a chain of specifications and abstract origins is followed.
/// Entries that refer to one another in a circle thus end the search instead
/// of holding it for ever.
pub const MAX_REFERENCE_DEPTH: u64 = 64;

/// A message that names the entry at `offset`, in decimal and in hexadecimal.
pub open spec fn offset_error_text(msg: Seq<char>, offset: usize) -> Seq<char> {
    msg + " [DebuggingInformationEntry at offset "@ + decimal_text(offset as nat) + " (hex: "@
        + hex_text(offset as nat) + ")]"@
}

/// The error with the message `msg` about the entry at `offset`.
pub fn error_from_offset(msg: &str, offset: usize) -> (e: ParsingError)
    ensures
        e@ == offset_error_text(msg@, offset),
{
    let mut text = String::from_str(msg);
    text.append(" [DebuggingInformationEntry at offset ");
    let in_decimal = decimal(offset as u64);
    text.append(in_decimal.as_str());
    text.append(" (hex: ");
    let in_hex = lower_hex(offset as u64);
    text.append(in_hex.as_str());
    text.append(")]");
    ParsingError::Failure(text)
}

/// The error with the message `msg` about the entry `die`.
pub fn error(msg: &str, die: &DebugEntry) -> (e: ParsingError)
    ensures
        e@ == offset_error_text(msg@, die.offset),
{
    error_from_offset(msg, die.offset)
}

/// What gimli's `Display` writes for the attribute name with code `name`.
pub uninterp spec fn attribute_display(name: u16) -> Seq<char>;

/// Has gimli write the attribute name with code `name`: `Display` of
/// `gimli::DwAt`.
#[verifier::external_body]
fn attribute_name(name: u16) -> (text: String)
    ensures
        text@ == attribute_display(name),
{
    gimli::DwAt(name).to_string()
}

/// What is read of a property from an entry's own attributes.
pub ghost enum Reading<V> {
    /// The attributes give this value.
    Found(V),
    /// The attributes give none.
    Absent,
    /// The attributes cannot be read; with the message.
    Failed(Seq<char>),
}

/// What is read of a property, in executable form.
pub enum Direct<T> {
    Found(T),
    Absent,
    Failed(ParsingError),
}

/// The properties that an entry is asked for.
#[derive(Debug, Clone, Copy, PartialEq, Eq, Structural)]
pub enum Property {
    Name,
    LinkageName,
    DeclRange,
    CallSiteRange,
    AddressRanges,
    TypeId,
    Location,
}

/// The value of a property.
#[derive(Debug, PartialEq, Eq)]
pub enum PropertyValue {
    Text(String),
    Source(SourceRange),
    Ranges(Vec<AddressRange>),
    Type(RustTypeId),
    Locations(Vec<DWARFOperationsList>),
}

/// The mathematical value of a [`PropertyValue`].
pub ghost enum PropertyView {
    Text(Seq<char>),
    Source(SourceRangeView),
    Ranges(Seq<AddressRange>),
    Type(RustTypeId),
    Locations(Seq<OperationsListView>),
}

impl View for PropertyValue {
    type V = PropertyView;

    open spec fn view(&self) -> PropertyView {
        match *self {
            PropertyValue::Text(s) => PropertyView::Text(s@),
            PropertyValue::Source(s) => PropertyView::Source(s@),
            PropertyValue::Ranges(r) => PropertyView::Ranges(r@),
            PropertyValue::Type(t) => PropertyView::Type(t),
            PropertyValue::Locations(l) => PropertyView::Locations(location_views(l@)),
        }
    }
}

/// The value of what was read, in executable form.
pub open spec fn direct_view(d: Direct<PropertyValue>) -> Reading<PropertyView> {
    match d {
        Direct::Found(v) => Reading::Found(v@),
        Direct::Absent => Reading::Absent,
        Direct::Failed(e) => Reading::Failed(e@),
    }
}

/// The value of a result: of the property, or of the error's message.
pub open spec fn result_view(r: Result<PropertyValue, ParsingError>) -> Result<
    PropertyView,
    Seq<char>,
> {
    match r {
        Ok(v) => Ok(v@),
        Err(e) => Err(e@),
    }
}

/// Whether the attribute `name` is one of those that hold a plain number: a
/// line, a column, a size, a member's place, a discriminant or a constant.
pub open spec fn is_number_attribute(name: u16) -> bool {
    name == DW_AT_DECL_COLUMN || name == DW_AT_DECL_LINE || name == DW_AT_CALL_COLUMN || name
        == DW_AT_CALL_LINE || name == DW_AT_BYTE_SIZE || name == DW_AT_DATA_MEMBER_LOCATION || name
        == DW_AT_DISCR_VALUE || name == DW_AT_CONST_VALUE
}

/// The number that an attribute value holds, if it is an unsigned number.
pub open spec fn value_u64(value: AttributeValue) -> Option<u64> {
    match value {
        AttributeValue::Udata(v) => Some(v),
        AttributeValue::Data1(v) => Some(v as u64),
        AttributeValue::Data2(v) => Some(v as u64),
        AttributeValue::Data4(v) => Some(v as u64),
        AttributeValue::Data8(v) => Some(v),
        _ => None,
    }
}

/// The number that the attribute `name` of `entry` holds.
pub open spec fn attr_u64(entry: DebugEntry, name: u16) -> Option<u64> {
    match entry.attr_value(name) {
        Some(value) => value_u64(value),
        None => None,
    }
}

/// The text that the attribute `name` of `entry` holds.
pub open spec fn attr_text(entry: DebugEntry, name: u16) -> Option<Seq<char>> {
    match entry.attr_value(name) {
        Some(AttributeValue::Text(s)) => Some(s@),
        _ => None,
    }
}

/// The message for an attribute that holds no number.
pub open spec fn not_a_number_text(name: u16, offset: usize) -> Seq<char> {
    offset_error_text("Could not parse attr "@ + attribute_display(name) + " as u64"@, offset)
}

/// The file that a file index stands for in the unit's file table.
pub open spec fn file_record(unit: UnitData, index: u64) -> Option<FileRecord> {
    match unit.line_program {
        Some(program) => if index < program.files@.len() {
            program.files@[index as int]
        } else {
            None
        },
        None => None,
    }
}

/// The path of the file with the given index: the directory, put behind the
/// compilation directory unless it starts at the root or is the compilation
/// directory itself, and then the file's name. Index zero names no file up to
/// version 4 of the format; a file whose strings cannot be read has no path.
pub open spec fn file_name(unit: UnitData, index: u64) -> Option<Seq<char>> {
    if index == 0 && unit.version <= 4 {
        None
    } else {
        match file_record(unit, index) {
            Some(file) => match (file.directory, file.path_name) {
                (TableString::Missing, TableString::Text(name)) => Some(
                    joined(Seq::empty(), name@),
                ),
                (TableString::Text(dir), TableString::Text(name)) => {
                    let base = if file.directory_index != 0 && !(dir@.len() > 0 && dir@[0] == '/') {
                        match unit.comp_dir {
                            Some(c) => joined(Seq::empty(), c@),
                            None => Seq::empty(),
                        }
                    } else {
                        Seq::empty()
                    };
                    Some(joined(joined(base, dir@), name@))
                },
                _ => None,
            },
            None => None,
        }
    }
}

/// The file that the attribute `name` of `entry` names.
pub open spec fn attr_file(unit: UnitData, entry: DebugEntry, name: u16) -> Option<Seq<char>> {
    match entry.attr_value(name) {
        Some(AttributeValue::FileIndex(index)) => file_name(unit, index),
        _ => None,
    }
}

/// The source position that an entry's own attributes give: the file, the
/// line and, where there is one, the column. Line zero is an error.
pub open spec fn own_source(
    unit: UnitData,
    entry: DebugEntry,
    file: u16,
    line: u16,
    column: u16,
    zero: Seq<char>,
) -> Reading<SourceRangeView> {
    match (attr_file(unit, entry, file), attr_u64(entry, line)) {
        (Some(path), Some(l)) => if l == 0 {
            Reading::Failed(offset_error_text(zero, entry.offset))
        } else {
            Reading::Found(
                SourceRangeView { file_path: path, line: l, col: attr_u64(entry, column) },
            )
        },
        _ => Reading::Absent,
    }
}

/// Whether a range is the one that stands for no range.
pub open spec fn is_null_range(r: AddressRange) -> bool {
    r.start == 0 && r.end == 0
}

/// The ranges of a sequence without those that stand for no range.
pub open spec fn without_null(ranges: Seq<AddressRange>) -> Seq<AddressRange>
    decreases ranges.len(),
{
    if ranges.len() == 0 {
        ranges
    } else if is_null_range(ranges.last()) {
        without_null(ranges.drop_last())
    } else {
        without_null(ranges.drop_last()).push(ranges.last())
    }
}

/// The start address that an entry's own attributes give.
pub open spec fn low_pc(entry: DebugEntry) -> Option<u64> {
    match entry.attr_value(DW_AT_LOW_PC) {
        Some(AttributeValue::Addr(a)) => Some(a),
        _ => None,
    }
}

/// The end address that an entry's own attributes give: an address, or a
/// length counted from the start address. A length that leads beyond the
/// largest address gives none.
pub open spec fn high_pc(entry: DebugEntry) -> Reading<u64> {
    match entry.attr_value(DW_AT_HIGH_PC) {
        Some(AttributeValue::Udata(length)) => match low_pc(entry) {
            Some(low) => if low + length <= u64::MAX {
                Reading::Found((low + length) as u64)
            } else {
                Reading::Absent
            },
            None => Reading::Absent,
        },
        Some(AttributeValue::Addr(a)) => Reading::Found(a),
        Some(AttributeValue::Unreadable(m)) => Reading::Failed(m@),
        _ => Reading::Absent,
    }
}

/// The ranges that an entry's own attributes give before any is discarded:
/// those of its range list, then the one from its start and end address.
pub open spec fn listed_ranges(entry: DebugEntry) -> Reading<Seq<AddressRange>> {
    let listed = match entry.attr_value(DW_AT_RANGES) {
        Some(AttributeValue::RangeList(list)) => Reading::Found(list@),
        Some(AttributeValue::Unreadable(m)) => Reading::Failed(m@),
        _ => Reading::Found(Seq::empty()),
    };
    match (listed, high_pc(entry)) {
        (Reading::Found(list), Reading::Found(high)) => match low_pc(entry) {
            Some(low) => Reading::Found(list.push(AddressRange { start: low, end: high })),
            None => Reading::Found(list),
        },
        (Reading::Found(list), Reading::Absent) => Reading::Found(list),
        (Reading::Found(_), Reading::Failed(m)) => Reading::Failed(m),
        (other, _) => other,
    }
}

/// The address ranges that an entry's own attributes give: the listed ones
/// without those that stand for no range, if any is left.
pub open spec fn own_ranges(entry: DebugEntry) -> Reading<Seq<AddressRange>> {
    match listed_ranges(entry) {
        Reading::Found(all) => if without_null(all).len() > 0 {
            Reading::Found(without_null(all))
        } else {
            Reading::Absent
        },
        other => other,
    }
}

/// The type that an entry's own attributes name.
pub open spec fn own_type(unit: UnitData, entry: DebugEntry) -> Option<RustTypeId> {
    match entry.reference(DW_AT_TYPE) {
        Some(offset) => Some(RustTypeId(offset, unit.offset)),
        None => None,
    }
}

impl UnitData {
    /// How the location expressions of the unit are to be read.
    pub open spec fn encoding_spec(&self) -> ExpressionEncoding {
        ExpressionEncoding {
            address_size: self.address_size,
            dwarf64: self.dwarf64,
            version: self.version,
            big_endian: self.big_endian,
        }
    }

    /// How the location expressions of the unit are to be read.
    #[verifier::when_used_as_spec(encoding_spec)]
    pub fn encoding(&self) -> (enc: ExpressionEncoding)
        ensures
            enc == self.encoding_spec(),
    {
        ExpressionEncoding {
            address_size: self.address_size,
            dwarf64: self.dwarf64,
            version: self.version,
            big_endian: self.big_endian,
        }
    }
}

/// One operation sequence for each of `ranges`, the same for all.
pub open spec fn replicated(ops: Seq<OperationView>, ranges: Seq<AddressRange>) -> Seq<
    OperationsListView,
> {
    Seq::new(ranges.len(), |i: int| OperationsListView { operations: ops, range: ranges[i] })
}

/// The locations of a location list: for each entry whose expression can be
/// read, its operations with its own range.
pub open spec fn list_locations(entries: Seq<LocationEntry>, enc: ExpressionEncoding) -> Seq<
    OperationsListView,
>
    decreases entries.len(),
{
    if entries.len() == 0 {
        Seq::empty()
    } else {
        let last = entries.last();
        let before = list_locations(entries.drop_last(), enc);
        match decoded(last.expression@, enc) {
            Some(ops) => before.push(
                OperationsListView {
                    operations: ops,
                    range: AddressRange { start: last.begin, end: last.end },
                },
            ),
            None => before,
        }
    }
}

/// The locations that the location attribute of an entry gives: those of its
/// location list, or its one expression for each of the default ranges.
pub open spec fn attribute_locations(
    unit: UnitData,
    entry: DebugEntry,
    defaults: Seq<AddressRange>,
) -> Reading<Seq<OperationsListView>> {
    match entry.attr_value(DW_AT_LOCATION) {
        Some(AttributeValue::LocationList(list)) => Reading::Found(
            list_locations(list@, unit.encoding_spec()),
        ),
        Some(AttributeValue::Exprloc(bytes)) => match decoded(bytes@, unit.encoding_spec()) {
            Some(ops) => Reading::Found(replicated(ops, defaults)),
            None => Reading::Found(Seq::empty()),
        },
        Some(AttributeValue::Unreadable(m)) => Reading::Failed(m@),
        _ => Reading::Found(Seq::empty()),
    }
}

/// The locations that a constant value gives: the constant, for each of the
/// default ranges.
pub open spec fn constant_locations(entry: DebugEntry, defaults: Seq<AddressRange>) -> Seq<
    OperationsListView,
> {
    match attr_u64(entry, DW_AT_CONST_VALUE) {
        Some(value) => replicated(seq![OperationView::UnsignedConstant { value }], defaults),
        None => Seq::empty(),
    }
}

/// The locations that an entry's own attributes give: those of its location
/// attribute, then those of its constant value, if there is any at all.
pub open spec fn own_locations(
    unit: UnitData,
    entry: DebugEntry,
    defaults: Seq<AddressRange>,
) -> Reading<Seq<OperationsListView>> {
    match attribute_locations(unit, entry, defaults) {
        Reading::Found(locations) => {
            let all = locations + constant_locations(entry, defaults);
            if all.len() > 0 {
                Reading::Found(all)
            } else {
                Reading::Absent
            }
        },
        other => other,
    }
}

/// What an entry's own attributes give of a property.
pub open spec fn own(
    unit: UnitData,
    entry: DebugEntry,
    property: Property,
    defaults: Seq<AddressRange>,
) -> Reading<PropertyView> {
    match property {
        Property::Name => match attr_text(entry, DW_AT_NAME) {
            Some(s) => Reading::Found(PropertyView::Text(s)),
            None => Reading::Absent,
        },
        Property::LinkageName => match attr_text(entry, DW_AT_LINKAGE_NAME) {
            Some(s) => Reading::Found(PropertyView::Text(s)),
            None => Reading::Absent,
        },
        Property::DeclRange => match own_source(
            unit,
            entry,
            DW_AT_DECL_FILE,
            DW_AT_DECL_LINE,
            DW_AT_DECL_COLUMN,
            "The line numbers are 1-based, did not expect to find a 0 for a declaration range"@,
        ) {
            Reading::Found(s) => Reading::Found(PropertyView::Source(s)),
            Reading::Absent => Reading::Absent,
            Reading::Failed(m) => Reading::Failed(m),
        },
        Property::CallSiteRange => match own_source(
            unit,
            entry,
            DW_AT_CALL_FILE,
            DW_AT_CALL_LINE,
            DW_AT_CALL_COLUMN,
            "The line numbers are 1-based, did not expect to find a 0 for a call site range"@,
        ) {
            Reading::Found(s) => Reading::Found(PropertyView::Source(s)),
            Reading::Absent => Reading::Absent,
            Reading::Failed(m) => Reading::Failed(m),
        },
        Property::AddressRanges => match own_ranges(entry) {
            Reading::Found(r) => Reading::Found(PropertyView::Ranges(r)),
            Reading::Absent => Reading::Absent,
            Reading::Failed(m) => Reading::Failed(m),
        },
        Property::TypeId => match own_type(unit, entry) {
            Some(t) => Reading::Found(PropertyView::Type(t)),
            None => Reading::Absent,
        },
        Property::Location => match own_locations(unit, entry, defaults) {
            Reading::Found(l) => Reading::Found(PropertyView::Locations(l)),
            Reading::Absent => Reading::Absent,
            Reading::Failed(m) => Reading::Failed(m),
        },
    }
}

/// What is reported where neither the entry nor any entry it refers to gives
/// the property: an error that names the entry, or, for locations, that
/// there are none.
pub open spec fn nothing_found(property: Property, offset: usize) -> Result<PropertyView, Seq<char>> {
    match property {
        Property::Name => Err(offset_error_text("Could not find DW_AT_name"@, offset)),
        Property::LinkageName => Err(
            offset_error_text("Could not find DW_AT_linkage_name"@, offset),
        ),
        Property::DeclRange => Err(offset_error_text("Could not find decl range"@, offset)),
        Property::CallSiteRange => Err(
            offset_error_text("Could not get call site range"@, offset),
        ),
        Property::AddressRanges => Err(offset_error_text("Could not get ranges"@, offset)),
        Property::TypeId => Err(offset_error_text("Could not not parse DW_AT_type"@, offset)),
        Property::Location => Ok(PropertyView::Locations(Seq::empty())),
    }
}

/// Whether a property that was found says anything: every value does but a
/// list of no locations, which is what an entry without any location has.
pub open spec fn gives_something(value: PropertyView) -> bool {
    !(value matches PropertyView::Locations(locations) && locations.len() == 0)
}

/// The entry of the unit that the attribute `attr` of `entry` refers to.
pub open spec fn target(unit: UnitData, entry: DebugEntry, attr: u16) -> Option<DebugEntry> {
    match entry.reference(attr) {
        Some(offset) => match unit.position(offset) {
            Some(index) => if 0 <= index < unit.entries@.len() {
                Some(unit.entries@[index])
            } else {
                None
            },
            None => None,
        },
        None => None,
    }
}

/// What the entry that the attribute `attr` of `entry` refers to gives of a
/// property, if `entry` refers to an entry of the unit, `depth` allows
/// another step, and that entry gives anything: an error there, or a list of
/// no locations, is nothing.
pub open spec fn referred(
    unit: UnitData,
    entry: DebugEntry,
    attr: u16,
    property: Property,
    defaults: Seq<AddressRange>,
    depth: nat,
) -> Option<PropertyView>
    decreases depth, 0nat,
{
    if depth == 0 {
        None
    } else {
        match entry.reference(attr) {
            Some(offset) => match unit.position(offset) {
                Some(index) => if 0 <= index < unit.entries@.len() {
                    match resolved(
                        unit,
                        unit.entries@[index],
                        property,
                        defaults,
                        (depth - 1) as nat,
                    ) {
                        Ok(v) => if gives_something(v) {
                            Some(v)
                        } else {
                            None
                        },
                        Err(_) => None,
                    }
                } else {
                    None
                },
                None => None,
            },
            None => None,
        }
    }
}

/// The property of an entry: what its own attributes give; where they give
/// nothing, what its specification gives; where that gives nothing, what its
/// abstract origin gives; where that gives nothing either, an error that
/// names the entry, or, for locations, the list of no locations. Attributes
/// that cannot be read end the search with their error. `depth` is how many
/// references may be followed in a row.
pub open spec fn resolved(
    unit: UnitData,
    entry: DebugEntry,
    property: Property,
    defaults: Seq<AddressRange>,
    depth: nat,
) -> Result<PropertyView, Seq<char>>
    decreases depth, 1nat,
{
    match own(unit, entry, property, defaults) {
        Reading::Found(v) => Ok(v),
        Reading::Failed(m) => Err(m),
        Reading::Absent => match referred(
            unit,
            entry,
            DW_AT_SPECIFICATION,
            property,
            defaults,
            depth,
        ) {
            Some(v) => Ok(v),
            None => match referred(unit, entry, DW_AT_ABSTRACT_ORIGIN, property, defaults, depth) {
                Some(v) => Ok(v),
                None => nothing_found(property, entry.offset),
            },
        },
    }
}

/// The property of an entry, with references followed as deep as
/// [`MAX_REFERENCE_DEPTH`] allows.
pub open spec fn property_of(
    unit: UnitData,
    entry: DebugEntry,
    property: Property,
    defaults: Seq<AddressRange>,
) -> Result<PropertyView, Seq<char>> {
    resolved(unit, entry, property, defaults, MAX_REFERENCE_DEPTH as nat)
}


/// The view of a text that may be missing.
pub open spec fn text_option(text: Option<String>) -> Option<Seq<char>> {
    match text {
        Some(s) => Some(s@),
        None => None,
    }
}

fn number_attribute(entry: &DebugEntry, name: u16) -> (number: Option<u64>)
    ensures
        number == attr_u64(*entry, name),
{
    match entry.attr(name) {
        Some(AttributeValue::Udata(v)) => Some(*v),
        Some(AttributeValue::Data1(v)) => Some(*v as u64),
        Some(AttributeValue::Data2(v)) => Some(*v as u64),
        Some(AttributeValue::Data4(v)) => Some(*v as u64),
        Some(AttributeValue::Data8(v)) => Some(*v),
        _ => None,
    }
}

fn text_attribute(entry: &DebugEntry, name: u16) -> (text: Option<String>)
    ensures
        text_option(text) == attr_text(*entry, name),
{
    match entry.attr(name) {
        Some(AttributeValue::Text(s)) => Some(s.clone()),
        _ => None,
    }
}

/// The path of the file with the given index in the unit's file table.
pub fn get_file_name(unit: &UnitData, file_index: u64) -> (path: Option<String>)
    ensures
        text_option(path) == file_name(*unit, file_index),
{
    if file_index == 0 && unit.version <= 4 {
        return None;
    }
    let program = match &unit.line_program {
        Some(program) => program,
        None => { return None; },
    };
    if file_index >= program.files.len() as u64 {
        return None;
    }
    let file = match &program.files[file_index as usize] {
        Some(file) => file,
        None => { return None; },
    };
    let name = match &file.path_name {
        TableString::Text(name) => name,
        _ => { return None; },
    };
    match &file.directory {
        TableString::Missing => Some(join_path(String::new(), name.as_str())),
        TableString::Text(dir) => {
            let mut path = String::new();
            if file.directory_index != 0 && !starts_at_root(dir.as_str()) {
                if let Some(comp_dir) = &unit.comp_dir {
                    path = join_path(path, comp_dir.as_str());
                }
            }
            path = join_path(path, dir.as_str());
            Some(join_path(path, name.as_str()))
        },
        TableString::Unreadable(_) => None,
    }
}

fn try_get_as_file_name(unit: &UnitData, entry: &DebugEntry, name: u16) -> (path: Option<String>)
    ensures
        text_option(path) == attr_file(*unit, *entry, name),
{
    match entry.attr(name) {
        Some(AttributeValue::FileIndex(index)) => get_file_name(unit, *index),
        _ => None,
    }
}

fn read_source(
    unit: &UnitData,
    entry: &DebugEntry,
    file: u16,
    line: u16,
    column: u16,
    zero: &str,
) -> (r: Direct<SourceRange>)
    ensures
        match r {
            Direct::Found(s) => own_source(*unit, *entry, file, line, column, zero@)
                == Reading::Found(s@),
            Direct::Absent => own_source(*unit, *entry, file, line, column, zero@) is Absent,
            Direct::Failed(e) => own_source(*unit, *entry, file, line, column, zero@)
                == Reading::<SourceRangeView>::Failed(e@),
        },
{
    let path = try_get_as_file_name(unit, entry, file);
    let line_number = number_attribute(entry, line);
    let col = number_attribute(entry, column);
    match (path, line_number) {
        (Some(file_path), Some(l)) => {
            if l == 0 {
                Direct::Failed(error(zero, entry))
            } else {
                Direct::Found(SourceRange { file_path, line: l, col })
            }
        },
        _ => Direct::Absent,
    }
}

/// Copies the ranges of a list but those that stand for no range.
pub fn discard_null(ranges: &Vec<AddressRange>) -> (kept: Vec<AddressRange>)
    ensures
        kept@ == without_null(ranges@),
{
    let mut kept: Vec<AddressRange> = Vec::new();
    let mut i: usize = 0;
    while i < ranges.len()
        invariant
            i <= ranges.len(),
            kept@ == without_null(ranges@.subrange(0, i as int)),
        decreases ranges.len() - i,
    {
        proof {
            assert(ranges@.subrange(0, i + 1).drop_last() =~= ranges@.subrange(0, i as int));
        }
        if !(ranges[i].start == 0 && ranges[i].end == 0) {
            kept.push(ranges[i]);
        }
        i += 1;
    }
    proof {
        assert(ranges@.subrange(0, ranges.len() as int) =~= ranges@);
    }
    kept
}

fn read_ranges(entry: &DebugEntry) -> (r: Direct<Vec<AddressRange>>)
    ensures
        match r {
            Direct::Found(v) => own_ranges(*entry) == Reading::Found(v@),
            Direct::Absent => own_ranges(*entry) is Absent,
            Direct::Failed(e) => own_ranges(*entry) == Reading::<Seq<AddressRange>>::Failed(e@),
        },
{
    let mut ranges: Vec<AddressRange> = Vec::new();
    match entry.attr(DW_AT_RANGES) {
        Some(AttributeValue::RangeList(list)) => {
            ranges = clone_ranges(list);
        },
        Some(AttributeValue::Unreadable(m)) => {
            return Direct::Failed(ParsingError::Failure(m.clone()));
        },
        _ => {},
    }
    let low: Option<u64> = match entry.attr(DW_AT_LOW_PC) {
        Some(AttributeValue::Addr(a)) => Some(*a),
        _ => None,
    };
    let mut high: Option<u64> = None;
    match entry.attr(DW_AT_HIGH_PC) {
        Some(AttributeValue::Udata(length)) => {
            if let Some(l) = low {
                if *length <= u64::MAX - l {
                    high = Some(l + *length);
                }
            }
        },
        Some(AttributeValue::Addr(a)) => {
            high = Some(*a);
        },
        Some(AttributeValue::Unreadable(m)) => {
            return Direct::Failed(ParsingError::Failure(m.clone()));
        },
        _ => {},
    }
    if let (Some(l), Some(h)) = (low, high) {
        ranges.push(AddressRange { start: l, end: h });
    }
    let kept = discard_null(&ranges);
    if kept.len() > 0 {
        Direct::Found(kept)
    } else {
        Direct::Absent
    }
}

fn read_type(unit: &UnitData, entry: &DebugEntry) -> (id: Option<RustTypeId>)
    ensures
        id == own_type(*unit, *entry),
{
    match entry.attr_reference(DW_AT_TYPE) {
        Some(offset) => Some(RustTypeId(offset, unit.offset)),
        None => None,
    }
}

fn replicate(
    ops: &Vec<OperationJson>,
    ranges: &Vec<AddressRange>,
    into: &mut Vec<DWARFOperationsList>,
)
    ensures
        location_views(final(into)@) == location_views(old(into)@) + replicated(
            operation_views(ops@),
            ranges@,
        ),
{
    let mut i: usize = 0;
    proof {
        assert(location_views(into@) =~= location_views(old(into)@) + replicated(
            operation_views(ops@),
            ranges@,
        ).subrange(0, 0));
    }
    while i < ranges.len()
        invariant
            i <= ranges.len(),
            location_views(into@) == location_views(old(into)@) + replicated(
                operation_views(ops@),
                ranges@,
            ).subrange(0, i as int),
        decreases ranges.len() - i,
    {
        let list = DWARFOperationsList { operations: clone_operations(ops), range: ranges[i] };
        proof {
            let all = replicated(operation_views(ops@), ranges@);
            assert(list@ == all[i as int]);
            assert(location_views(into@.push(list)) =~= location_views(into@).push(list@));
            assert(all.subrange(0, i + 1) =~= all.subrange(0, i as int).push(all[i as int]));
            assert(location_views(into@.push(list)) =~= location_views(old(into)@) + all.subrange(
                0,
                i + 1,
            ));
        }
        into.push(list);
        i += 1;
    }
    proof {
        let all = replicated(operation_views(ops@), ranges@);
        assert(all.subrange(0, ranges.len() as int) =~= all);
    }
}

fn read_list_locations(list: &Vec<LocationEntry>, enc: ExpressionEncoding) -> (locations: Vec<
    DWARFOperationsList,
>)
    ensures
        location_views(locations@) == list_locations(list@, enc),
{
    let mut locations: Vec<DWARFOperationsList> = Vec::new();
    let mut i: usize = 0;
    proof {
        assert(location_views(locations@) =~= list_locations(list@.subrange(0, 0), enc));
    }
    while i < list.len()
        invariant
            i <= list.len(),
            location_views(locations@) == list_locations(list@.subrange(0, i as int), enc),
        decreases list.len() - i,
    {
        proof {
            assert(list@.subrange(0, i + 1).drop_last() =~= list@.subrange(0, i as int));
        }
        if let Some(operations) = decode_expression(&list[i].expression, enc) {
            let item = DWARFOperationsList {
                operations,
                range: AddressRange { start: list[i].begin, end: list[i].end },
            };
            proof {
                assert(location_views(locations@.push(item)) =~= location_views(locations@).push(
                    item@,
                ));
            }
            locations.push(item);
        }
        i += 1;
    }
    proof {
        assert(list@.subrange(0, list.len() as int) =~= list@);
    }
    locations
}

fn read_locations(unit: &UnitData, entry: &DebugEntry, defaults: &Vec<AddressRange>) -> (r: Direct<
    Vec<DWARFOperationsList>,
>)
    ensures
        match r {
            Direct::Found(v) => own_locations(*unit, *entry, defaults@) == Reading::Found(
                location_views(v@),
            ),
            Direct::Absent => own_locations(*unit, *entry, defaults@) is Absent,
            Direct::Failed(e) => own_locations(*unit, *entry, defaults@) == Reading::<
                Seq<OperationsListView>,
            >::Failed(e@),
        },
{
    let mut locations: Vec<DWARFOperationsList> = Vec::new();
    proof {
        assert(location_views(locations@) =~= Seq::empty());
    }
    match entry.attr(DW_AT_LOCATION) {
        Some(AttributeValue::LocationList(list)) => {
            locations = read_list_locations(list, unit.encoding());
        },
        Some(AttributeValue::Exprloc(bytes)) => {
            if let Some(ops) = decode_expression(bytes, unit.encoding()) {
                replicate(&ops, defaults, &mut locations);
                proof {
                    assert(location_views(locations@) =~= replicated(
                        operation_views(ops@),
                        defaults@,
                    ));
                }
            }
        },
        Some(AttributeValue::Unreadable(m)) => {
            return Direct::Failed(ParsingError::Failure(m.clone()));
        },
        _ => {},
    }
    if let Some(value) = number_attribute(entry, DW_AT_CONST_VALUE) {
        let mut ops: Vec<OperationJson> = Vec::new();
        ops.push(OperationJson::UnsignedConstant { value });
        proof {
            assert(operation_views(ops@) =~= seq![OperationView::UnsignedConstant { value }]);
        }
        replicate(&ops, defaults, &mut locations);
    } else {
        proof {
            assert(location_views(locations@) + Seq::<OperationsListView>::empty()
                =~= location_views(locations@));
        }
    }
    if locations.len() > 0 {
        Direct::Found(locations)
    } else {
        Direct::Absent
    }
}

fn read_own(
    unit: &UnitData,
    entry: &DebugEntry,
    property: Property,
    defaults: &Vec<AddressRange>,
) -> (r: Direct<PropertyValue>)
    ensures
        direct_view(r) == own(*unit, *entry, property, defaults@),
{
    match property {
        Property::Name => match text_attribute(entry, DW_AT_NAME) {
            Some(s) => Direct::Found(PropertyValue::Text(s)),
            None => Direct::Absent,
        },
        Property::LinkageName => match text_attribute(entry, DW_AT_LINKAGE_NAME) {
            Some(s) => Direct::Found(PropertyValue::Text(s)),
            None => Direct::Absent,
        },
        Property::DeclRange => match read_source(
            unit,
            entry,
            DW_AT_DECL_FILE,
            DW_AT_DECL_LINE,
            DW_AT_DECL_COLUMN,
            "The line numbers are 1-based, did not expect to find a 0 for a declaration range",
        ) {
            Direct::Found(s) => Direct::Found(PropertyValue::Source(s)),
            Direct::Absent => Direct::Absent,
            Direct::Failed(e) => Direct::Failed(e),
        },
        Property::CallSiteRange => match read_source(
            unit,
            entry,
            DW_AT_CALL_FILE,
            DW_AT_CALL_LINE,
            DW_AT_CALL_COLUMN,
            "The line numbers are 1-based, did not expect to find a 0 for a call site range",
        ) {
            Direct::Found(s) => Direct::Found(PropertyValue::Source(s)),
            Direct::Absent => Direct::Absent,
            Direct::Failed(e) => Direct::Failed(e),
        },
        Property::AddressRanges => match read_ranges(entry) {
            Direct::Found(r) => Direct::Found(PropertyValue::Ranges(r)),
            Direct::Absent => Direct::Absent,
            Direct::Failed(e) => Direct::Failed(e),
        },
        Property::TypeId => match read_type(unit, entry) {
            Some(t) => Direct::Found(PropertyValue::Type(t)),
            None => Direct::Absent,
        },
        Property::Location => match read_locations(unit, entry, defaults) {
            Direct::Found(l) => Direct::Found(PropertyValue::Locations(l)),
            Direct::Absent => Direct::Absent,
            Direct::Failed(e) => Direct::Failed(e),
        },
    }
}

fn report_nothing(property: Property, entry: &DebugEntry) -> (r: Result<PropertyValue, ParsingError>)
    ensures
        result_view(r) == nothing_found(property, entry.offset),
{
    match property {
        Property::Name => Err(error("Could not find DW_AT_name", entry)),
        Property::LinkageName => Err(error("Could not find DW_AT_linkage_name", entry)),
        Property::DeclRange => Err(error("Could not find decl range", entry)),
        Property::CallSiteRange => Err(error("Could not get call site range", entry)),
        Property::AddressRanges => Err(error("Could not get ranges", entry)),
        Property::TypeId => Err(error("Could not not parse DW_AT_type", entry)),
        Property::Location => {
            let none: Vec<DWARFOperationsList> = Vec::new();
            proof {
                assert(location_views(none@) =~= Seq::empty());
            }
            Ok(PropertyValue::Locations(none))
        },
    }
}

fn follow(
    unit: &UnitData,
    entry: &DebugEntry,
    attr: u16,
    property: Property,
    defaults: &Vec<AddressRange>,
    depth: u64,
) -> (r: Option<PropertyValue>)
    ensures
        match r {
            Some(v) => referred(*unit, *entry, attr, property, defaults@, depth as nat) == Some(v@),
            None => referred(*unit, *entry, attr, property, defaults@, depth as nat) is None,
        },
    decreases depth, 0nat,
{
    if depth == 0 {
        return None;
    }
    let offset = match entry.attr_reference(attr) {
        Some(offset) => offset,
        None => { return None; },
    };
    let index = match unit.find(offset) {
        Some(index) => index,
        None => { return None; },
    };
    match resolve(unit, &unit.entries[index], property, defaults, depth - 1) {
        Ok(v) => {
            let empty = match &v {
                PropertyValue::Locations(locations) => locations.len() == 0,
                _ => false,
            };
            if empty {
                None
            } else {
                Some(v)
            }
        },
        Err(_) => None,
    }
}

/// Reads a property of an entry: from its own attributes, else from its
/// specification, else from its abstract origin, following at most `depth`
/// references in a row.
pub fn resolve(
    unit: &UnitData,
    entry: &DebugEntry,
    property: Property,
    defaults: &Vec<AddressRange>,
    depth: u64,
) -> (r: Result<PropertyValue, ParsingError>)
    ensures
        result_view(r) == resolved(*unit, *entry, property, defaults@, depth as nat),
    decreases depth, 1nat,
{
    match read_own(unit, entry, property, defaults) {
        Direct::Found(v) => Ok(v),
        Direct::Failed(e) => Err(e),
        Direct::Absent => {
            if let Some(v) = follow(unit, entry, DW_AT_SPECIFICATION, property, defaults, depth) {
                return Ok(v);
            }
            if let Some(v) = follow(unit, entry, DW_AT_ABSTRACT_ORIGIN, property, defaults, depth) {
                return Ok(v);
            }
            report_nothing(property, entry)
        },
    }
}


/// Whether a value is of the kind that the property has.
pub open spec fn kind_matches(property: Property, value: PropertyView) -> bool {
    match property {
        Property::Name | Property::LinkageName => value is Text,
        Property::DeclRange | Property::CallSiteRange => value is Source,
        Property::AddressRanges => value is Ranges,
        Property::TypeId => value is Type,
        Property::Location => value is Locations,
    }
}

/// A property that is found has a value of its kind.
pub proof fn lemma_resolved_kind(
    unit: UnitData,
    entry: DebugEntry,
    property: Property,
    defaults: Seq<AddressRange>,
    depth: nat,
)
    ensures
        resolved(unit, entry, property, defaults, depth) matches Ok(v) ==> kind_matches(
            property,
            v,
        ),
    decreases depth, 1nat,
{
    if own(unit, entry, property, defaults) is Absent && depth > 0 {
        lemma_referred_kind(unit, entry, DW_AT_SPECIFICATION, property, defaults, depth);
        lemma_referred_kind(unit, entry, DW_AT_ABSTRACT_ORIGIN, property, defaults, depth);
    }
}

proof fn lemma_referred_kind(
    unit: UnitData,
    entry: DebugEntry,
    attr: u16,
    property: Property,
    defaults: Seq<AddressRange>,
    depth: nat,
)
    requires
        depth > 0,
    ensures
        referred(unit, entry, attr, property, defaults, depth) matches Some(v) ==> kind_matches(
            property,
            v,
        ),
    decreases depth, 0nat,
{
    if let Some(offset) = entry.reference(attr) {
        if let Some(index) = unit.position(offset) {
            if 0 <= index < unit.entries@.len() {
                lemma_resolved_kind(
                    unit,
                    unit.entries@[index],
                    property,
                    defaults,
                    (depth - 1) as nat,
                );
            }
        }
    }
}

/// The text of a property that is a text.
pub open spec fn text_of(unit: UnitData, entry: DebugEntry, property: Property) -> Result<
    Seq<char>,
    Seq<char>,
> {
    match property_of(unit, entry, property, Seq::empty()) {
        Ok(PropertyView::Text(s)) => Ok(s),
        Ok(_) => Err(Seq::empty()),
        Err(m) => Err(m),
    }
}

/// The source position of a property that is one.
pub open spec fn source_of(unit: UnitData, entry: DebugEntry, property: Property) -> Result<
    SourceRangeView,
    Seq<char>,
> {
    match property_of(unit, entry, property, Seq::empty()) {
        Ok(PropertyView::Source(s)) => Ok(s),
        Ok(_) => Err(Seq::empty()),
        Err(m) => Err(m),
    }
}

/// The address ranges of an entry.
pub open spec fn ranges_of(unit: UnitData, entry: DebugEntry) -> Result<
    Seq<AddressRange>,
    Seq<char>,
> {
    match property_of(unit, entry, Property::AddressRanges, Seq::empty()) {
        Ok(PropertyView::Ranges(r)) => Ok(r),
        Ok(_) => Err(Seq::empty()),
        Err(m) => Err(m),
    }
}

/// The type of an entry.
pub open spec fn type_of(unit: UnitData, entry: DebugEntry) -> Result<RustTypeId, Seq<char>> {
    match property_of(unit, entry, Property::TypeId, Seq::empty()) {
        Ok(PropertyView::Type(t)) => Ok(t),
        Ok(_) => Err(Seq::empty()),
        Err(m) => Err(m),
    }
}

/// The locations of an entry; `defaults` are the ranges that a location
/// without a range of its own applies in.
pub open spec fn locations_of(unit: UnitData, entry: DebugEntry, defaults: Seq<AddressRange>) -> Result<
    Seq<OperationsListView>,
    Seq<char>,
> {
    match property_of(unit, entry, Property::Location, defaults) {
        Ok(PropertyView::Locations(l)) => Ok(l),
        Ok(_) => Err(Seq::empty()),
        Err(m) => Err(m),
    }
}

/// The number of an attribute, or the error that the attribute holds none.
pub open spec fn number_of(entry: DebugEntry, name: u16) -> Result<u64, Seq<char>> {
    match attr_u64(entry, name) {
        Some(v) => Ok(v),
        None => Err(not_a_number_text(name, entry.offset)),
    }
}

/// The value of a result that is a text.
pub open spec fn text_result(r: Result<String, ParsingError>) -> Result<Seq<char>, Seq<char>> {
    match r {
        Ok(s) => Ok(s@),
        Err(e) => Err(e@),
    }
}

/// The value of a result that is a source position.
pub open spec fn source_result(r: Result<SourceRange, ParsingError>) -> Result<
    SourceRangeView,
    Seq<char>,
> {
    match r {
        Ok(s) => Ok(s@),
        Err(e) => Err(e@),
    }
}

/// The value of a result that is a list of address ranges.
pub open spec fn ranges_result(r: Result<Vec<AddressRange>, ParsingError>) -> Result<
    Seq<AddressRange>,
    Seq<char>,
> {
    match r {
        Ok(v) => Ok(v@),
        Err(e) => Err(e@),
    }
}

/// The value of a result that is a type.
pub open spec fn type_result(r: Result<RustTypeId, ParsingError>) -> Result<RustTypeId, Seq<char>> {
    match r {
        Ok(t) => Ok(t),
        Err(e) => Err(e@),
    }
}

/// The value of a result that is a number.
pub open spec fn number_result(r: Result<u64, ParsingError>) -> Result<u64, Seq<char>> {
    match r {
        Ok(v) => Ok(v),
        Err(e) => Err(e@),
    }
}

/// The value of a result that is a list of locations.
pub open spec fn locations_result(r: Result<Vec<DWARFOperationsList>, ParsingError>) -> Result<
    Seq<OperationsListView>,
    Seq<char>,
> {
    match r {
        Ok(l) => Ok(location_views(l@)),
        Err(e) => Err(e@),
    }
}

fn no_ranges() -> (none: Vec<AddressRange>)
    ensures
        none@ == Seq::<AddressRange>::empty(),
{
    Vec::new()
}

/// What can be asked of a debug entry. Each answer is looked for in the
/// entry's own attributes first, then in its specification, then in its
/// abstract origin.
pub trait DebugEntryExt {
    /// The name of the entry.
    fn try_get_name(&self, unit: &UnitData) -> Result<String, ParsingError>;

    /// The name of the entry that the linker sees.
    fn try_get_linkage_name(&self, unit: &UnitData) -> Result<String, ParsingError>;

    /// Where the entry is declared in the source.
    fn try_get_decl_range(&self, unit: &UnitData) -> Result<SourceRange, ParsingError>;

    /// Where the call that the entry stands for is in the source.
    fn try_get_call_site_range(&self, unit: &UnitData) -> Result<SourceRange, ParsingError>;

    /// The address ranges of the entry.
    fn try_get_address_ranges(&self, unit: &UnitData) -> Result<Vec<AddressRange>, ParsingError>;

    /// Where the variable that the entry stands for lives.
    fn try_get_variable_register(
        &self,
        unit: &UnitData,
        default_address_range: &Vec<AddressRange>,
    ) -> Result<Vec<DWARFOperationsList>, ParsingError>;

    /// The byte offset of the member that the entry stands for.
    fn try_get_data_member_location(&self) -> Result<u64, ParsingError>;

    /// The size in bytes of the type that the entry stands for.
    fn try_get_byte_size(&self) -> Result<u64, ParsingError>;

    /// The type of the entry.
    fn try_get_type_id(&self, unit: &UnitData) -> Result<RustTypeId, ParsingError>;

    /// The number that the attribute `u64_attr` holds.
    fn try_get_as_u64(&self, u64_attr: u16) -> Result<u64, ParsingError>
        requires
            is_number_attribute(u64_attr),
    ;
}

impl DebugEntryExt for DebugEntry {
    /// The name of the entry.
    fn try_get_name(&self, unit: &UnitData) -> (r: Result<String, ParsingError>)
        ensures
            text_result(r) == text_of(*unit, *self, Property::Name),
    {
        proof {
            lemma_resolved_kind(
                *unit,
                *self,
                Property::Name,
                Seq::empty(),
                MAX_REFERENCE_DEPTH as nat,
            );
        }
        match resolve(unit, self, Property::Name, &no_ranges(), MAX_REFERENCE_DEPTH) {
            Ok(PropertyValue::Text(s)) => Ok(s),
            Ok(_) => Err(ParsingError::Failure(String::new())),
            Err(e) => Err(e),
        }
    }

    /// The name of the entry that the linker sees.
    fn try_get_linkage_name(&self, unit: &UnitData) -> (r: Result<String, ParsingError>)
        ensures
            text_result(r) == text_of(*unit, *self, Property::LinkageName),
    {
        proof {
            lemma_resolved_kind(
                *unit,
                *self,
                Property::LinkageName,
                Seq::empty(),
                MAX_REFERENCE_DEPTH as nat,
            );
        }
        match resolve(unit, self, Property::LinkageName, &no_ranges(), MAX_REFERENCE_DEPTH) {
            Ok(PropertyValue::Text(s)) => Ok(s),
            Ok(_) => Err(ParsingError::Failure(String::new())),
            Err(e) => Err(e),
        }
    }

    /// Where the entry is declared in the source.
    fn try_get_decl_range(&self, unit: &UnitData) -> (r: Result<SourceRange, ParsingError>)
        ensures
            source_result(r) == source_of(*unit, *self, Property::DeclRange),
    {
        proof {
            lemma_resolved_kind(
                *unit,
                *self,
                Property::DeclRange,
                Seq::empty(),
                MAX_REFERENCE_DEPTH as nat,
            );
        }
        match resolve(unit, self, Property::DeclRange, &no_ranges(), MAX_REFERENCE_DEPTH) {
            Ok(PropertyValue::Source(s)) => Ok(s),
            Ok(_) => Err(ParsingError::Failure(String::new())),
            Err(e) => Err(e),
        }
    }

    /// Where the call that the entry stands for is in the source.
    fn try_get_call_site_range(&self, unit: &UnitData) -> (r: Result<
        SourceRange,
        ParsingError,
    >)
        ensures
            source_result(r) == source_of(*unit, *self, Property::CallSiteRange),
    {
        proof {
            lemma_resolved_kind(
                *unit,
                *self,
                Property::CallSiteRange,
                Seq::empty(),
                MAX_REFERENCE_DEPTH as nat,
            );
        }
        match resolve(unit, self, Property::CallSiteRange, &no_ranges(), MAX_REFERENCE_DEPTH) {
            Ok(PropertyValue::Source(s)) => Ok(s),
            Ok(_) => Err(ParsingError::Failure(String::new())),
            Err(e) => Err(e),
        }
    }

    /// The address ranges of the entry: at least one, and none that stands
    /// for no range.
    fn try_get_address_ranges(&self, unit: &UnitData) -> (r: Result<
        Vec<AddressRange>,
        ParsingError,
    >)
        ensures
            ranges_result(r) == ranges_of(*unit, *self),
            r matches Ok(ranges) ==> ranges@.len() > 0 && forall|i: int|
                0 <= i < ranges@.len() ==> !is_null_range(#[trigger] ranges@[i]),
    {
        proof {
            lemma_resolved_kind(
                *unit,
                *self,
                Property::AddressRanges,
                Seq::empty(),
                MAX_REFERENCE_DEPTH as nat,
            );
            lemma_ranges_present(*unit, *self, MAX_REFERENCE_DEPTH as nat);
        }
        match resolve(unit, self, Property::AddressRanges, &no_ranges(), MAX_REFERENCE_DEPTH) {
            Ok(PropertyValue::Ranges(ranges)) => Ok(ranges),
            Ok(_) => Err(ParsingError::Failure(String::new())),
            Err(e) => Err(e),
        }
    }

    /// Where the variable that the entry stands for lives. A location
    /// without a range of its own is given once for each of
    /// `default_address_range`.
    fn try_get_variable_register(
        &self,
        unit: &UnitData,
        default_address_range: &Vec<AddressRange>,
    ) -> (r: Result<Vec<DWARFOperationsList>, ParsingError>)
        ensures
            locations_result(r) == locations_of(*unit, *self, default_address_range@),
    {
        proof {
            lemma_resolved_kind(
                *unit,
                *self,
                Property::Location,
                default_address_range@,
                MAX_REFERENCE_DEPTH as nat,
            );
        }
        match resolve(unit, self, Property::Location, default_address_range, MAX_REFERENCE_DEPTH) {
            Ok(PropertyValue::Locations(locations)) => Ok(locations),
            Ok(_) => Err(ParsingError::Failure(String::new())),
            Err(e) => Err(e),
        }
    }

    /// The byte offset of the member that the entry stands for.
    fn try_get_data_member_location(&self) -> (r: Result<u64, ParsingError>)
        ensures
            number_result(r) == number_of(*self, DW_AT_DATA_MEMBER_LOCATION),
    {
        self.try_get_as_u64(DW_AT_DATA_MEMBER_LOCATION)
    }

    /// The size in bytes of the type that the entry stands for.
    fn try_get_byte_size(&self) -> (r: Result<u64, ParsingError>)
        ensures
            number_result(r) == number_of(*self, DW_AT_BYTE_SIZE),
    {
        self.try_get_as_u64(DW_AT_BYTE_SIZE)
    }

    /// The type of the entry.
    fn try_get_type_id(&self, unit: &UnitData) -> (r: Result<RustTypeId, ParsingError>)
        ensures
            type_result(r) == type_of(*unit, *self),
    {
        proof {
            lemma_resolved_kind(
                *unit,
                *self,
                Property::TypeId,
                Seq::empty(),
                MAX_REFERENCE_DEPTH as nat,
            );
        }
        match resolve(unit, self, Property::TypeId, &no_ranges(), MAX_REFERENCE_DEPTH) {
            Ok(PropertyValue::Type(id)) => Ok(id),
            Ok(_) => Err(ParsingError::Failure(String::new())),
            Err(e) => Err(e),
        }
    }

    /// The number that the attribute `u64_attr` holds.
    fn try_get_as_u64(&self, u64_attr: u16) -> (r: Result<u64, ParsingError>)
        ensures
            number_result(r) == number_of(*self, u64_attr),
    {
        match number_attribute(self, u64_attr) {
            Some(v) => Ok(v),
            None => {
                let mut msg = String::from_str("Could not parse attr ");
                let name = attribute_name(u64_attr);
                msg.append(name.as_str());
                msg.append(" as u64");
                Err(error(msg.as_str(), self))
            },
        }
    }
}

/// Ranges from which those that stand for no range were taken hold none of
/// them.
pub proof fn lemma_without_null(ranges: Seq<AddressRange>)
    ensures
        forall|i: int|
            0 <= i < without_null(ranges).len() ==> !is_null_range(
                #[trigger] without_null(ranges)[i],
            ),
    decreases ranges.len(),
{
    if ranges.len() > 0 {
        lemma_without_null(ranges.drop_last());
        let kept = without_null(ranges);
        let before = without_null(ranges.drop_last());
        assert forall|i: int| 0 <= i < kept.len() implies !is_null_range(#[trigger] kept[i]) by {
            if i < before.len() {
                assert(kept[i] == before[i]);
            }
        }
    }
}

/// The range that stands for no range is always discarded, and address
/// ranges that are found are never an empty list: whatever an entry refers
/// to, the ranges reported for it are at least one and none of them is the
/// null range.
pub proof fn lemma_ranges_present(unit: UnitData, entry: DebugEntry, depth: nat)
    ensures
        resolved(unit, entry, Property::AddressRanges, Seq::empty(), depth) matches Ok(
            PropertyView::Ranges(ranges),
        ) ==> ranges.len() > 0 && forall|i: int|
            0 <= i < ranges.len() ==> !is_null_range(#[trigger] ranges[i]),
    decreases depth, 1nat,
{
    let defaults = Seq::<AddressRange>::empty();
    match own(unit, entry, Property::AddressRanges, defaults) {
        Reading::Found(_) => {
            lemma_without_null(listed_ranges(entry)->Found_0);
        },
        Reading::Failed(_) => {},
        Reading::Absent => {
            if depth > 0 {
                lemma_referred_ranges(unit, entry, DW_AT_SPECIFICATION, depth);
                lemma_referred_ranges(unit, entry, DW_AT_ABSTRACT_ORIGIN, depth);
            }
        },
    }
}

proof fn lemma_referred_ranges(unit: UnitData, entry: DebugEntry, attr: u16, depth: nat)
    requires
        depth > 0,
    ensures
        referred(unit, entry, attr, Property::AddressRanges, Seq::empty(), depth) matches Some(
            PropertyView::Ranges(ranges),
        ) ==> ranges.len() > 0 && forall|i: int|
            0 <= i < ranges.len() ==> !is_null_range(#[trigger] ranges[i]),
    decreases depth, 0nat,
{
    if let Some(offset) = entry.reference(attr) {
        if let Some(index) = unit.position(offset) {
            if 0 <= index < unit.entries@.len() {
                lemma_ranges_present(unit, unit.entries@[index], (depth - 1) as nat);
            }
        }
    }
}

/// Whether the search for a property from `entry` on comes to its end
/// without following more than `depth` references in a row: the entry's own
/// attributes answer, or each entry that it refers to is searched with one
/// step less. Entries that refer to one another in a circle never are.
pub open spec fn unhindered(
    unit: UnitData,
    entry: DebugEntry,
    property: Property,
    defaults: Seq<AddressRange>,
    depth: nat,
) -> bool
    decreases depth,
{
    own(unit, entry, property, defaults) !is Absent || ((target(
        unit,
        entry,
        DW_AT_SPECIFICATION,
    ) matches Some(next) ==> depth > 0 && unhindered(
        unit,
        next,
        property,
        defaults,
        (depth - 1) as nat,
    )) && (target(unit, entry, DW_AT_ABSTRACT_ORIGIN) matches Some(next) ==> depth > 0
        && unhindered(unit, next, property, defaults, (depth - 1) as nat)))
}

/// A search that comes to its end within `depth` references gives the same
/// with every greater depth: a chain of references shorter than the bound is
/// read in full.
pub proof fn lemma_unhindered_stable(
    unit: UnitData,
    entry: DebugEntry,
    property: Property,
    defaults: Seq<AddressRange>,
    depth: nat,
    more: nat,
)
    requires
        unhindered(unit, entry, property, defaults, depth),
        depth <= more,
    ensures
        resolved(unit, entry, property, defaults, more) == resolved(
            unit,
            entry,
            property,
            defaults,
            depth,
        ),
        unhindered(unit, entry, property, defaults, more),
    decreases depth,
{
    if own(unit, entry, property, defaults) is Absent {
        if let Some(next) = target(unit, entry, DW_AT_SPECIFICATION) {
            lemma_unhindered_stable(
                unit,
                next,
                property,
                defaults,
                (depth - 1) as nat,
                (more - 1) as nat,
            );
        }
        if let Some(next) = target(unit, entry, DW_AT_ABSTRACT_ORIGIN) {
            lemma_unhindered_stable(
                unit,
                next,
                property,
                defaults,
                (depth - 1) as nat,
                (more - 1) as nat,
            );
        }
    }
}

/// What an entry that `entry` refers to gives, asked as deep as `entry`
/// itself: what it resolves to, unless that is an error or says nothing.
pub open spec fn answer_of(
    unit: UnitData,
    next: Option<DebugEntry>,
    property: Property,
    defaults: Seq<AddressRange>,
    depth: nat,
) -> Option<PropertyView> {
    match next {
        Some(e) => match resolved(unit, e, property, defaults, depth) {
            Ok(v) => if gives_something(v) {
                Some(v)
            } else {
                None
            },
            Err(_) => None,
        },
        None => None,
    }
}

/// The order of the search: where an entry's own attributes give nothing
/// of a property, the property is what its specification resolves to; where
/// that is an error or nothing, what its abstract origin resolves to; and
/// where that is an error or nothing too, the error that names the entry
/// itself, or, for locations, the list of no locations. This holds of every
/// search that comes to its end within the depth.
pub proof fn lemma_fallback_order(
    unit: UnitData,
    entry: DebugEntry,
    property: Property,
    defaults: Seq<AddressRange>,
    depth: nat,
)
    requires
        own(unit, entry, property, defaults) is Absent,
        unhindered(unit, entry, property, defaults, depth),
    ensures
        resolved(unit, entry, property, defaults, depth) == match answer_of(
            unit,
            target(unit, entry, DW_AT_SPECIFICATION),
            property,
            defaults,
            depth,
        ) {
            Some(v) => Ok(v),
            None => match answer_of(
                unit,
                target(unit, entry, DW_AT_ABSTRACT_ORIGIN),
                property,
                defaults,
                depth,
            ) {
                Some(v) => Ok(v),
                None => nothing_found(property, entry.offset),
            },
        },
{
    if let Some(next) = target(unit, entry, DW_AT_SPECIFICATION) {
        lemma_unhindered_stable(unit, next, property, defaults, (depth - 1) as nat, depth);
    }
    if let Some(next) = target(unit, entry, DW_AT_ABSTRACT_ORIGIN) {
        lemma_unhindered_stable(unit, next, property, defaults, (depth - 1) as nat, depth);
    }
}

/// The text of a property of an entry that `entry` may refer to.
pub open spec fn text_of_target(
    unit: UnitData,
    next: Option<DebugEntry>,
    property: Property,
) -> Option<Seq<char>> {
    match next {
        Some(e) => match text_of(unit, e, property) {
            Ok(s) => Some(s),
            Err(_) => None,
        },
        None => None,
    }
}

/// The name of an entry without a name of its own is the name of its
/// specification; where that has none, the name of its abstract origin;
/// where that has none either, the error that names the entry itself.
pub proof fn lemma_name_fallback(unit: UnitData, entry: DebugEntry)
    requires
        attr_text(entry, DW_AT_NAME) is None,
        unhindered(unit, entry, Property::Name, Seq::empty(), MAX_REFERENCE_DEPTH as nat),
    ensures
        text_of(unit, entry, Property::Name) == match text_of_target(
            unit,
            target(unit, entry, DW_AT_SPECIFICATION),
            Property::Name,
        ) {
            Some(name) => Ok::<Seq<char>, Seq<char>>(name),
            None => match text_of_target(
                unit,
                target(unit, entry, DW_AT_ABSTRACT_ORIGIN),
                Property::Name,
            ) {
                Some(name) => Ok(name),
                None => Err(offset_error_text("Could not find DW_AT_name"@, entry.offset)),
            },
        },
{
    let depth = MAX_REFERENCE_DEPTH as nat;
    let none = Seq::<AddressRange>::empty();
    lemma_fallback_order(unit, entry, Property::Name, none, depth);
    lemma_resolved_kind(unit, entry, Property::Name, none, depth);
    if let Some(next) = target(unit, entry, DW_AT_SPECIFICATION) {
        lemma_resolved_kind(unit, next, Property::Name, none, depth);
    }
    if let Some(next) = target(unit, entry, DW_AT_ABSTRACT_ORIGIN) {
        lemma_resolved_kind(unit, next, Property::Name, none, depth);
    }
}

/// The locations of an entry without a location of its own, whose
/// specification has none either, are those of its abstract origin.
pub proof fn lemma_origin_locations_behind_specification(
    unit: UnitData,
    entry: DebugEntry,
    defaults: Seq<AddressRange>,
)
    requires
        own_locations(unit, entry, defaults) is Absent,
        unhindered(unit, entry, Property::Location, defaults, MAX_REFERENCE_DEPTH as nat),
        target(unit, entry, DW_AT_SPECIFICATION) matches Some(specification) ==> locations_of(
            unit,
            specification,
            defaults,
        ) == Ok::<Seq<OperationsListView>, Seq<char>>(Seq::empty()),
        target(unit, entry, DW_AT_ABSTRACT_ORIGIN) matches Some(origin) && locations_of(
            unit,
            origin,
            defaults,
        ) matches Ok(found) && found.len() > 0,
    ensures
        locations_of(unit, entry, defaults) == locations_of(
            unit,
            target(unit, entry, DW_AT_ABSTRACT_ORIGIN)->0,
            defaults,
        ),
{
    let depth = MAX_REFERENCE_DEPTH as nat;
    lemma_fallback_order(unit, entry, Property::Location, defaults, depth);
    lemma_resolved_kind(unit, entry, Property::Location, defaults, depth);
    if let Some(next) = target(unit, entry, DW_AT_SPECIFICATION) {
        lemma_resolved_kind(unit, next, Property::Location, defaults, depth);
    }
    if let Some(next) = target(unit, entry, DW_AT_ABSTRACT_ORIGIN) {
        lemma_resolved_kind(unit, next, Property::Location, defaults, depth);
    }
}

/// The range that is made from a start address and a length is well
/// formed.
pub proof fn lemma_length_range_well_formed(entry: DebugEntry)
    requires
        entry.attr_value(DW_AT_HIGH_PC) matches Some(AttributeValue::Udata(_)),
    ensures
        (low_pc(entry), high_pc(entry)) matches (Some(low), Reading::Found(high))
            ==> (AddressRange { start: low, end: high }).well_formed(),
{
}

/// An entry's own attributes always win: where they give a property, that is
/// the property, whatever the entry's specification or abstract origin would
/// give; and where they cannot be read, that is the error. Another entry is
/// asked only where the own attributes give nothing.
pub proof fn lemma_own_attributes_win(
    unit: UnitData,
    entry: DebugEntry,
    property: Property,
    defaults: Seq<AddressRange>,
    depth: nat,
)
    ensures
        own(unit, entry, property, defaults) matches Reading::Found(v) ==> resolved(
            unit,
            entry,
            property,
            defaults,
            depth,
        ) == Ok::<PropertyView, Seq<char>>(v),
        own(unit, entry, property, defaults) matches Reading::Failed(m) ==> resolved(
            unit,
            entry,
            property,
            defaults,
            depth,
        ) == Err::<PropertyView, Seq<char>>(m),
{
}

/// The locations of a location list whose expressions can all be read: one
/// for each entry of the list, in order, each with the operations of its
/// expression and with its own range.
pub proof fn lemma_list_locations(entries: Seq<LocationEntry>, enc: ExpressionEncoding)
    requires
        forall|i: int| 0 <= i < entries.len() ==> decoded(#[trigger] entries[i].expression@, enc) is Some,
    ensures
        list_locations(entries, enc).len() == entries.len(),
        forall|i: int|
            0 <= i < entries.len() ==> #[trigger] list_locations(entries, enc)[i] == (
            OperationsListView {
                operations: decoded(entries[i].expression@, enc)->0,
                range: AddressRange { start: entries[i].begin, end: entries[i].end },
            }),
    decreases entries.len(),
{
    if entries.len() > 0 {
        let before = entries.drop_last();
        assert forall|i: int| 0 <= i < before.len() implies decoded(
            #[trigger] before[i].expression@,
            enc,
        ) is Some by {
            assert(before[i] == entries[i]);
        }
        lemma_list_locations(before, enc);
        assert(decoded(entries[entries.len() - 1].expression@, enc) is Some);
    }
}

/// A location attribute that is a single expression, read for an entry
/// without a constant value, gives one operation list for each default
/// range: all with the operations of the expression, each with its own
/// range.
pub proof fn lemma_expression_locations(
    unit: UnitData,
    entry: DebugEntry,
    defaults: Seq<AddressRange>,
    bytes: Vec<u8>,
)
    requires
        entry.attr_value(DW_AT_LOCATION) == Some(AttributeValue::Exprloc(bytes)),
        decoded(bytes@, unit.encoding_spec()) is Some,
        attr_u64(entry, DW_AT_CONST_VALUE) is None,
        defaults.len() > 0,
    ensures
        locations_of(unit, entry, defaults) matches Ok(locations) && locations.len()
            == defaults.len() && forall|i: int|
            0 <= i < defaults.len() ==> #[trigger] locations[i] == (OperationsListView {
                operations: decoded(bytes@, unit.encoding_spec())->0,
                range: defaults[i],
            }),
{
    let ops = decoded(bytes@, unit.encoding_spec())->0;
    assert(replicated(ops, defaults) + Seq::<OperationsListView>::empty() =~= replicated(
        ops,
        defaults,
    ));
}

/// A location attribute that is a location list, read for an entry without
/// a constant value, gives one operation list for each entry of the list:
/// each with the operations of its expression and with only its own range,
/// whatever the default ranges are.
pub proof fn lemma_location_list_locations(
    unit: UnitData,
    entry: DebugEntry,
    defaults: Seq<AddressRange>,
    list: Vec<LocationEntry>,
)
    requires
        entry.attr_value(DW_AT_LOCATION) == Some(AttributeValue::LocationList(list)),
        forall|i: int|
            0 <= i < list@.len() ==> decoded(
                #[trigger] list@[i].expression@,
                unit.encoding_spec(),
            ) is Some,
        attr_u64(entry, DW_AT_CONST_VALUE) is None,
        list@.len() > 0,
    ensures
        locations_of(unit, entry, defaults) matches Ok(locations) && locations.len()
            == list@.len() && forall|i: int|
            0 <= i < list@.len() ==> #[trigger] locations[i] == (OperationsListView {
                operations: decoded(list@[i].expression@, unit.encoding_spec())->0,
                range: AddressRange { start: list@[i].begin, end: list@[i].end },
            }),
{
    let enc = unit.encoding_spec();
    lemma_list_locations(list@, enc);
    assert(list_locations(list@, enc) + Seq::<OperationsListView>::empty() =~= list_locations(
        list@,
        enc,
    ));
}

} // verus!
