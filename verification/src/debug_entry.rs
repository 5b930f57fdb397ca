//! The debug entries of a compilation unit as plain values: what a reader of
//! the debug format has decoded, and what every component here consumes.

use vstd::prelude::*;
use std::collections::HashMap;
use crate::types::data_structures::AddressRange;

verus! {

broadcast use vstd::std_specs::hash::group_hash_axioms;

// The tags of the entries that are told apart.
pub const DW_TAG_ARRAY_TYPE: u16 = 0x01;

pub const DW_TAG_ENUMERATION_TYPE: u16 = 0x04;

pub const DW_TAG_FORMAL_PARAMETER: u16 = 0x05;

pub const DW_TAG_MEMBER: u16 = 0x0d;

pub const DW_TAG_POINTER_TYPE: u16 = 0x0f;

pub const DW_TAG_STRUCTURE_TYPE: u16 = 0x13;

pub const DW_TAG_VARIANT: u16 = 0x19;

pub const DW_TAG_INLINED_SUBROUTINE: u16 = 0x1d;

pub const DW_TAG_SUBRANGE_TYPE: u16 = 0x21;

pub const DW_TAG_BASE_TYPE: u16 = 0x24;

pub const DW_TAG_ENUMERATOR: u16 = 0x28;

pub const DW_TAG_SUBPROGRAM: u16 = 0x2e;

pub const DW_TAG_VARIANT_PART: u16 = 0x33;

pub const DW_TAG_VARIABLE: u16 = 0x34;

// The names of the attributes that are read.
pub const DW_AT_LOCATION: u16 = 0x02;

pub const DW_AT_NAME: u16 = 0x03;

pub const DW_AT_BYTE_SIZE: u16 = 0x0b;

pub const DW_AT_LOW_PC: u16 = 0x11;

pub const DW_AT_HIGH_PC: u16 = 0x12;

pub const DW_AT_DISCR: u16 = 0x15;

pub const DW_AT_DISCR_VALUE: u16 = 0x16;

pub const DW_AT_CONST_VALUE: u16 = 0x1c;

pub const DW_AT_ABSTRACT_ORIGIN: u16 = 0x31;

pub const DW_AT_COUNT: u16 = 0x37;

pub const DW_AT_DATA_MEMBER_LOCATION: u16 = 0x38;

pub const DW_AT_DECL_COLUMN: u16 = 0x39;

pub const DW_AT_DECL_FILE: u16 = 0x3a;

pub const DW_AT_DECL_LINE: u16 = 0x3b;

pub const DW_AT_ENCODING: u16 = 0x3e;

pub const DW_AT_SPECIFICATION: u16 = 0x47;

pub const DW_AT_TYPE: u16 = 0x49;

pub const DW_AT_RANGES: u16 = 0x55;

pub const DW_AT_CALL_COLUMN: u16 = 0x57;

pub const DW_AT_CALL_FILE: u16 = 0x58;

pub const DW_AT_CALL_LINE: u16 = 0x59;

pub const DW_AT_LINKAGE_NAME: u16 = 0x6e;

// The encodings of the base types that are told apart.
pub const DW_ATE_BOOLEAN: u8 = 0x02;

pub const DW_ATE_FLOAT: u8 = 0x04;

pub const DW_ATE_SIGNED: u8 = 0x05;

pub const DW_ATE_UNSIGNED: u8 = 0x07;

/// One entry of a location list: a location expression and the address range
/// in which it applies.
#[derive(Debug, PartialEq, Eq)]
pub struct LocationEntry {
    pub begin: u64,
    pub end: u64,
    /// The bytes of the location expression.
    pub expression: Vec<u8>,
}

/// The value of an attribute, as the reader has decoded it.
#[derive(Debug, PartialEq, Eq)]
pub enum AttributeValue {
    /// A code address.
    Addr(u64),
    /// An unsigned number of any width.
    Udata(u64),
    /// A signed number of any width.
    Sdata(i64),
    /// An unsigned number of one byte.
    Data1(u8),
    /// An unsigned number of two bytes.
    Data2(u16),
    /// An unsigned number of four bytes.
    Data4(u32),
    /// An unsigned number of eight bytes.
    Data8(u64),
    /// A string, whether it was held in place or found through a reference.
    Text(String),
    /// The offset of another entry of the same unit.
    UnitRef(usize),
    /// The address ranges of a range list.
    RangeList(Vec<AddressRange>),
    /// The entries of a location list.
    LocationList(Vec<LocationEntry>),
    /// The bytes of one location expression.
    Exprloc(Vec<u8>),
    /// The index of a file in the unit's file table.
    FileIndex(u64),
    /// The encoding of a base type.
    Encoding(u8),
    /// A reference that the reader could not follow, with the reader's
    /// message.
    Unreadable(String),
    /// Any other value.
    Other,
}

/// A named attribute of an entry.
#[derive(Debug, PartialEq, Eq)]
pub struct Attribute {
    pub name: u16,
    pub value: AttributeValue,
}

/// A debug entry: a tag, attributes, and the places of its children among the
/// entries of its unit.
#[derive(Debug, PartialEq, Eq)]
pub struct DebugEntry {
    /// The offset of the entry within its unit.
    pub offset: usize,
    pub tag: u16,
    pub attributes: Vec<Attribute>,
    /// The indices of the children in the unit's list of entries, in order.
    pub children: Vec<usize>,
}

/// A string of the file table.
#[derive(Debug, PartialEq, Eq)]
pub enum TableString {
    /// There is none.
    Missing,
    Text(String),
    /// The reader could not read it; with the reader's message.
    Unreadable(String),
}

/// A file of the unit's file table.
#[derive(Debug, PartialEq, Eq)]
pub struct FileRecord {
    /// Which directory the file is in; zero is the compilation directory.
    pub directory_index: u64,
    pub directory: TableString,
    pub path_name: TableString,
}

/// One row of the line-number program.
#[derive(Debug, Clone, Copy, PartialEq, Eq, Structural)]
pub struct LineRow {
    pub address: u64,
    pub file_index: u64,
    /// The line, counted from one; zero where the row has none.
    pub line: u64,
    /// The column, counted from one; zero for the left edge.
    pub column: u64,
    /// Whether the row closes a run of addresses.
    pub end_sequence: bool,
}

/// The line-number program of a unit.
#[derive(Debug, PartialEq, Eq)]
pub struct LineProgram {
    /// The file that each file index stands for, if any.
    pub files: Vec<Option<FileRecord>>,
    /// The rows in program order, up to where the reader failed if it did.
    pub rows: Vec<LineRow>,
    /// The reader's message where it failed on a row.
    pub failure: Option<String>,
}

/// A compilation unit: its entries in the order of the debug section, the
/// first of them its root, and what is needed to read them.
#[derive(Debug, PartialEq, Eq)]
pub struct UnitData {
    /// The offset of the unit within the debug section.
    pub offset: usize,
    /// The version of the debug format.
    pub version: u16,
    /// The size of an address in bytes.
    pub address_size: u8,
    /// Whether offsets are 64 bits wide.
    pub dwarf64: bool,
    pub big_endian: bool,
    /// The compilation directory.
    pub comp_dir: Option<String>,
    pub entries: Vec<DebugEntry>,
    /// Where the entry at each offset stands among `entries`. An offset
    /// that the index does not hold, or for which it gives a place that
    /// holds another offset, names no entry.
    pub index: HashMap<usize, usize>,
    pub line_program: Option<LineProgram>,
}

/// The value of the first attribute named `name` from index `from` on.
pub open spec fn attr_from(attrs: Seq<Attribute>, name: u16, from: int) -> Option<AttributeValue>
    decreases attrs.len() - from,
{
    if from < 0 || from >= attrs.len() {
        None
    } else if attrs[from].name == name {
        Some(attrs[from].value)
    } else {
        attr_from(attrs, name, from + 1)
    }
}

/// The index of the first entry at `offset` from index `from` on.
pub open spec fn position_from(entries: Seq<DebugEntry>, offset: usize, from: int) -> Option<int>
    decreases entries.len() - from,
{
    if from < 0 || from >= entries.len() {
        None
    } else if entries[from].offset == offset {
        Some(from)
    } else {
        position_from(entries, offset, from + 1)
    }
}

impl DebugEntry {
    /// The value of the first attribute named `name`.
    pub open spec fn attr_value(&self, name: u16) -> Option<AttributeValue> {
        attr_from(self.attributes@, name, 0)
    }

    /// The entry offset that the attribute `name` refers to, if its value is
    /// such a reference.
    pub open spec fn reference(&self, name: u16) -> Option<usize> {
        match self.attr_value(name) {
            Some(AttributeValue::UnitRef(offset)) => Some(offset),
            _ => None,
        }
    }

    /// Finds the first attribute named `name`.
    pub fn attr(&self, name: u16) -> (value: Option<&AttributeValue>)
        ensures
            match value {
                Some(v) => self.attr_value(name) == Some(*v),
                None => self.attr_value(name) is None,
            },
    {
        let mut i: usize = 0;
        while i < self.attributes.len()
            invariant
                i <= self.attributes.len(),
                attr_from(self.attributes@, name, i as int) == self.attr_value(name),
            decreases self.attributes.len() - i,
        {
            if self.attributes[i].name == name {
                return Some(&self.attributes[i].value);
            }
            i += 1;
        }
        None
    }

    /// Reads the entry offset that the attribute `name` refers to.
    pub fn attr_reference(&self, name: u16) -> (offset: Option<usize>)
        ensures
            offset == self.reference(name),
    {
        match self.attr(name) {
            Some(AttributeValue::UnitRef(offset)) => Some(*offset),
            _ => None,
        }
    }
}

impl UnitData {
    /// The index of the entry that a reference to `offset` names.
    pub open spec fn position(&self, offset: usize) -> Option<int> {
        if self.index@.dom().contains(offset) && self.index@[offset] < self.entries@.len()
            && self.entries@[self.index@[offset] as int].offset == offset {
            Some(self.index@[offset] as int)
        } else {
            None
        }
    }

    /// Finds the entry that a reference to `offset` names.
    pub fn find(&self, offset: usize) -> (index: Option<usize>)
        ensures
            match index {
                Some(i) => self.position(offset) == Some(i as int) && i < self.entries.len()
                    && self.entries@[i as int].offset == offset,
                None => self.position(offset) is None,
            },
    {
        match self.index.get(&offset) {
            Some(place) => {
                let i = *place;
                if i < self.entries.len() && self.entries[i].offset == offset {
                    Some(i)
                } else {
                    None
                }
            },
            None => None,
        }
    }

    /// The index over a list of entries: for every offset that an entry has,
    /// the place of the first entry with that offset.
    pub fn index_entries(entries: &Vec<DebugEntry>) -> (index: HashMap<usize, usize>)
        ensures
            forall|offset: usize|
                match #[trigger] position_from(entries@, offset, 0) {
                    Some(i) => index@.dom().contains(offset) && index@[offset] == i,
                    None => !index@.dom().contains(offset),
                },
    {
        let mut index: HashMap<usize, usize> = HashMap::new();
        let mut k: usize = 0;
        while k < entries.len()
            invariant
                k <= entries.len(),
                forall|offset: usize|
                    match #[trigger] position_from(entries@.subrange(0, k as int), offset, 0) {
                        Some(i) => index@.dom().contains(offset) && index@[offset] == i,
                        None => !index@.dom().contains(offset),
                    },
            decreases entries.len() - k,
        {
            let offset = entries[k].offset;
            let ghost before = entries@.subrange(0, k as int);
            let ghost old_index = index@;
            if !index.contains_key(&offset) {
                index.insert(offset, k);
            }
            proof {
                assert(entries@.subrange(0, k + 1) =~= before.push(entries@[k as int]));
                assert forall|o: usize|
                    match #[trigger] position_from(entries@.subrange(0, k + 1), o, 0) {
                        Some(i) => index@.dom().contains(o) && index@[o] == i,
                        None => !index@.dom().contains(o),
                    } by {
                    lemma_position_push(before, entries@[k as int], o, 0);
                    lemma_position_in_range(before, o, 0);
                    assert(match position_from(before, o, 0) {
                        Some(i) => old_index.dom().contains(o) && old_index[o] == i,
                        None => !old_index.dom().contains(o),
                    });
                }
            }
            k += 1;
        }
        proof {
            assert(entries@.subrange(0, entries.len() as int) =~= entries@);
        }
        index
    }

    /// A unit with the given entries, and with the index over them.
    pub fn new(
        offset: usize,
        version: u16,
        address_size: u8,
        dwarf64: bool,
        big_endian: bool,
        comp_dir: Option<String>,
        entries: Vec<DebugEntry>,
        line_program: Option<LineProgram>,
    ) -> (unit: Self)
        ensures
            unit.offset == offset,
            unit.version == version,
            unit.address_size == address_size,
            unit.dwarf64 == dwarf64,
            unit.big_endian == big_endian,
            unit.comp_dir == comp_dir,
            unit.entries == entries,
            unit.line_program == line_program,
            forall|o: usize| #[trigger] unit.position(o) == position_from(entries@, o, 0),
    {
        let index = Self::index_entries(&entries);
        proof {
            assert forall|o: usize| #[trigger]
                (UnitData {
                    offset,
                    version,
                    address_size,
                    dwarf64,
                    big_endian,
                    comp_dir,
                    entries,
                    index,
                    line_program,
                }).position(o) == position_from(entries@, o, 0) by {
                lemma_position_in_range(entries@, o, 0);
            }
        }
        UnitData {
            offset,
            version,
            address_size,
            dwarf64,
            big_endian,
            comp_dir,
            entries,
            index,
            line_program,
        }
    }
}

/// A position that `position_from` finds is within the entries, at or after
/// the start, and holds the offset.
pub proof fn lemma_position_in_range(entries: Seq<DebugEntry>, offset: usize, from: int)
    requires
        0 <= from,
    ensures
        position_from(entries, offset, from) matches Some(i) ==> from <= i < entries.len()
            && entries[i].offset == offset,
    decreases entries.len() - from,
{
    if from < entries.len() && entries[from].offset != offset {
        lemma_position_in_range(entries, offset, from + 1);
    }
}

/// The first entry at an offset among entries with one more at the end is
/// the first one among the entries, or else the one at the end.
pub proof fn lemma_position_push(entries: Seq<DebugEntry>, last: DebugEntry, offset: usize, from: int)
    requires
        0 <= from <= entries.len(),
    ensures
        position_from(entries.push(last), offset, from) == match position_from(
            entries,
            offset,
            from,
        ) {
            Some(i) => Some(i),
            None => if last.offset == offset {
                Some(entries.len() as int)
            } else {
                None
            },
        },
    decreases entries.len() - from,
{
    let longer = entries.push(last);
    if from < entries.len() {
        assert(longer[from] == entries[from]);
        if entries[from].offset != offset {
            lemma_position_push(entries, last, offset, from + 1);
        }
    } else {
        assert(longer[from] == last);
        assert(position_from(longer, offset, from + 1) is None);
    }
}

} // verus!
