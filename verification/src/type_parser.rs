//! Reconstructing the types that variables have: every type that a variable
//! names, and every type that such a type names in turn, is parsed once.

use vstd::prelude::*;
use vstd::string::*;
use crate::debug_entry::{
    attr_from, Attribute, AttributeValue, DebugEntry, UnitData,
    DW_ATE_BOOLEAN, DW_ATE_FLOAT, DW_ATE_SIGNED, DW_ATE_UNSIGNED, DW_AT_ABSTRACT_ORIGIN,
    DW_AT_BYTE_SIZE, DW_AT_COUNT, DW_AT_DATA_MEMBER_LOCATION, DW_AT_DISCR, DW_AT_DISCR_VALUE,
    DW_AT_ENCODING, DW_AT_SPECIFICATION, DW_AT_TYPE, DW_TAG_ARRAY_TYPE, DW_TAG_BASE_TYPE,
    DW_TAG_ENUMERATION_TYPE, DW_TAG_ENUMERATOR, DW_TAG_MEMBER, DW_TAG_POINTER_TYPE,
    DW_TAG_STRUCTURE_TYPE, DW_TAG_SUBRANGE_TYPE, DW_TAG_VARIANT, DW_TAG_VARIANT_PART,
};
use crate::die_extensions::{
    DebugEntryExt,
    error, error_from_offset, number_of, offset_error_text, own, referred, resolved, text_of,
    type_of, ParsingError, Property, PropertyView, Reading, MAX_REFERENCE_DEPTH,
};
use crate::text::{decimal, decimal_text, hex_text, lower_hex};
use crate::types::rust_type::{
    enum_variant_views, field_views, lemma_enum_views, variant_views, Discriminant, EnumVariant,
    EnumVariantType, EnumVariantTypeView, EnumVariantView, RustType, RustTypeId, RustTypeView,
    StructField, StructFieldView, Variant, VariantView,
};

verus! {

/// What gimli's `Display` writes for the tag with code `tag`.
pub uninterp spec fn tag_display(tag: u16) -> Seq<char>;

/// Has gimli write the tag with code `tag`: `Display` of `gimli::DwTag`.
#[verifier::external_body]
fn tag_name(tag: u16) -> (text: String)
    ensures
        text@ == tag_display(tag),
{
    gimli::DwTag(tag).to_string()
}

/// What parsing one type gives: the type or why there is none, and the types
/// that it names, in the order in which they were met. These are wanted
/// next, whether the type itself could be parsed or not.
pub ghost struct Parsed {
    pub result: Result<RustTypeView, Seq<char>>,
    pub wanted: Seq<RustTypeId>,
}

/// What parsing one variant gives.
pub ghost struct ParsedVariant {
    pub result: Result<VariantView, Seq<char>>,
    pub wanted: Seq<RustTypeId>,
}

/// A failure that has met no type yet.
pub open spec fn failed(message: Seq<char>) -> Parsed {
    Parsed { result: Err(message), wanted: Seq::empty() }
}

/// The scalar type with the given encoding and size in bytes.
pub open spec fn primitive_type(encoding: Option<u8>, size: Option<u64>) -> Option<RustTypeView> {
    match (encoding, size) {
        (Some(e), Some(s)) => if e == DW_ATE_SIGNED && s == 1 {
            Some(RustTypeView::I8)
        } else if e == DW_ATE_SIGNED && s == 2 {
            Some(RustTypeView::I16)
        } else if e == DW_ATE_SIGNED && s == 4 {
            Some(RustTypeView::I32)
        } else if e == DW_ATE_SIGNED && s == 8 {
            Some(RustTypeView::I64)
        } else if e == DW_ATE_SIGNED && s == 16 {
            Some(RustTypeView::I128)
        } else if e == DW_ATE_UNSIGNED && s == 1 {
            Some(RustTypeView::U8)
        } else if e == DW_ATE_UNSIGNED && s == 2 {
            Some(RustTypeView::U16)
        } else if e == DW_ATE_UNSIGNED && s == 4 {
            Some(RustTypeView::U32)
        } else if e == DW_ATE_UNSIGNED && s == 8 {
            Some(RustTypeView::U64)
        } else if e == DW_ATE_UNSIGNED && s == 16 {
            Some(RustTypeView::U128)
        } else if e == DW_ATE_FLOAT && s == 4 {
            Some(RustTypeView::F32)
        } else if e == DW_ATE_FLOAT && s == 8 {
            Some(RustTypeView::F64)
        } else if e == DW_ATE_BOOLEAN && s == 1 {
            Some(RustTypeView::Bool)
        } else {
            None
        },
        _ => None,
    }
}

/// The encoding that a base type entry gives.
pub open spec fn base_encoding(entry: DebugEntry) -> Option<u8> {
    match entry.attr_value(DW_AT_ENCODING) {
        Some(AttributeValue::Encoding(e)) => Some(e),
        _ => None,
    }
}

/// The size in bytes that a base type entry gives.
pub open spec fn base_size(entry: DebugEntry) -> Option<u64> {
    match entry.attr_value(DW_AT_BYTE_SIZE) {
        Some(AttributeValue::Udata(s)) => Some(s),
        _ => None,
    }
}

/// An encoding that may be missing, in words.
pub open spec fn encoding_text(encoding: Option<u8>) -> Seq<char> {
    match encoding {
        Some(e) => "Some(DwAte("@ + decimal_text(e as nat) + "))"@,
        None => "None"@,
    }
}

/// A size that may be missing, in words.
pub open spec fn size_text(size: Option<u64>) -> Seq<char> {
    match size {
        Some(s) => "Some("@ + decimal_text(s as nat) + ")"@,
        None => "None"@,
    }
}

/// The message for a base type whose encoding and size name no scalar type.
pub open spec fn primitive_error_text(encoding: Option<u8>, size: Option<u64>, offset: usize) -> Seq<
    char,
> {
    "Encoding "@ + encoding_text(encoding) + " doesn't match byte site "@ + size_text(size)
        + ", type at offfset "@ + decimal_text(offset as nat) + " (hex "@ + hex_text(offset as nat)
        + ")"@
}

/// The scalar type of a base type entry.
pub open spec fn parsed_primitive(entry: DebugEntry) -> Result<RustTypeView, Seq<char>> {
    match primitive_type(base_encoding(entry), base_size(entry)) {
        Some(t) => Ok(t),
        None => Err(primitive_error_text(base_encoding(entry), base_size(entry), entry.offset)),
    }
}

/// The child at place `k` among `children`, if it is an entry of the unit.
pub open spec fn child_entry(unit: UnitData, children: Seq<usize>, k: int) -> Option<DebugEntry> {
    if 0 <= k < children.len() && children[k] < unit.entries@.len() {
        Some(unit.entries@[children[k] as int])
    } else {
        None
    }
}

/// The element count that a subrange entry gives.
pub open spec fn subrange_count(entry: DebugEntry) -> Option<u64> {
    if entry.tag == DW_TAG_SUBRANGE_TYPE {
        match entry.attr_value(DW_AT_COUNT) {
            Some(AttributeValue::Data1(c)) => Some(c as u64),
            Some(AttributeValue::Data2(c)) => Some(c as u64),
            Some(AttributeValue::Data4(c)) => Some(c as u64),
            Some(AttributeValue::Data8(c)) => Some(c),
            _ => None,
        }
    } else {
        None
    }
}

/// The element count of an array: that of the first child from `from` on
/// that is a subrange with a count; zero where there is none.
pub open spec fn element_count_from(unit: UnitData, children: Seq<usize>, from: int) -> u64
    decreases children.len() - from,
{
    if from < 0 || from >= children.len() {
        0
    } else {
        match child_entry(unit, children, from) {
            Some(child) => match subrange_count(child) {
                Some(c) => c,
                None => element_count_from(unit, children, from + 1),
            },
            None => element_count_from(unit, children, from + 1),
        }
    }
}

/// A pointer or reference type: its referent is wanted.
pub open spec fn parsed_pointer(unit: UnitData, entry: DebugEntry) -> Parsed {
    match type_of(unit, entry) {
        Ok(id) => Parsed {
            result: Ok(RustTypeView::Reference { referent_id: id }),
            wanted: seq![id],
        },
        Err(m) => failed(m),
    }
}

/// An array type: its element type is wanted.
pub open spec fn parsed_array(unit: UnitData, entry: DebugEntry) -> Parsed {
    match type_of(unit, entry) {
        Ok(id) => Parsed {
            result: Ok(
                RustTypeView::Array {
                    element_type_id: id,
                    element_count: element_count_from(unit, entry.children@, 0),
                },
            ),
            wanted: seq![id],
        },
        Err(m) => failed(m),
    }
}

/// The message for a variant with more than one member.
pub open spec fn second_member_text(offset: usize) -> Seq<char> {
    offset_error_text("Found more than one member in a variant"@, offset)
}

/// The message for a struct that has fields and a variant part.
pub open spec fn mixed_struct_text(offset: usize) -> Seq<char> {
    offset_error_text("Found a variant part in a struct with fields"@, offset)
}

/// A variant read from its children from `from` on: its one member gives the
/// name, the type, which is wanted, and the offset.
pub open spec fn variant_members(
    unit: UnitData,
    children: Seq<usize>,
    from: int,
    value: u64,
    offset: usize,
    found: Option<VariantView>,
    wanted: Seq<RustTypeId>,
) -> ParsedVariant
    decreases children.len() - from,
{
    if from < 0 || from >= children.len() {
        match found {
            Some(v) => ParsedVariant { result: Ok(v), wanted },
            None => ParsedVariant {
                result: Err(offset_error_text("Unable to extract variant type"@, offset)),
                wanted,
            },
        }
    } else {
        match child_entry(unit, children, from) {
            Some(child) => if child.tag == DW_TAG_MEMBER {
                match type_of(unit, child) {
                    Err(m) => ParsedVariant { result: Err(m), wanted },
                    Ok(id) => if found is Some {
                        ParsedVariant {
                            result: Err(second_member_text(offset)),
                            wanted: wanted.push(id),
                        }
                    } else {
                        match text_of(unit, child, Property::Name) {
                            Err(m) => ParsedVariant { result: Err(m), wanted: wanted.push(id) },
                            Ok(name) => match number_of(child, DW_AT_DATA_MEMBER_LOCATION) {
                                Err(m) => ParsedVariant {
                                    result: Err(m),
                                    wanted: wanted.push(id),
                                },
                                Ok(place) => variant_members(
                                    unit,
                                    children,
                                    from + 1,
                                    value,
                                    offset,
                                    Some(
                                        VariantView {
                                            discr_name: name,
                                            discr_value: value,
                                            rust_type_id: id,
                                            offset: place,
                                        },
                                    ),
                                    wanted.push(id),
                                ),
                            },
                        }
                    },
                }
            } else {
                variant_members(unit, children, from + 1, value, offset, found, wanted)
            },
            None => variant_members(unit, children, from + 1, value, offset, found, wanted),
        }
    }
}

/// A variant: its discriminant value, and what its one member gives.
pub open spec fn parsed_variant(unit: UnitData, entry: DebugEntry) -> ParsedVariant {
    match number_of(entry, DW_AT_DISCR_VALUE) {
        Err(m) => ParsedVariant { result: Err(m), wanted: Seq::empty() },
        Ok(value) => variant_members(
            unit,
            entry.children@,
            0,
            value,
            entry.offset,
            None,
            Seq::empty(),
        ),
    }
}

/// The variants of a variant part read from its children from `from` on. A
/// variant part without any variant is an error.
pub open spec fn variants_from(
    unit: UnitData,
    children: Seq<usize>,
    from: int,
    discriminant: Discriminant,
    size: u64,
    offset: usize,
    variants: Seq<VariantView>,
    wanted: Seq<RustTypeId>,
) -> Parsed
    decreases children.len() - from,
{
    if from < 0 || from >= children.len() {
        if variants.len() > 0 {
            Parsed { result: Ok(RustTypeView::VariantPart { discriminant, variants, size }), wanted }
        } else {
            Parsed {
                result: Err(offset_error_text("Could not parse an variant type"@, offset)),
                wanted,
            }
        }
    } else {
        match child_entry(unit, children, from) {
            Some(child) => if child.tag == DW_TAG_VARIANT {
                let p = parsed_variant(unit, child);
                match p.result {
                    Ok(v) => variants_from(
                        unit,
                        children,
                        from + 1,
                        discriminant,
                        size,
                        offset,
                        variants.push(v),
                        wanted + p.wanted,
                    ),
                    Err(m) => Parsed { result: Err(m), wanted: wanted + p.wanted },
                }
            } else {
                variants_from(unit, children, from + 1, discriminant, size, offset, variants, wanted)
            },
            None => variants_from(
                unit,
                children,
                from + 1,
                discriminant,
                size,
                offset,
                variants,
                wanted,
            ),
        }
    }
}

/// A variant part of a struct of `size` bytes: the entry that its
/// discriminant attribute names gives the discriminant's type, which is
/// wanted, and its offset; its variant children give the variants.
pub open spec fn parsed_variant_part(unit: UnitData, size: u64, entry: DebugEntry) -> Parsed {
    match entry.attr_value(DW_AT_DISCR) {
        None => failed(offset_error_text("Failed to find DW_AT_discr value"@, entry.offset)),
        Some(AttributeValue::UnitRef(target)) => match unit.position(target) {
            Some(index) => if 0 <= index < unit.entries@.len() {
                let discr = unit.entries@[index];
                match type_of(unit, discr) {
                    Err(m) => failed(m),
                    Ok(id) => match number_of(discr, DW_AT_DATA_MEMBER_LOCATION) {
                        Err(m) => Parsed { result: Err(m), wanted: seq![id] },
                        Ok(place) => variants_from(
                            unit,
                            entry.children@,
                            0,
                            Discriminant { rust_type_id: id, offset: place },
                            size,
                            entry.offset,
                            Seq::empty(),
                            seq![id],
                        ),
                    },
                }
            } else {
                failed(offset_error_text("Could not find the entry of DW_AT_discr"@, entry.offset))
            },
            None => failed(
                offset_error_text("Could not find the entry of DW_AT_discr"@, entry.offset),
            ),
        },
        Some(_) => failed(offset_error_text("DW_AT_discr is not a UnitRef"@, entry.offset)),
    }
}

/// A struct read from its children from `from` on: each member child gives a
/// field, with its name, its type, which is wanted, and its offset. A child
/// that is a variant part makes the struct a variant part instead; it must
/// not come behind a field.
pub open spec fn struct_members(
    unit: UnitData,
    children: Seq<usize>,
    from: int,
    name: Seq<char>,
    size: u64,
    offset: usize,
    fields: Seq<StructFieldView>,
    wanted: Seq<RustTypeId>,
) -> Parsed
    decreases children.len() - from,
{
    if from < 0 || from >= children.len() {
        Parsed {
            result: Ok(RustTypeView::Struct { name, size, fields, is_tuple_struct: false }),
            wanted,
        }
    } else {
        match child_entry(unit, children, from) {
            Some(child) => if child.tag == DW_TAG_VARIANT_PART {
                if fields.len() > 0 {
                    Parsed { result: Err(mixed_struct_text(offset)), wanted }
                } else {
                    let p = parsed_variant_part(unit, size, child);
                    Parsed { result: p.result, wanted: wanted + p.wanted }
                }
            } else if child.tag == DW_TAG_MEMBER {
                match text_of(unit, child, Property::Name) {
                    Err(m) => Parsed { result: Err(m), wanted },
                    Ok(field_name) => match type_of(unit, child) {
                        Err(m) => Parsed { result: Err(m), wanted },
                        Ok(id) => match number_of(child, DW_AT_DATA_MEMBER_LOCATION) {
                            Err(m) => Parsed { result: Err(m), wanted: wanted.push(id) },
                            Ok(place) => struct_members(
                                unit,
                                children,
                                from + 1,
                                name,
                                size,
                                offset,
                                fields.push(
                                    StructFieldView {
                                        name: field_name,
                                        field_type_id: id,
                                        offset: place,
                                    },
                                ),
                                wanted.push(id),
                            ),
                        },
                    },
                }
            } else {
                struct_members(unit, children, from + 1, name, size, offset, fields, wanted)
            },
            None => struct_members(unit, children, from + 1, name, size, offset, fields, wanted),
        }
    }
}

/// A struct type: its name, its size, and what its children give.
pub open spec fn parsed_struct(unit: UnitData, entry: DebugEntry) -> Parsed {
    match text_of(unit, entry, Property::Name) {
        Err(m) => failed(m),
        Ok(name) => match number_of(entry, DW_AT_BYTE_SIZE) {
            Err(m) => failed(m),
            Ok(size) => struct_members(
                unit,
                entry.children@,
                0,
                name,
                size,
                entry.offset,
                Seq::empty(),
                Seq::empty(),
            ),
        },
    }
}

/// The variants of an enum read from its children from `from` on: each
/// enumerator gives a variant that holds nothing.
pub open spec fn enumerators_from(
    unit: UnitData,
    children: Seq<usize>,
    from: int,
    name: Seq<char>,
    variants: Seq<EnumVariantView>,
) -> Result<RustTypeView, Seq<char>>
    decreases children.len() - from,
{
    if from < 0 || from >= children.len() {
        Ok(RustTypeView::Enum { name, variants })
    } else {
        match child_entry(unit, children, from) {
            Some(child) => if child.tag == DW_TAG_ENUMERATOR {
                match text_of(unit, child, Property::Name) {
                    Err(m) => Err(m),
                    Ok(variant_name) => enumerators_from(
                        unit,
                        children,
                        from + 1,
                        name,
                        variants.push(
                            EnumVariantView {
                                name: variant_name,
                                variant_type: EnumVariantTypeView::Unit,
                            },
                        ),
                    ),
                }
            } else {
                enumerators_from(unit, children, from + 1, name, variants)
            },
            None => enumerators_from(unit, children, from + 1, name, variants),
        }
    }
}

/// An enum type: its name and its enumerators.
pub open spec fn parsed_enum(unit: UnitData, entry: DebugEntry) -> Result<RustTypeView, Seq<char>> {
    match text_of(unit, entry, Property::Name) {
        Err(m) => Err(m),
        Ok(name) => enumerators_from(unit, entry.children@, 0, name, Seq::empty()),
    }
}

/// The message for an entry whose tag is that of no type that is parsed.
pub open spec fn unsupported_text(tag: u16, offset: usize) -> Seq<char> {
    offset_error_text("Found an unsupported type "@ + tag_display(tag), offset)
}

/// The type that an entry stands for, by the entry's tag: a scalar, a
/// reference, an array, a struct or the variant part in it, or an enum. Any
/// other tag is an error.
pub open spec fn parsed_type(unit: UnitData, entry: DebugEntry) -> Parsed {
    if entry.tag == DW_TAG_BASE_TYPE {
        Parsed { result: parsed_primitive(entry), wanted: Seq::empty() }
    } else if entry.tag == DW_TAG_POINTER_TYPE {
        parsed_pointer(unit, entry)
    } else if entry.tag == DW_TAG_ARRAY_TYPE {
        parsed_array(unit, entry)
    } else if entry.tag == DW_TAG_STRUCTURE_TYPE {
        parsed_struct(unit, entry)
    } else if entry.tag == DW_TAG_ENUMERATION_TYPE {
        Parsed { result: parsed_enum(unit, entry), wanted: Seq::empty() }
    } else {
        failed(unsupported_text(entry.tag, entry.offset))
    }
}

/// Whether a type id names an entry that some type attribute of the unit
/// refers to.
pub open spec fn mentioned(unit: UnitData, id: RustTypeId) -> bool {
    id.1 == unit.offset && exists|i: int, j: int|
        0 <= i < unit.entries@.len() && 0 <= j < unit.entries@[i].attributes@.len() && (
        #[trigger] unit.entries@[i].attributes@[j]).name == DW_AT_TYPE
            && unit.entries@[i].attributes@[j].value == AttributeValue::UnitRef(id.0)
}

/// Whether every type id of a sequence is mentioned in the unit.
pub open spec fn all_mentioned(unit: UnitData, ids: Seq<RustTypeId>) -> bool {
    forall|k: int| 0 <= k < ids.len() ==> mentioned(unit, #[trigger] ids[k])
}

/// Whether `entry` is one of the entries of the unit.
pub open spec fn holds(unit: UnitData, entry: DebugEntry) -> bool {
    exists|i: int| 0 <= i < unit.entries@.len() && #[trigger] unit.entries@[i] == entry
}

/// An attribute value that is found stands at some place among the
/// attributes.
pub proof fn lemma_attr_found(attrs: Seq<Attribute>, name: u16, from: int)
    requires
        0 <= from,
        attr_from(attrs, name, from) is Some,
    ensures
        exists|j: int|
            from <= j < attrs.len() && (#[trigger] attrs[j]).name == name && attrs[j].value
                == attr_from(attrs, name, from)->0,
    decreases attrs.len() - from,
{
    if attrs[from].name != name {
        lemma_attr_found(attrs, name, from + 1);
    }
}

/// The type of an entry of a unit is mentioned in the unit.
pub proof fn lemma_type_mentioned(unit: UnitData, entry: DebugEntry, depth: nat)
    requires
        holds(unit, entry),
    ensures
        resolved(unit, entry, Property::TypeId, Seq::empty(), depth) matches Ok(
            PropertyView::Type(id),
        ) ==> mentioned(unit, id),
    decreases depth, 1nat,
{
    let defaults = Seq::<crate::types::data_structures::AddressRange>::empty();
    match own(unit, entry, Property::TypeId, defaults) {
        Reading::Found(_) => {
            lemma_attr_found(entry.attributes@, DW_AT_TYPE, 0);
            let i = choose|i: int| 0 <= i < unit.entries@.len() && #[trigger] unit.entries@[i] == entry;
            let j = choose|j: int|
                0 <= j < entry.attributes@.len() && (#[trigger] entry.attributes@[j]).name
                    == DW_AT_TYPE && entry.attributes@[j].value == entry.attr_value(DW_AT_TYPE)->0;
            assert(unit.entries@[i].attributes@[j].name == DW_AT_TYPE);
        },
        Reading::Failed(_) => {},
        Reading::Absent => {
            if depth > 0 {
                lemma_referred_mentioned(unit, entry, DW_AT_SPECIFICATION, depth);
                lemma_referred_mentioned(unit, entry, DW_AT_ABSTRACT_ORIGIN, depth);
            }
        },
    }
}

proof fn lemma_referred_mentioned(unit: UnitData, entry: DebugEntry, attr: u16, depth: nat)
    requires
        depth > 0,
    ensures
        referred(unit, entry, attr, Property::TypeId, Seq::empty(), depth) matches Some(
            PropertyView::Type(id),
        ) ==> mentioned(unit, id),
    decreases depth, 0nat,
{
    if let Some(offset) = entry.reference(attr) {
        if let Some(index) = unit.position(offset) {
            if 0 <= index < unit.entries@.len() {
                assert(unit.entries@[index] == unit.entries@[index]);
                lemma_type_mentioned(unit, unit.entries@[index], (depth - 1) as nat);
            }
        }
    }
}


/// The value of what parsing one type gave.
pub open spec fn parsed_view(r: (Result<RustType, ParsingError>, Vec<RustTypeId>)) -> Parsed {
    Parsed {
        result: match r.0 {
            Ok(t) => Ok(t@),
            Err(e) => Err(e@),
        },
        wanted: r.1@,
    }
}

/// The value of what parsing one variant gave.
pub open spec fn parsed_variant_view(r: (Result<Variant, ParsingError>, Vec<RustTypeId>)) -> ParsedVariant {
    ParsedVariant {
        result: match r.0 {
            Ok(v) => Ok(v@),
            Err(e) => Err(e@),
        },
        wanted: r.1@,
    }
}

fn type_id_of(unit: &UnitData, entry: &DebugEntry) -> (r: Result<RustTypeId, ParsingError>)
    requires
        holds(*unit, *entry),
    ensures
        crate::die_extensions::type_result(r) == type_of(*unit, *entry),
        r matches Ok(id) ==> mentioned(*unit, id),
{
    proof {
        lemma_type_mentioned(*unit, *entry, MAX_REFERENCE_DEPTH as nat);
        crate::die_extensions::lemma_resolved_kind(
            *unit,
            *entry,
            Property::TypeId,
            Seq::empty(),
            MAX_REFERENCE_DEPTH as nat,
        );
    }
    entry.try_get_type_id(unit)
}

fn append_ids(into: &mut Vec<RustTypeId>, ids: &Vec<RustTypeId>)
    ensures
        final(into)@ == old(into)@ + ids@,
{
    let mut i: usize = 0;
    proof {
        assert(into@ =~= old(into)@ + ids@.subrange(0, 0));
    }
    while i < ids.len()
        invariant
            i <= ids.len(),
            into@ == old(into)@ + ids@.subrange(0, i as int),
        decreases ids.len() - i,
    {
        into.push(ids[i]);
        proof {
            assert(into@ =~= old(into)@ + ids@.subrange(0, i + 1));
        }
        i += 1;
    }
    proof {
        assert(ids@.subrange(0, ids.len() as int) =~= ids@);
    }
}

fn primitive_error(encoding: Option<u8>, size: Option<u64>, offset: usize) -> (e: ParsingError)
    ensures
        e@ == primitive_error_text(encoding, size, offset),
{
    let mut text = String::from_str("Encoding ");
    match encoding {
        Some(e) => {
            text.append("Some(DwAte(");
            text.append(decimal(e as u64).as_str());
            text.append("))");
            proof {
                assert(text@ =~= "Encoding "@ + encoding_text(encoding));
            }
        },
        None => {
            text.append("None");
        },
    }
    text.append(" doesn't match byte site ");
    let ghost before = text@;
    match size {
        Some(s) => {
            text.append("Some(");
            text.append(decimal(s).as_str());
            text.append(")");
            proof {
                assert(text@ =~= before + size_text(size));
            }
        },
        None => {
            text.append("None");
        },
    }
    text.append(", type at offfset ");
    text.append(decimal(offset as u64).as_str());
    text.append(" (hex ");
    text.append(lower_hex(offset as u64).as_str());
    text.append(")");
    ParsingError::Failure(text)
}

/// Parses a base type: its encoding and its size name a scalar type.
pub fn parse_primitive_type(entry: &DebugEntry) -> (r: Result<RustType, ParsingError>)
    ensures
        match r {
            Ok(t) => parsed_primitive(*entry) == Ok::<RustTypeView, Seq<char>>(t@),
            Err(e) => parsed_primitive(*entry) == Err::<RustTypeView, Seq<char>>(e@),
        },
{
    let size: Option<u64> = match entry.attr(DW_AT_BYTE_SIZE) {
        Some(AttributeValue::Udata(s)) => Some(*s),
        _ => None,
    };
    let encoding: Option<u8> = match entry.attr(DW_AT_ENCODING) {
        Some(AttributeValue::Encoding(e)) => Some(*e),
        _ => None,
    };
    if let (Some(e), Some(s)) = (encoding, size) {
        if e == DW_ATE_SIGNED && s == 1 {
            return Ok(RustType::I8);
        } else if e == DW_ATE_SIGNED && s == 2 {
            return Ok(RustType::I16);
        } else if e == DW_ATE_SIGNED && s == 4 {
            return Ok(RustType::I32);
        } else if e == DW_ATE_SIGNED && s == 8 {
            return Ok(RustType::I64);
        } else if e == DW_ATE_SIGNED && s == 16 {
            return Ok(RustType::I128);
        } else if e == DW_ATE_UNSIGNED && s == 1 {
            return Ok(RustType::U8);
        } else if e == DW_ATE_UNSIGNED && s == 2 {
            return Ok(RustType::U16);
        } else if e == DW_ATE_UNSIGNED && s == 4 {
            return Ok(RustType::U32);
        } else if e == DW_ATE_UNSIGNED && s == 8 {
            return Ok(RustType::U64);
        } else if e == DW_ATE_UNSIGNED && s == 16 {
            return Ok(RustType::U128);
        } else if e == DW_ATE_FLOAT && s == 4 {
            return Ok(RustType::F32);
        } else if e == DW_ATE_FLOAT && s == 8 {
            return Ok(RustType::F64);
        } else if e == DW_ATE_BOOLEAN && s == 1 {
            return Ok(RustType::Bool);
        }
    }
    Err(primitive_error(encoding, size, entry.offset))
}

fn element_count(unit: &UnitData, entry: &DebugEntry) -> (count: u64)
    ensures
        count == element_count_from(*unit, entry.children@, 0),
{
    let mut i: usize = 0;
    while i < entry.children.len()
        invariant
            i <= entry.children.len(),
            element_count_from(*unit, entry.children@, i as int) == element_count_from(
                *unit,
                entry.children@,
                0,
            ),
        decreases entry.children.len() - i,
    {
        let index = entry.children[i];
        if index < unit.entries.len() {
            let child = &unit.entries[index];
            if child.tag == DW_TAG_SUBRANGE_TYPE {
                match child.attr(DW_AT_COUNT) {
                    Some(AttributeValue::Data1(c)) => { return *c as u64; },
                    Some(AttributeValue::Data2(c)) => { return *c as u64; },
                    Some(AttributeValue::Data4(c)) => { return *c as u64; },
                    Some(AttributeValue::Data8(c)) => { return *c; },
                    _ => {},
                }
            }
        }
        i += 1;
    }
    0
}

/// Parses a pointer or reference type.
pub fn parse_pointer_type(unit: &UnitData, entry: &DebugEntry) -> (r: (
    Result<RustType, ParsingError>,
    Vec<RustTypeId>,
))
    requires
        holds(*unit, *entry),
    ensures
        parsed_view(r) == parsed_pointer(*unit, *entry),
        all_mentioned(*unit, r.1@),
{
    let mut wanted: Vec<RustTypeId> = Vec::new();
    match type_id_of(unit, entry) {
        Ok(id) => {
            wanted.push(id);
            proof {
                assert(wanted@ =~= seq![id]);
            }
            (Ok(RustType::Reference { referent_id: Box::new(id) }), wanted)
        },
        Err(e) => (Err(e), wanted),
    }
}

/// Parses an array type.
pub fn parse_array_type(unit: &UnitData, entry: &DebugEntry) -> (r: (
    Result<RustType, ParsingError>,
    Vec<RustTypeId>,
))
    requires
        holds(*unit, *entry),
    ensures
        parsed_view(r) == parsed_array(*unit, *entry),
        all_mentioned(*unit, r.1@),
{
    let mut wanted: Vec<RustTypeId> = Vec::new();
    match type_id_of(unit, entry) {
        Ok(id) => {
            wanted.push(id);
            proof {
                assert(wanted@ =~= seq![id]);
            }
            let element_count = element_count(unit, entry);
            (Ok(RustType::Array { element_type_id: Box::new(id), element_count }), wanted)
        },
        Err(e) => (Err(e), wanted),
    }
}

/// Parses one variant of a variant part.
pub fn parse_variant(unit: &UnitData, entry: &DebugEntry) -> (r: (
    Result<Variant, ParsingError>,
    Vec<RustTypeId>,
))
    ensures
        parsed_variant_view(r) == parsed_variant(*unit, *entry),
        all_mentioned(*unit, r.1@),
{
    let mut wanted: Vec<RustTypeId> = Vec::new();
    let value = match entry.try_get_as_u64(DW_AT_DISCR_VALUE) {
        Ok(value) => value,
        Err(e) => { return (Err(e), wanted); },
    };
    let mut found: Option<Variant> = None;
    let mut i: usize = 0;
    while i < entry.children.len()
        invariant
            i <= entry.children.len(),
            all_mentioned(*unit, wanted@),
            variant_members(
                *unit,
                entry.children@,
                i as int,
                value,
                entry.offset,
                match found {
                    Some(v) => Some(v@),
                    None => None,
                },
                wanted@,
            ) == parsed_variant(*unit, *entry),
        decreases entry.children.len() - i,
    {
        let index = entry.children[i];
        if index < unit.entries.len() {
            let child = &unit.entries[index];
            if child.tag == DW_TAG_MEMBER {
                assert(unit.entries@[index as int] == *child);
                let id = match type_id_of(unit, child) {
                    Ok(id) => id,
                    Err(e) => { return (Err(e), wanted); },
                };
                wanted.push(id);
                if found.is_some() {
                    return (
                        Err(error("Found more than one member in a variant", entry)),
                        wanted,
                    );
                }
                let discr_name = match child.try_get_name(unit) {
                    Ok(name) => name,
                    Err(e) => { return (Err(e), wanted); },
                };
                let offset = match child.try_get_data_member_location() {
                    Ok(offset) => offset,
                    Err(e) => { return (Err(e), wanted); },
                };
                found = Some(Variant { discr_name, discr_value: value, rust_type_id: id, offset });
            }
        }
        i += 1;
    }
    match found {
        Some(v) => (Ok(v), wanted),
        None => (Err(error("Unable to extract variant type", entry)), wanted),
    }
}

/// Parses the variant part of a struct of `size` bytes.
pub fn parse_variant_part(unit: &UnitData, size: u64, entry: &DebugEntry) -> (r: (
    Result<RustType, ParsingError>,
    Vec<RustTypeId>,
))
    ensures
        parsed_view(r) == parsed_variant_part(*unit, size, *entry),
        all_mentioned(*unit, r.1@),
{
    let mut wanted: Vec<RustTypeId> = Vec::new();
    let target = match entry.attr(DW_AT_DISCR) {
        None => {
            return (Err(error("Failed to find DW_AT_discr value", entry)), wanted);
        },
        Some(AttributeValue::UnitRef(target)) => *target,
        Some(_) => {
            return (Err(error("DW_AT_discr is not a UnitRef", entry)), wanted);
        },
    };
    let index = match unit.find(target) {
        Some(index) => index,
        None => {
            return (Err(error("Could not find the entry of DW_AT_discr", entry)), wanted);
        },
    };
    let discr = &unit.entries[index];
    assert(unit.entries@[index as int] == *discr);
    let id = match type_id_of(unit, discr) {
        Ok(id) => id,
        Err(e) => { return (Err(e), wanted); },
    };
    wanted.push(id);
    proof {
        assert(wanted@ =~= seq![id]);
    }
    let place = match discr.try_get_data_member_location() {
        Ok(place) => place,
        Err(e) => { return (Err(e), wanted); },
    };
    let discriminant = Discriminant { rust_type_id: id, offset: place };
    let mut variants: Vec<Variant> = Vec::new();
    let mut i: usize = 0;
    proof {
        assert(variant_views(variants@) =~= Seq::empty());
    }
    while i < entry.children.len()
        invariant
            i <= entry.children.len(),
            all_mentioned(*unit, wanted@),
            variants_from(
                *unit,
                entry.children@,
                i as int,
                discriminant,
                size,
                entry.offset,
                variant_views(variants@),
                wanted@,
            ) == parsed_variant_part(*unit, size, *entry),
        decreases entry.children.len() - i,
    {
        let child_index = entry.children[i];
        if child_index < unit.entries.len() {
            let child = &unit.entries[child_index];
            if child.tag == DW_TAG_VARIANT {
                let (result, more) = parse_variant(unit, child);
                append_ids(&mut wanted, &more);
                match result {
                    Ok(v) => {
                        proof {
                            assert(variant_views(variants@.push(v)) =~= variant_views(
                                variants@,
                            ).push(v@));
                        }
                        variants.push(v);
                    },
                    Err(e) => { return (Err(e), wanted); },
                }
            }
        }
        i += 1;
    }
    if variants.len() > 0 {
        (Ok(RustType::VariantPart { discriminant, variants, size }), wanted)
    } else {
        (Err(error("Could not parse an variant type", entry)), wanted)
    }
}

/// Parses a struct type, or the variant part that it holds.
pub fn parse_struct_type(unit: &UnitData, entry: &DebugEntry) -> (r: (
    Result<RustType, ParsingError>,
    Vec<RustTypeId>,
))
    ensures
        parsed_view(r) == parsed_struct(*unit, *entry),
        all_mentioned(*unit, r.1@),
{
    let mut wanted: Vec<RustTypeId> = Vec::new();
    let name = match entry.try_get_name(unit) {
        Ok(name) => name,
        Err(e) => { return (Err(e), wanted); },
    };
    let size = match entry.try_get_byte_size() {
        Ok(size) => size,
        Err(e) => { return (Err(e), wanted); },
    };
    let mut fields: Vec<StructField> = Vec::new();
    let mut i: usize = 0;
    proof {
        assert(field_views(fields@) =~= Seq::empty());
    }
    while i < entry.children.len()
        invariant
            i <= entry.children.len(),
            all_mentioned(*unit, wanted@),
            struct_members(
                *unit,
                entry.children@,
                i as int,
                name@,
                size,
                entry.offset,
                field_views(fields@),
                wanted@,
            ) == parsed_struct(*unit, *entry),
        decreases entry.children.len() - i,
    {
        let index = entry.children[i];
        if index < unit.entries.len() {
            let child = &unit.entries[index];
            assert(unit.entries@[index as int] == *child);
            if child.tag == DW_TAG_VARIANT_PART {
                if fields.len() > 0 {
                    return (
                        Err(error("Found a variant part in a struct with fields", entry)),
                        wanted,
                    );
                }
                let (result, more) = parse_variant_part(unit, size, child);
                append_ids(&mut wanted, &more);
                return (result, wanted);
            } else if child.tag == DW_TAG_MEMBER {
                let field_name = match child.try_get_name(unit) {
                    Ok(name) => name,
                    Err(e) => { return (Err(e), wanted); },
                };
                let id = match type_id_of(unit, child) {
                    Ok(id) => id,
                    Err(e) => { return (Err(e), wanted); },
                };
                wanted.push(id);
                let offset = match child.try_get_data_member_location() {
                    Ok(offset) => offset,
                    Err(e) => { return (Err(e), wanted); },
                };
                let field = StructField { name: field_name, field_type_id: id, offset };
                proof {
                    assert(field_views(fields@.push(field)) =~= field_views(fields@).push(field@));
                }
                fields.push(field);
            }
        }
        i += 1;
    }
    (Ok(RustType::Struct { name, size, fields, is_tuple_struct: false }), wanted)
}

/// Parses an enum type.
pub fn parse_enum_type(unit: &UnitData, entry: &DebugEntry) -> (r: Result<RustType, ParsingError>)
    ensures
        match r {
            Ok(t) => parsed_enum(*unit, *entry) == Ok::<RustTypeView, Seq<char>>(t@),
            Err(e) => parsed_enum(*unit, *entry) == Err::<RustTypeView, Seq<char>>(e@),
        },
{
    let name = match entry.try_get_name(unit) {
        Ok(name) => name,
        Err(e) => { return Err(e); },
    };
    let mut variants: Vec<EnumVariant> = Vec::new();
    let mut i: usize = 0;
    proof {
        assert(enum_variant_views(variants@) =~= Seq::empty());
    }
    while i < entry.children.len()
        invariant
            i <= entry.children.len(),
            enumerators_from(
                *unit,
                entry.children@,
                i as int,
                name@,
                enum_variant_views(variants@),
            ) == parsed_enum(*unit, *entry),
        decreases entry.children.len() - i,
    {
        let index = entry.children[i];
        if index < unit.entries.len() {
            let child = &unit.entries[index];
            if child.tag == DW_TAG_ENUMERATOR {
                let variant_name = match child.try_get_name(unit) {
                    Ok(name) => name,
                    Err(e) => { return Err(e); },
                };
                let variant = EnumVariant {
                    name: variant_name,
                    variant_type: EnumVariantType::Unit,
                };
                proof {
                    assert(enum_variant_views(variants@.push(variant)) =~= enum_variant_views(
                        variants@,
                    ).push(variant@));
                }
                variants.push(variant);
            }
        }
        i += 1;
    }
    proof {
        lemma_enum_views(name, variants);
    }
    Ok(RustType::Enum { name, variants })
}

/// Parses the type that an entry of the unit stands for.
pub fn parse_variable_type(unit: &UnitData, entry: &DebugEntry) -> (r: (
    Result<RustType, ParsingError>,
    Vec<RustTypeId>,
))
    requires
        holds(*unit, *entry),
    ensures
        parsed_view(r) == parsed_type(*unit, *entry),
        all_mentioned(*unit, r.1@),
{
    if entry.tag == DW_TAG_BASE_TYPE {
        (parse_primitive_type(entry), Vec::new())
    } else if entry.tag == DW_TAG_POINTER_TYPE {
        parse_pointer_type(unit, entry)
    } else if entry.tag == DW_TAG_ARRAY_TYPE {
        parse_array_type(unit, entry)
    } else if entry.tag == DW_TAG_STRUCTURE_TYPE {
        parse_struct_type(unit, entry)
    } else if entry.tag == DW_TAG_ENUMERATION_TYPE {
        (parse_enum_type(unit, entry), Vec::new())
    } else {
        let mut msg = String::from_str("Found an unsupported type ");
        msg.append(tag_name(entry.tag).as_str());
        (Err(error(msg.as_str(), entry)), Vec::new())
    }
}

/// Whether the child at place `i` is neither a member nor a variant part, so
/// that a struct passes over it.
pub open spec fn passed_over(unit: UnitData, children: Seq<usize>, i: int) -> bool {
    match child_entry(unit, children, i) {
        Some(child) => child.tag != DW_TAG_MEMBER && child.tag != DW_TAG_VARIANT_PART,
        None => true,
    }
}

/// A struct whose first child that is a member or a variant part is a
/// variant part is never reported as a struct: it is the variant part, or an
/// error.
pub proof fn lemma_variant_part_wins(unit: UnitData, entry: DebugEntry, k: int)
    requires
        entry.tag == DW_TAG_STRUCTURE_TYPE,
        child_entry(unit, entry.children@, k) matches Some(child) && child.tag
            == DW_TAG_VARIANT_PART,
        forall|i: int| 0 <= i < k ==> #[trigger] passed_over(unit, entry.children@, i),
    ensures
        parsed_type(unit, entry).result matches Ok(t) ==> t is VariantPart,
        !(parsed_type(unit, entry).result matches Ok(t) && t is Struct),
{
    if let Ok(name) = text_of(unit, entry, Property::Name) {
        if let Ok(size) = number_of(entry, DW_AT_BYTE_SIZE) {
            lemma_struct_skips(unit, entry.children@, 0, k, name, size, entry.offset);
            let child = child_entry(unit, entry.children@, k)->0;
            lemma_variant_part_kind(unit, size, child);
        }
    }
}

proof fn lemma_struct_skips(
    unit: UnitData,
    children: Seq<usize>,
    from: int,
    k: int,
    name: Seq<char>,
    size: u64,
    offset: usize,
)
    requires
        0 <= from <= k < children.len(),
        forall|i: int| from <= i < k ==> #[trigger] passed_over(unit, children, i),
    ensures
        struct_members(unit, children, from, name, size, offset, Seq::empty(), Seq::empty())
            == struct_members(unit, children, k, name, size, offset, Seq::empty(), Seq::empty()),
    decreases k - from,
{
    if from < k {
        assert(passed_over(unit, children, from));
        lemma_struct_skips(unit, children, from + 1, k, name, size, offset);
    }
}

proof fn lemma_variant_part_kind(unit: UnitData, size: u64, entry: DebugEntry)
    ensures
        parsed_variant_part(unit, size, entry).result matches Ok(t) ==> t is VariantPart,
{
    if let Some(AttributeValue::UnitRef(target)) = entry.attr_value(DW_AT_DISCR) {
        if let Some(index) = unit.position(target) {
            if 0 <= index < unit.entries@.len() {
                let discr = unit.entries@[index];
                if let Ok(id) = type_of(unit, discr) {
                    if let Ok(place) = number_of(discr, DW_AT_DATA_MEMBER_LOCATION) {
                        lemma_variants_kind(
                            unit,
                            entry.children@,
                            0,
                            Discriminant { rust_type_id: id, offset: place },
                            size,
                            entry.offset,
                            Seq::empty(),
                            seq![id],
                        );
                    }
                }
            }
        }
    }
}

proof fn lemma_variants_kind(
    unit: UnitData,
    children: Seq<usize>,
    from: int,
    discriminant: Discriminant,
    size: u64,
    offset: usize,
    variants: Seq<VariantView>,
    wanted: Seq<RustTypeId>,
)
    ensures
        variants_from(unit, children, from, discriminant, size, offset, variants, wanted).result matches Ok(
            t,
        ) ==> t is VariantPart,
    decreases children.len() - from,
{
    if 0 <= from < children.len() {
        match child_entry(unit, children, from) {
            Some(child) => {
                if child.tag == DW_TAG_VARIANT {
                    let p = parsed_variant(unit, child);
                    if let Ok(v) = p.result {
                        lemma_variants_kind(
                            unit,
                            children,
                            from + 1,
                            discriminant,
                            size,
                            offset,
                            variants.push(v),
                            wanted + p.wanted,
                        );
                    }
                } else {
                    lemma_variants_kind(
                        unit,
                        children,
                        from + 1,
                        discriminant,
                        size,
                        offset,
                        variants,
                        wanted,
                    );
                }
            },
            None => {
                lemma_variants_kind(
                    unit,
                    children,
                    from + 1,
                    discriminant,
                    size,
                    offset,
                    variants,
                    wanted,
                );
            },
        }
    }
}


/// The index of the first unit at offset `offset` from index `from` on.
pub open spec fn unit_position_from(units: Seq<UnitData>, offset: usize, from: int) -> Option<int>
    decreases units.len() - from,
{
    if from < 0 || from >= units.len() {
        None
    } else if units[from].offset == offset {
        Some(from)
    } else {
        unit_position_from(units, offset, from + 1)
    }
}

/// The message for a type whose unit is not among the units.
pub open spec fn no_unit_text(id: RustTypeId) -> Seq<char> {
    "Could not find the unit at offset "@ + decimal_text(id.1 as nat)
}

/// The message for a type whose entry is not among the entries of its unit.
pub open spec fn no_entry_text(id: RustTypeId) -> Seq<char> {
    offset_error_text("Could not find the entry of the type"@, id.0)
}

/// What parsing the type with the given id gives: the entry at the id's
/// offset in the unit at the id's unit offset is parsed.
#[verifier::opaque]
pub open spec fn type_at(units: Seq<UnitData>, id: RustTypeId) -> Parsed {
    match unit_position_from(units, id.1, 0) {
        Some(u) => if 0 <= u < units.len() {
            match units[u].position(id.0) {
                Some(i) => if 0 <= i < units[u].entries@.len() {
                    parsed_type(units[u], units[u].entries@[i])
                } else {
                    failed(no_entry_text(id))
                },
                None => failed(no_entry_text(id)),
            }
        } else {
            failed(no_unit_text(id))
        },
        None => failed(no_unit_text(id)),
    }
}

/// The types that the type with the given id names.
pub open spec fn wanted_by(units: Seq<UnitData>, id: RustTypeId) -> Seq<RustTypeId> {
    type_at(units, id).wanted
}

/// Whether `id` is reached from the seeds in at most `steps` steps, a step
/// leading from a type to a type that it names.
pub open spec fn reaches(units: Seq<UnitData>, seeds: Seq<RustTypeId>, id: RustTypeId, steps: nat) -> bool
    decreases steps,
{
    if steps == 0 {
        seeds.contains(id)
    } else {
        reaches(units, seeds, id, (steps - 1) as nat) || exists|from: RustTypeId|
            reaches(units, seeds, from, (steps - 1) as nat) && #[trigger] wanted_by(
                units,
                from,
            ).contains(id)
    }
}

/// Whether `id` is a seed, or a type that a seed names, or a type that such
/// a type names, and so on.
pub open spec fn reachable(units: Seq<UnitData>, seeds: Seq<RustTypeId>, id: RustTypeId) -> bool {
    exists|steps: nat| reaches(units, seeds, id, steps)
}

/// The types that were parsed, of the ids of `order`, in that order.
pub open spec fn nodes_of(units: Seq<UnitData>, order: Seq<RustTypeId>) -> Seq<
    (RustTypeId, RustTypeView),
>
    decreases order.len(),
{
    if order.len() == 0 {
        Seq::empty()
    } else {
        match type_at(units, order.last()).result {
            Ok(t) => nodes_of(units, order.drop_last()).push((order.last(), t)),
            Err(_) => nodes_of(units, order.drop_last()),
        }
    }
}

/// The message for a type that could not be parsed.
pub open spec fn type_error_text(reason: Seq<char>) -> Seq<char> {
    "Type Parsing Error: "@ + ("Parsing failed: "@ + reason)
}

/// The messages for the types that could not be parsed, of the ids of
/// `order`, in that order.
pub open spec fn errors_of(units: Seq<UnitData>, order: Seq<RustTypeId>) -> Seq<Seq<char>>
    decreases order.len(),
{
    if order.len() == 0 {
        Seq::empty()
    } else {
        match type_at(units, order.last()).result {
            Ok(_) => errors_of(units, order.drop_last()),
            Err(m) => errors_of(units, order.drop_last()).push(type_error_text(m)),
        }
    }
}

/// Whether `order` holds every type that is reached from the seeds, each
/// once, and no other.
pub open spec fn processing_order(units: Seq<UnitData>, seeds: Seq<RustTypeId>, order: Seq<RustTypeId>) -> bool {
    &&& order.no_duplicates()
    &&& forall|id: RustTypeId| order.contains(id) <==> #[trigger] reachable(units, seeds, id)
}

/// The values of a sequence of type nodes, in order.
pub open spec fn node_views(nodes: Seq<(RustTypeId, RustType)>) -> Seq<(RustTypeId, RustTypeView)> {
    nodes.map_values(|n: (RustTypeId, RustType)| (n.0, n.1@))
}

/// The type ids that the type attributes among `attrs` name, in a unit at
/// `offset`.
pub open spec fn attr_refs(offset: usize, attrs: Seq<Attribute>) -> Seq<RustTypeId>
    decreases attrs.len(),
{
    if attrs.len() == 0 {
        Seq::empty()
    } else {
        let before = attr_refs(offset, attrs.drop_last());
        if attrs.last().name == DW_AT_TYPE {
            match attrs.last().value {
                AttributeValue::UnitRef(target) => before.push(RustTypeId(target, offset)),
                _ => before,
            }
        } else {
            before
        }
    }
}

/// The type ids that the type attributes of `entries` name.
pub open spec fn entry_refs(offset: usize, entries: Seq<DebugEntry>) -> Seq<RustTypeId>
    decreases entries.len(),
{
    if entries.len() == 0 {
        Seq::empty()
    } else {
        entry_refs(offset, entries.drop_last()) + attr_refs(offset, entries.last().attributes@)
    }
}

/// The type ids that the type attributes of all units name.
pub open spec fn unit_refs(units: Seq<UnitData>) -> Seq<RustTypeId>
    decreases units.len(),
{
    if units.len() == 0 {
        Seq::empty()
    } else {
        unit_refs(units.drop_last()) + entry_refs(units.last().offset, units.last().entries@)
    }
}

proof fn lemma_attr_refs(offset: usize, attrs: Seq<Attribute>, j: int, target: usize)
    requires
        0 <= j < attrs.len(),
        attrs[j].name == DW_AT_TYPE,
        attrs[j].value == AttributeValue::UnitRef(target),
    ensures
        attr_refs(offset, attrs).contains(RustTypeId(target, offset)),
    decreases attrs.len(),
{
    let id = RustTypeId(target, offset);
    if j == attrs.len() - 1 {
        let all = attr_refs(offset, attrs);
        assert(all[all.len() - 1] == id);
    } else {
        lemma_attr_refs(offset, attrs.drop_last(), j, target);
        let before = attr_refs(offset, attrs.drop_last());
        let k = choose|k: int| 0 <= k < before.len() && before[k] == id;
        assert(attr_refs(offset, attrs)[k] == id);
    }
}

proof fn lemma_entry_refs(offset: usize, entries: Seq<DebugEntry>, i: int, id: RustTypeId)
    requires
        0 <= i < entries.len(),
        attr_refs(offset, entries[i].attributes@).contains(id),
    ensures
        entry_refs(offset, entries).contains(id),
    decreases entries.len(),
{
    let before = entry_refs(offset, entries.drop_last());
    let last = attr_refs(offset, entries.last().attributes@);
    if i == entries.len() - 1 {
        let k = choose|k: int| 0 <= k < last.len() && last[k] == id;
        assert((before + last)[before.len() + k] == id);
    } else {
        lemma_entry_refs(offset, entries.drop_last(), i, id);
        let k = choose|k: int| 0 <= k < before.len() && before[k] == id;
        assert((before + last)[k] == id);
    }
}

/// A type that is mentioned in one of the units is among the type ids that
/// the units name.
pub proof fn lemma_unit_refs(units: Seq<UnitData>, u: int, id: RustTypeId)
    requires
        0 <= u < units.len(),
        mentioned(units[u], id),
    ensures
        unit_refs(units).contains(id),
    decreases units.len(),
{
    let before = unit_refs(units.drop_last());
    let last = entry_refs(units.last().offset, units.last().entries@);
    if u == units.len() - 1 {
        let unit = units[u];
        let (i, j) = choose|i: int, j: int|
            0 <= i < unit.entries@.len() && 0 <= j < unit.entries@[i].attributes@.len() && (
            #[trigger] unit.entries@[i].attributes@[j]).name == DW_AT_TYPE
                && unit.entries@[i].attributes@[j].value == AttributeValue::UnitRef(id.0);
        lemma_attr_refs(unit.offset, unit.entries@[i].attributes@, j, id.0);
        lemma_entry_refs(unit.offset, unit.entries@, i, id);
        let k = choose|k: int| 0 <= k < last.len() && last[k] == id;
        assert((before + last)[before.len() + k] == id);
    } else {
        lemma_unit_refs(units.drop_last(), u, id);
        let k = choose|k: int| 0 <= k < before.len() && before[k] == id;
        assert((before + last)[k] == id);
    }
}

/// Whether the integer of `id` is in `seen`.
pub open spec fn seen_id(seen: Set<u128>, id: RustTypeId) -> bool {
    seen.contains(crate::worklist::WorkItem::key(&id))
}

/// What holds between two steps of the type resolver, of the ids that wait
/// in `queue`, the integers `seen` of the ids that were ever wanted, and the
/// ids `done` that were parsed: every id that was wanted either waits or is
/// done, never both and never twice; only ids that are reached from the
/// seeds were wanted; the seeds were wanted, and so was every id that a done
/// type names; and all of them are among finitely many.
pub open spec fn resolving(
    units: Seq<UnitData>,
    seeds: Seq<RustTypeId>,
    universe: Set<u128>,
    queue: Seq<RustTypeId>,
    seen: Set<u128>,
    done: Seq<RustTypeId>,
) -> bool {
    &&& seen.finite()
    &&& universe.finite()
    &&& queue.no_duplicates()
    &&& done.no_duplicates()
    &&& forall|id: RustTypeId| #[trigger]
        seen_id(seen, id) <==> done.contains(id) || queue.contains(id)
    &&& forall|id: RustTypeId| !(#[trigger] done.contains(id) && queue.contains(id))
    &&& forall|id: RustTypeId| #[trigger] seen_id(seen, id) ==> reachable(units, seeds, id)
    &&& forall|id: RustTypeId| #[trigger] seeds.contains(id) ==> seen_id(seen, id)
    &&& forall|from: RustTypeId, id: RustTypeId|
        done.contains(from) && #[trigger] wanted_by(units, from).contains(id) ==> seen_id(
            seen,
            id,
        )
    &&& forall|k: u128| seen.contains(k) ==> universe.contains(k)
}

/// The integers of a sequence of ids hold the integer of an id exactly when
/// the sequence holds the id.
pub proof fn lemma_keys_of_ids(ids: Seq<RustTypeId>, id: RustTypeId)
    ensures
        seen_id(crate::worklist::item_keys(ids), id) <==> ids.contains(id),
{
    if seen_id(crate::worklist::item_keys(ids), id) {
        let i = choose|i: int|
            0 <= i < ids.len() && #[trigger] crate::worklist::WorkItem::key(&ids[i])
                == crate::worklist::WorkItem::key(&id);
        <RustTypeId as crate::worklist::WorkItem>::key_injective(&ids[i], &id);
    }
    if ids.contains(id) {
        let i = choose|i: int| 0 <= i < ids.len() && ids[i] == id;
        assert(crate::worklist::WorkItem::key(&ids[i]) == crate::worklist::WorkItem::key(&id));
    }
}

/// Ids that are added to a queue without doubles, that has seen all its
/// ids, leave it without doubles.
proof fn lemma_added_distinct(queue: Seq<RustTypeId>, seen: Set<u128>, items: Seq<RustTypeId>)
    requires
        queue.no_duplicates(),
        forall|id: RustTypeId| #[trigger] queue.contains(id) ==> seen_id(seen, id),
    ensures
        crate::worklist::added_queue(queue, seen, items).no_duplicates(),
    decreases items.len(),
{
    if items.len() > 0 {
        let rest = items.subrange(1, items.len() as int);
        let first = items[0];
        if seen.contains(crate::worklist::WorkItem::key(&first)) {
            lemma_added_distinct(queue, seen, rest);
            assert(crate::worklist::added_queue(queue, seen, items)
                == crate::worklist::added_queue(queue, seen, rest));
        } else {
            let longer = queue.push(first);
            let more = seen.insert(crate::worklist::WorkItem::key(&first));
            assert(!seen_id(seen, first));
            assert(longer.no_duplicates()) by {
                assert forall|i: int, j: int|
                    0 <= i < longer.len() && 0 <= j < longer.len() && i != j implies longer[i]
                    != longer[j] by {
                    if i == queue.len() {
                        assert(queue.contains(queue[j]));
                    } else if j == queue.len() {
                        assert(queue.contains(queue[i]));
                    }
                }
            }
            assert forall|id: RustTypeId| #[trigger] longer.contains(id) implies seen_id(
                more,
                id,
            ) by {
                let i = choose|i: int| 0 <= i < longer.len() && longer[i] == id;
                if i < queue.len() {
                    assert(queue.contains(queue[i]));
                    assert(seen_id(seen, id));
                }
            }
            lemma_added_distinct(longer, more, rest);
            assert(crate::worklist::added_queue(queue, seen, items)
                == crate::worklist::added_queue(longer, more, rest));
        }
    }
}

/// One step of the type resolver keeps what holds between steps: the id at
/// the head of the queue is done, and the ids that its type names are
/// wanted. The step makes the queue longer by as many ids as it makes the
/// set of seen integers larger, less the one that is done.
pub proof fn lemma_resolving_step(
    units: Seq<UnitData>,
    seeds: Seq<RustTypeId>,
    universe: Set<u128>,
    queue: Seq<RustTypeId>,
    seen: Set<u128>,
    done: Seq<RustTypeId>,
)
    requires
        resolving(units, seeds, universe, queue, seen, done),
        queue.len() > 0,
        forall|id: RustTypeId| #[trigger]
            wanted_by(units, queue[0]).contains(id) ==> universe.contains(
                crate::worklist::WorkItem::key(&id),
            ),
    ensures
        ({
            let wanted = wanted_by(units, queue[0]);
            let rest = queue.subrange(1, queue.len() as int);
            let after = crate::worklist::added_queue(rest, seen, wanted);
            let seen_after = seen.union(crate::worklist::item_keys(wanted));
            &&& resolving(units, seeds, universe, after, seen_after, done.push(queue[0]))
            &&& after.len() - rest.len() == seen_after.len() - seen.len()
            &&& seen_after.len() <= universe.len()
        }),
{
    let node = queue[0];
    let wanted = wanted_by(units, node);
    let rest = queue.subrange(1, queue.len() as int);
    let after = crate::worklist::added_queue(rest, seen, wanted);
    let keys = crate::worklist::item_keys(wanted);
    let seen_after = seen.union(keys);
    let done_after = done.push(node);
    crate::worklist::lemma_added_queue_len(rest, seen, wanted);
    assert(queue.contains(node));
    assert(seen_id(seen, node));
    assert(!done.contains(node));
    assert forall|id: RustTypeId| queue.contains(id) <==> id == node || rest.contains(id) by {
        if queue.contains(id) {
            let i = choose|i: int| 0 <= i < queue.len() && queue[i] == id;
            if i > 0 {
                assert(rest[i - 1] == id);
            }
        }
        if rest.contains(id) {
            let i = choose|i: int| 0 <= i < rest.len() && rest[i] == id;
            assert(queue[i + 1] == id);
        }
    }
    assert(!rest.contains(node)) by {
        if rest.contains(node) {
            let i = choose|i: int| 0 <= i < rest.len() && rest[i] == node;
            assert(queue[i + 1] == queue[0]);
        }
    }
    assert(rest.no_duplicates()) by {
        assert forall|i: int, j: int|
            0 <= i < rest.len() && 0 <= j < rest.len() && i != j implies rest[i] != rest[j] by {
            assert(queue[i + 1] != queue[j + 1]);
        }
    }
    assert forall|id: RustTypeId| done_after.contains(id) <==> id == node || done.contains(id) by {
        if done_after.contains(id) {
            let i = choose|i: int| 0 <= i < done_after.len() && done_after[i] == id;
            if i < done.len() {
                assert(done[i] == id);
            }
        }
        if done.contains(id) {
            let i = choose|i: int| 0 <= i < done.len() && done[i] == id;
            assert(done_after[i] == id);
        }
        assert(done_after[done.len() as int] == node);
    }
    assert forall|id: RustTypeId| after.contains(id) <==> rest.contains(id) || (wanted.contains(
        id,
    ) && !seen_id(seen, id)) by {
        crate::worklist::lemma_added_queue_contains(rest, seen, wanted, id);
    }
    assert forall|id: RustTypeId| #[trigger] seen_id(seen_after, id) <==> seen_id(seen, id)
        || wanted.contains(id) by {
        lemma_keys_of_ids(wanted, id);
    }
    assert(after.no_duplicates()) by {
        assert forall|id: RustTypeId| #[trigger] rest.contains(id) implies seen_id(seen, id) by {
            assert(queue.contains(id));
        }
        lemma_added_distinct(rest, seen, wanted);
    }
    assert(done_after.no_duplicates()) by {
        assert forall|i: int, j: int|
            0 <= i < done_after.len() && 0 <= j < done_after.len() && i != j implies done_after[i]
            != done_after[j] by {
            if i == done.len() {
                assert(done.contains(done[j]));
            } else if j == done.len() {
                assert(done.contains(done[i]));
            }
        }
    }
    assert forall|id: RustTypeId| #[trigger]
        seen_id(seen_after, id) <==> done_after.contains(id) || after.contains(id) by {}
    assert forall|id: RustTypeId| !(#[trigger] done_after.contains(id) && after.contains(id)) by {
        if done_after.contains(id) && after.contains(id) {
            if id == node {
            } else {
                assert(done.contains(id));
                assert(seen_id(seen, id));
                assert(!queue.contains(id));
            }
        }
    }
    assert forall|id: RustTypeId| #[trigger] seen_id(seen_after, id) implies reachable(
        units,
        seeds,
        id,
    ) by {
        if !seen_id(seen, id) {
            assert(wanted_by(units, node).contains(id));
            assert(reachable(units, seeds, node));
            let steps = choose|steps: nat| reaches(units, seeds, node, steps);
            let next: nat = steps + 1;
            assert(reaches(units, seeds, node, (next - 1) as nat));
            assert(reaches(units, seeds, id, next));
        }
    }
    assert forall|id: RustTypeId| #[trigger] seeds.contains(id) implies seen_id(seen_after, id) by {
        assert(seen_id(seen, id));
    }
    assert forall|from: RustTypeId, id: RustTypeId|
        done_after.contains(from) && #[trigger] wanted_by(units, from).contains(
            id,
        ) implies seen_id(seen_after, id) by {
        if from != node {
            assert(done.contains(from));
            assert(seen_id(seen, id));
        }
    }
    assert forall|k: u128| seen_after.contains(k) implies universe.contains(k) by {
        if !seen.contains(k) {
            let i = choose|i: int|
                0 <= i < wanted.len() && #[trigger] crate::worklist::WorkItem::key(&wanted[i])
                    == k;
            assert(wanted_by(units, queue[0]).contains(wanted[i]));
        }
    }
    vstd::set_lib::lemma_len_subset(seen_after, universe);
}

/// Ids among which the seeds are, and every id that the type of one of them
/// names, hold every id that is reached from the seeds.
pub proof fn lemma_closure(
    units: Seq<UnitData>,
    seeds: Seq<RustTypeId>,
    done: Seq<RustTypeId>,
    id: RustTypeId,
    steps: nat,
)
    requires
        forall|seed: RustTypeId| #[trigger] seeds.contains(seed) ==> done.contains(seed),
        forall|from: RustTypeId, to: RustTypeId|
            done.contains(from) && #[trigger] wanted_by(units, from).contains(to)
                ==> done.contains(to),
        reaches(units, seeds, id, steps),
    ensures
        done.contains(id),
    decreases steps,
{
    if steps == 0 {
    } else if reaches(units, seeds, id, (steps - 1) as nat) {
        lemma_closure(units, seeds, done, id, (steps - 1) as nat);
    } else {
        let from = choose|from: RustTypeId|
            reaches(units, seeds, from, (steps - 1) as nat) && #[trigger] wanted_by(
                units,
                from,
            ).contains(id);
        lemma_closure(units, seeds, done, from, (steps - 1) as nat);
    }
}

/// When no id waits any more, the ids that are done are exactly those that
/// are reached from the seeds.
pub proof fn lemma_resolved_all(
    units: Seq<UnitData>,
    seeds: Seq<RustTypeId>,
    universe: Set<u128>,
    seen: Set<u128>,
    done: Seq<RustTypeId>,
)
    requires
        resolving(units, seeds, universe, Seq::empty(), seen, done),
    ensures
        processing_order(units, seeds, done),
{
    let queue = Seq::<RustTypeId>::empty();
    assert forall|id: RustTypeId| #[trigger] seen_id(seen, id) <==> done.contains(id) by {
        assert(!queue.contains(id));
    }
    assert forall|seed: RustTypeId| #[trigger] seeds.contains(seed) implies done.contains(
        seed,
    ) by {
        assert(seen_id(seen, seed));
    }
    assert forall|from: RustTypeId, to: RustTypeId|
        done.contains(from) && #[trigger] wanted_by(units, from).contains(
            to,
        ) implies done.contains(to) by {
        assert(seen_id(seen, to));
    }
    assert forall|id: RustTypeId| done.contains(id) <==> #[trigger] reachable(
        units,
        seeds,
        id,
    ) by {
        if done.contains(id) {
            assert(seen_id(seen, id));
        }
        if reachable(units, seeds, id) {
            let steps = choose|steps: nat| reaches(units, seeds, id, steps);
            lemma_closure(units, seeds, done, id, steps);
        }
    }
}


/// The integers of the ids that can ever be wanted: those of the seeds and
/// of the ids that the units name.
pub open spec fn universe_of(units: Seq<UnitData>, seeds: Seq<RustTypeId>) -> Set<u128> {
    crate::worklist::item_keys(seeds + unit_refs(units))
}

/// Before the first step of the type resolver, with the seeds in the queue,
/// what holds between steps holds.
pub proof fn lemma_resolving_start(units: Seq<UnitData>, seeds: Seq<RustTypeId>)
    ensures
        resolving(
            units,
            seeds,
            universe_of(units, seeds),
            crate::worklist::added_queue(Seq::empty(), Set::empty(), seeds),
            Set::<u128>::empty().union(crate::worklist::item_keys(seeds)),
            Seq::empty(),
        ),
{
    let none = Seq::<RustTypeId>::empty();
    let nothing = Set::<u128>::empty();
    let queue = crate::worklist::added_queue(none, nothing, seeds);
    let seen = nothing.union(crate::worklist::item_keys(seeds));
    let universe = universe_of(units, seeds);
    crate::worklist::lemma_added_queue_len(none, nothing, seeds);
    crate::worklist::lemma_item_keys_finite(seeds + unit_refs(units));
    lemma_added_distinct(none, nothing, seeds);
    assert(seen =~= crate::worklist::item_keys(seeds));
    assert forall|id: RustTypeId| #[trigger] seen_id(seen, id) <==> seeds.contains(id) by {
        lemma_keys_of_ids(seeds, id);
    }
    assert forall|id: RustTypeId| queue.contains(id) <==> seeds.contains(id) by {
        crate::worklist::lemma_added_queue_contains(none, nothing, seeds, id);
    }
    assert forall|id: RustTypeId| #[trigger] seen_id(seen, id) implies reachable(
        units,
        seeds,
        id,
    ) by {
        assert(reaches(units, seeds, id, 0));
    }
    assert forall|k: u128| seen.contains(k) implies universe.contains(k) by {
        let i = choose|i: int|
            0 <= i < seeds.len() && #[trigger] crate::worklist::WorkItem::key(&seeds[i]) == k;
        let all = seeds + unit_refs(units);
        assert(crate::worklist::WorkItem::key(&all[i]) == k);
    }
}

/// What was parsed of the ids of a sequence without doubles: no id twice,
/// and exactly the ids of the sequence whose type could be parsed, each with
/// its type.
pub proof fn lemma_nodes_of(units: Seq<UnitData>, order: Seq<RustTypeId>)
    requires
        order.no_duplicates(),
    ensures
        forall|i: int, j: int|
            0 <= i < j < nodes_of(units, order).len() ==> nodes_of(units, order)[i].0 != nodes_of(
                units,
                order,
            )[j].0,
        forall|i: int|
            0 <= i < nodes_of(units, order).len() ==> order.contains(
                (#[trigger] nodes_of(units, order)[i]).0,
            ) && type_at(units, nodes_of(units, order)[i].0).result == Ok::<
                RustTypeView,
                Seq<char>,
            >(nodes_of(units, order)[i].1),
        forall|id: RustTypeId| #[trigger]
            order.contains(id) && type_at(units, id).result is Ok ==> exists|i: int|
                0 <= i < nodes_of(units, order).len() && (#[trigger] nodes_of(units, order)[i]).0
                    == id,
    decreases order.len(),
{
    if order.len() > 0 {
        let front = order.drop_last();
        let last = order.last();
        let nodes = nodes_of(units, order);
        let before = nodes_of(units, front);
        assert(front.no_duplicates());
        lemma_nodes_of(units, front);
        assert(!front.contains(last)) by {
            if front.contains(last) {
                let i = choose|i: int| 0 <= i < front.len() && front[i] == last;
                assert(order[i] == order[order.len() - 1]);
            }
        }
        assert forall|id: RustTypeId| front.contains(id) implies order.contains(id) by {
            let i = choose|i: int| 0 <= i < front.len() && front[i] == id;
            assert(order[i] == id);
        }
        assert(order.contains(last)) by {
            assert(order[order.len() - 1] == last);
        }
        assert forall|i: int| 0 <= i < nodes.len() implies order.contains(
            (#[trigger] nodes[i]).0,
        ) && type_at(units, nodes[i].0).result == Ok::<RustTypeView, Seq<char>>(nodes[i].1) by {
            if i < before.len() {
                assert(nodes[i] == before[i]);
            }
        }
        assert forall|i: int, j: int| 0 <= i < j < nodes.len() implies nodes[i].0
            != nodes[j].0 by {
            assert(nodes[i] == before[i]);
            if j < before.len() {
                assert(nodes[j] == before[j]);
            } else {
                assert(front.contains(before[i].0));
            }
        }
        assert forall|id: RustTypeId| #[trigger]
            order.contains(id) && type_at(units, id).result is Ok implies exists|i: int|
            0 <= i < nodes.len() && (#[trigger] nodes[i]).0 == id by {
            let k = choose|k: int| 0 <= k < order.len() && order[k] == id;
            if k < front.len() {
                assert(front[k] == id);
                assert(front.contains(id));
                let i = choose|i: int| 0 <= i < before.len() && (#[trigger] before[i]).0 == id;
                assert(nodes[i].0 == id);
            } else {
                assert(nodes[nodes.len() - 1].0 == id);
            }
        }
    }
}

/// The type resolver parses no type twice, and what it gives is exactly the
/// types that are reached from the seeds and can be parsed: of the types
/// that a processing order gives, no two have the same id, each has the type
/// that parsing its id gives, and an id is among them exactly when it is
/// reached from the seeds and its type can be parsed.
pub proof fn lemma_type_graph(
    units: Seq<UnitData>,
    seeds: Seq<RustTypeId>,
    order: Seq<RustTypeId>,
    id: RustTypeId,
)
    requires
        processing_order(units, seeds, order),
    ensures
        forall|i: int, j: int|
            0 <= i < j < nodes_of(units, order).len() ==> nodes_of(units, order)[i].0 != nodes_of(
                units,
                order,
            )[j].0,
        forall|i: int|
            0 <= i < nodes_of(units, order).len() ==> type_at(
                units,
                (#[trigger] nodes_of(units, order)[i]).0,
            ).result == Ok::<RustTypeView, Seq<char>>(nodes_of(units, order)[i].1),
        (exists|i: int|
            0 <= i < nodes_of(units, order).len() && (#[trigger] nodes_of(units, order)[i]).0
                == id) <==> reachable(units, seeds, id) && type_at(units, id).result is Ok,
{
    lemma_nodes_of(units, order);
    let nodes = nodes_of(units, order);
    if exists|i: int| 0 <= i < nodes.len() && (#[trigger] nodes[i]).0 == id {
        let i = choose|i: int| 0 <= i < nodes.len() && (#[trigger] nodes[i]).0 == id;
        assert(order.contains(nodes[i].0));
        assert(reachable(units, seeds, id));
    }
    if reachable(units, seeds, id) && type_at(units, id).result is Ok {
        assert(order.contains(id));
    }
}

fn find_unit(units: &Vec<UnitData>, offset: usize) -> (index: Option<usize>)
    ensures
        match index {
            Some(i) => unit_position_from(units@, offset, 0) == Some(i as int) && i < units.len(),
            None => unit_position_from(units@, offset, 0) is None,
        },
{
    let mut i: usize = 0;
    while i < units.len()
        invariant
            i <= units.len(),
            unit_position_from(units@, offset, i as int) == unit_position_from(units@, offset, 0),
        decreases units.len() - i,
    {
        if units[i].offset == offset {
            return Some(i);
        }
        i += 1;
    }
    None
}

/// Parses the type with the given id: finds its unit and its entry, and
/// parses the entry.
pub fn parse_variable_type_at_offset(units: &Vec<UnitData>, id: RustTypeId) -> (r: (
    Result<RustType, ParsingError>,
    Vec<RustTypeId>,
))
    ensures
        parsed_view(r) == type_at(units@, id),
        forall|k: int| 0 <= k < r.1@.len() ==> unit_refs(units@).contains(#[trigger] r.1@[k]),
{
    reveal(type_at);
    let u = match find_unit(units, id.1) {
        Some(u) => u,
        None => {
            let mut text = String::from_str("Could not find the unit at offset ");
            text.append(decimal(id.1 as u64).as_str());
            return (Err(ParsingError::Failure(text)), Vec::new());
        },
    };
    let unit = &units[u];
    let i = match unit.find(id.0) {
        Some(i) => i,
        None => {
            return (
                Err(error_from_offset("Could not find the entry of the type", id.0)),
                Vec::new(),
            );
        },
    };
    let entry = &unit.entries[i];
    assert(unit.entries@[i as int] == *entry);
    let r = parse_variable_type(unit, entry);
    proof {
        assert forall|k: int| 0 <= k < r.1@.len() implies unit_refs(units@).contains(
            #[trigger] r.1@[k],
        ) by {
            lemma_unit_refs(units@, u as int, r.1@[k]);
        }
    }
    r
}

/// The type resolver: the types that were parsed, the ids that wait, the
/// units they are found in, and what could not be parsed.
pub struct TypeParser<'a> {
    /// The types that were parsed, each with its id, no id twice.
    pub type_nodes: Vec<(RustTypeId, RustType)>,
    pub worklist: crate::worklist::Worklist<RustTypeId>,
    pub units: &'a Vec<UnitData>,
    pub parsing_errors: Vec<String>,
}

impl<'a> TypeParser<'a> {
    /// A type resolver over the given units that has parsed nothing yet.
    pub fn new(units: &'a Vec<UnitData>) -> (parser: Self)
        ensures
            parser.units == units,
            parser.type_nodes@.len() == 0,
            parser.parsing_errors@.len() == 0,
            parser.worklist.queue().len() == 0,
            parser.worklist.seen_keys() == Set::<u128>::empty(),
    {
        TypeParser {
            type_nodes: Vec::new(),
            worklist: crate::worklist::Worklist::new(),
            units,
            parsing_errors: Vec::new(),
        }
    }

    /// Parses every type that a variable of the given units has, and every
    /// type that such a type names in turn, each once. The types that could
    /// be parsed are put into `type_nodes`; for each of the others a message
    /// is put behind `parsing_errors`. Always succeeds.
    pub fn process(&mut self, compilation_unit_vec: &Vec<crate::types::data_structures::CompilationUnit>) -> (r:
        Result<(), ParsingError>)
        requires
            old(self).type_nodes@.len() == 0,
            old(self).worklist.queue().len() == 0,
            old(self).worklist.seen_keys() == Set::<u128>::empty(),
        ensures
            r is Ok,
            final(self).units == old(self).units,
            final(self).worklist.queue().len() == 0,
            forall|id: RustTypeId| #[trigger]
                final(self).worklist.has_seen(id) <==> reachable(
                    old(self).units@,
                    crate::types::data_structures::all_var_type_ids(compilation_unit_vec@),
                    id,
                ),
            exists|order: Seq<RustTypeId>|
                #![trigger nodes_of(old(self).units@, order)]
                processing_order(
                    old(self).units@,
                    crate::types::data_structures::all_var_type_ids(compilation_unit_vec@),
                    order,
                ) && node_views(final(self).type_nodes@) == nodes_of(old(self).units@, order)
                    && crate::types::data_structures::text_views(final(self).parsing_errors@)
                    == crate::types::data_structures::text_views(old(self).parsing_errors@)
                    + errors_of(old(self).units@, order),
    {
        let seeds = crate::types::data_structures::extract_all_var_type_ids(compilation_unit_vec);
        let ghost units = self.units@;
        let ghost universe = universe_of(units, seeds@);
        let ghost mut done = Seq::<RustTypeId>::empty();
        let ghost old_errors = crate::types::data_structures::text_views(self.parsing_errors@);
        proof {
            lemma_resolving_start(units, seeds@);
            assert(self.worklist.queue() =~= Seq::<RustTypeId>::empty());
            assert(node_views(self.type_nodes@) =~= nodes_of(units, done));
            assert(old_errors + errors_of(units, done) =~= old_errors);
        }
        self.worklist.add_all(&seeds);
        while !self.worklist.is_empty()
            invariant
                self.units == old(self).units,
                units == self.units@,
                universe == universe_of(units, seeds@),
                resolving(
                    units,
                    seeds@,
                    universe,
                    self.worklist.queue(),
                    self.worklist.seen_keys(),
                    done,
                ),
                node_views(self.type_nodes@) == nodes_of(units, done),
                crate::types::data_structures::text_views(self.parsing_errors@) == old_errors
                    + errors_of(units, done),
            decreases universe.len() - self.worklist.seen_keys().len() + self.worklist.queue().len(),
        {
            let ghost queue = self.worklist.queue();
            let ghost seen = self.worklist.seen_keys();
            let node = match self.worklist.pop() {
                Some(node) => node,
                None => { return Ok(()); },
            };
            let (result, wanted) = parse_variable_type_at_offset(self.units, node);
            proof {
                assert forall|id: RustTypeId| #[trigger]
                    wanted_by(units, queue[0]).contains(id) implies universe.contains(
                    crate::worklist::WorkItem::key(&id),
                ) by {
                    let refs = unit_refs(units);
                    let k = choose|k: int| 0 <= k < wanted@.len() && wanted@[k] == id;
                    assert(refs.contains(wanted@[k]));
                    let j = choose|j: int| 0 <= j < refs.len() && refs[j] == id;
                    let all = seeds@ + refs;
                    assert(crate::worklist::WorkItem::key(&all[seeds@.len() + j])
                        == crate::worklist::WorkItem::key(&id));
                }
                lemma_resolving_step(units, seeds@, universe, queue, seen, done);
            }
            self.worklist.add_all(&wanted);
            let ghost before = done;
            proof {
                done = done.push(node);
                assert(done.drop_last() =~= before);
            }
            match result {
                Ok(parsed) => {
                    proof {
                        assert(node_views(self.type_nodes@.push((node, parsed))) =~= node_views(
                            self.type_nodes@,
                        ).push((node, parsed@)));
                    }
                    self.type_nodes.push((node, parsed));
                },
                Err(e) => {
                    let message = String::from_str("Type Parsing Error: ").concat(
                        e.to_string().as_str(),
                    );
                    proof {
                        let texts = crate::types::data_structures::text_views(
                            self.parsing_errors@,
                        );
                        assert(crate::types::data_structures::text_views(
                            self.parsing_errors@.push(message),
                        ) =~= texts.push(message@));
                        assert(texts.push(message@) =~= old_errors + errors_of(
                            units,
                            before,
                        ).push(message@));
                        assert(message@ =~= type_error_text(e@));
                    }
                    self.parsing_errors.push(message);
                },
            }
        }
        proof {
            assert(self.worklist.queue() =~= Seq::<RustTypeId>::empty());
            lemma_resolved_all(units, seeds@, universe, self.worklist.seen_keys(), done);
            assert forall|id: RustTypeId| #[trigger]
                self.worklist.has_seen(id) <==> reachable(units, seeds@, id) by {
                assert(seen_id(self.worklist.seen_keys(), id) == self.worklist.has_seen(id));
                assert(!self.worklist.queue().contains(id));
            }
        }
        Ok(())
    }
}

} // verus!
