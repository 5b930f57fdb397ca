//! The reconstructed type system of the subject program.

use vstd::prelude::*;

verus! {

/// Identity of a type: the offset of its entry within its unit, then the
/// offset of that unit. Two ids are the same type exactly when both numbers
/// agree.
#[derive(Debug, Clone, Copy, PartialEq, Eq, Hash, Structural)]
pub struct RustTypeId(pub usize, pub usize);

/// One payload of a variant part: the type that is stored when the
/// discriminant has the given value.
#[derive(Debug, PartialEq, Eq, Hash)]
pub struct Variant {
    pub discr_name: String,
    pub discr_value: u64,
    pub rust_type_id: RustTypeId,
    pub offset: u64,
}

/// The mathematical value of a [`Variant`].
pub ghost struct VariantView {
    pub discr_name: Seq<char>,
    pub discr_value: u64,
    pub rust_type_id: RustTypeId,
    pub offset: u64,
}

impl View for Variant {
    type V = VariantView;

    open spec fn view(&self) -> VariantView {
        VariantView {
            discr_name: self.discr_name@,
            discr_value: self.discr_value,
            rust_type_id: self.rust_type_id,
            offset: self.offset,
        }
    }
}

/// The field that tells which variant of a variant part is stored.
#[derive(Debug, Clone, Copy, PartialEq, Eq, Hash, Structural)]
pub struct Discriminant {
    pub rust_type_id: RustTypeId,
    pub offset: u64,
}

/// A named field of a struct, with its type and its byte offset.
#[derive(Debug, PartialEq, Eq, Hash)]
pub struct StructField {
    pub name: String,
    pub field_type_id: RustTypeId,
    pub offset: u64,
}

/// The mathematical value of a [`StructField`].
pub ghost struct StructFieldView {
    pub name: Seq<char>,
    pub field_type_id: RustTypeId,
    pub offset: u64,
}

impl View for StructField {
    type V = StructFieldView;

    open spec fn view(&self) -> StructFieldView {
        StructFieldView { name: self.name@, field_type_id: self.field_type_id, offset: self.offset }
    }
}

/// What a variant of an enum holds.
#[derive(Debug, PartialEq, Eq, Hash)]
pub enum EnumVariantType {
    /// Nothing.
    Unit,
    /// Values by position.
    Tuple(Vec<RustType>),
    /// Values by name.
    Struct(Vec<StructField>),
}

/// A variant of an enum.
#[derive(Debug, PartialEq, Eq, Hash)]
pub struct EnumVariant {
    pub name: String,
    pub variant_type: EnumVariantType,
}

/// A type of the subject program.
#[derive(Debug, PartialEq, Eq, Hash)]
pub enum RustType {
    I8,
    I16,
    I32,
    I64,
    I128,
    Isize,
    U8,
    U16,
    U32,
    U64,
    U128,
    Usize,
    F32,
    F64,
    Bool,
    /// A reference or pointer to a value of another type.
    Reference { referent_id: Box<RustTypeId> },
    /// An array of a fixed number of elements.
    Array { element_type_id: Box<RustTypeId>, element_count: u64 },
    /// A struct with its fields in declaration order.
    Struct { name: String, size: u64, fields: Vec<StructField>, is_tuple_struct: bool },
    /// An enum whose variants hold nothing.
    Enum { name: String, variants: Vec<EnumVariant> },
    /// A tagged union: a discriminant and the payloads it chooses among.
    VariantPart { discriminant: Discriminant, variants: Vec<Variant>, size: u64 },
}

/// The mathematical value of an [`EnumVariantType`].
pub ghost enum EnumVariantTypeView {
    Unit,
    Tuple(Seq<RustTypeView>),
    Struct(Seq<StructFieldView>),
}

/// The mathematical value of an [`EnumVariant`].
pub ghost struct EnumVariantView {
    pub name: Seq<char>,
    pub variant_type: EnumVariantTypeView,
}

/// The mathematical value of a [`RustType`].
pub ghost enum RustTypeView {
    I8,
    I16,
    I32,
    I64,
    I128,
    Isize,
    U8,
    U16,
    U32,
    U64,
    U128,
    Usize,
    F32,
    F64,
    Bool,
    Reference { referent_id: RustTypeId },
    Array { element_type_id: RustTypeId, element_count: u64 },
    Struct { name: Seq<char>, size: u64, fields: Seq<StructFieldView>, is_tuple_struct: bool },
    Enum { name: Seq<char>, variants: Seq<EnumVariantView> },
    VariantPart { discriminant: Discriminant, variants: Seq<VariantView>, size: u64 },
}

/// The values of a sequence of struct fields, in order.
pub open spec fn field_views(fields: Seq<StructField>) -> Seq<StructFieldView> {
    fields.map_values(|f: StructField| f@)
}

/// The values of a sequence of variants, in order.
pub open spec fn variant_views(variants: Seq<Variant>) -> Seq<VariantView> {
    variants.map_values(|v: Variant| v@)
}

/// The value of a type, with the values of the types it holds.
pub open spec fn rust_type_view(t: RustType) -> RustTypeView
    decreases t,
{
    match t {
        RustType::I8 => RustTypeView::I8,
        RustType::I16 => RustTypeView::I16,
        RustType::I32 => RustTypeView::I32,
        RustType::I64 => RustTypeView::I64,
        RustType::I128 => RustTypeView::I128,
        RustType::Isize => RustTypeView::Isize,
        RustType::U8 => RustTypeView::U8,
        RustType::U16 => RustTypeView::U16,
        RustType::U32 => RustTypeView::U32,
        RustType::U64 => RustTypeView::U64,
        RustType::U128 => RustTypeView::U128,
        RustType::Usize => RustTypeView::Usize,
        RustType::F32 => RustTypeView::F32,
        RustType::F64 => RustTypeView::F64,
        RustType::Bool => RustTypeView::Bool,
        RustType::Reference { referent_id } => RustTypeView::Reference {
            referent_id: *referent_id,
        },
        RustType::Array { element_type_id, element_count } => RustTypeView::Array {
            element_type_id: *element_type_id,
            element_count,
        },
        RustType::Struct { name, size, fields, is_tuple_struct } => RustTypeView::Struct {
            name: name@,
            size,
            fields: field_views(fields@),
            is_tuple_struct,
        },
        RustType::Enum { name, variants } => RustTypeView::Enum {
            name: name@,
            variants: Seq::new(
                variants@.len(),
                |i: int|
                    if 0 <= i < variants@.len() {
                        enum_variant_view(variants@[i])
                    } else {
                        arbitrary()
                    },
            ),
        },
        RustType::VariantPart { discriminant, variants, size } => RustTypeView::VariantPart {
            discriminant,
            variants: variant_views(variants@),
            size,
        },
    }
}

/// The value of an enum variant, with the values of the types it holds.
pub open spec fn enum_variant_view(v: EnumVariant) -> EnumVariantView
    decreases v,
{
    EnumVariantView {
        name: v.name@,
        variant_type: match v.variant_type {
            EnumVariantType::Unit => EnumVariantTypeView::Unit,
            EnumVariantType::Tuple(types) => EnumVariantTypeView::Tuple(
                Seq::new(
                    types@.len(),
                    |i: int|
                        if 0 <= i < types@.len() {
                            rust_type_view(types@[i])
                        } else {
                            arbitrary()
                        },
                ),
            ),
            EnumVariantType::Struct(fields) => EnumVariantTypeView::Struct(field_views(fields@)),
        },
    }
}

impl View for EnumVariant {
    type V = EnumVariantView;

    open spec fn view(&self) -> EnumVariantView {
        enum_variant_view(*self)
    }
}

impl View for RustType {
    type V = RustTypeView;

    open spec fn view(&self) -> RustTypeView {
        rust_type_view(*self)
    }
}

/// The values of a sequence of enum variants, in order.
pub open spec fn enum_variant_views(variants: Seq<EnumVariant>) -> Seq<EnumVariantView> {
    variants.map_values(|v: EnumVariant| v@)
}

/// The variants of an enum are viewed one by one.
pub proof fn lemma_enum_views(name: String, variants: Vec<EnumVariant>)
    ensures
        (RustType::Enum { name, variants })@ == (RustTypeView::Enum {
            name: name@,
            variants: enum_variant_views(variants@),
        }),
{
    let t = RustType::Enum { name, variants };
    assert(t@->Enum_variants =~= enum_variant_views(variants@));
}


impl crate::worklist::WorkItem for RustTypeId {
    open spec fn key(&self) -> u128 {
        (self.0 as u128 * 0x1_0000_0000_0000_0000u128 + self.1 as u128) as u128
    }

    fn key_of(&self) -> (k: u128) {
        let high: u128 = self.0 as u128;
        let low: u128 = self.1 as u128;
        high * 0x1_0000_0000_0000_0000u128 + low
    }

    proof fn key_injective(a: &Self, b: &Self) {
        let (a0, a1, b0, b1) = (a.0 as int, a.1 as int, b.0 as int, b.1 as int);
        assert(a0 * 0x1_0000_0000_0000_0000 + a1 == b0 * 0x1_0000_0000_0000_0000 + b1);
        assert(a0 == b0 && a1 == b1);
    }
}

} // verus!
