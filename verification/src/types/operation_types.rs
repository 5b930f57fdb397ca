//! Location operations: the steps of the stack machine that says where a
//! variable lives.

use vstd::prelude::*;
use gimli::{Encoding, EndianSlice, Format, Operation, RunTimeEndian};

verus! {

/// How the bytes of a location expression are to be read.
#[derive(Debug, Clone, Copy, PartialEq, Eq, Structural)]
pub struct ExpressionEncoding {
    /// The size of an address in bytes.
    pub address_size: u8,
    /// Whether offsets are 64 bits wide.
    pub dwarf64: bool,
    /// The version of the debug format.
    pub version: u16,
    pub big_endian: bool,
}

/// One operation of a location program.
#[derive(Debug, PartialEq, Eq, Hash)]
pub enum OperationJson {
    /// The value is held in a register.
    Register { register: u16 },
    /// The value is at an offset from the frame base.
    FrameOffset { offset: i64 },
    /// The value is at an offset from a register; `base_type` describes the
    /// type of the base in words.
    RegisterOffset { register: u16, offset: i64, base_type: String },
    /// A piece of a value that is spread over several locations.
    Piece { size_in_bits: u64, bit_offset: Option<u64> },
    /// Push a signed constant.
    SignedConstant { value: i64 },
    /// Push an unsigned constant.
    UnsignedConstant { value: u64 },
    /// The top of the stack is the value itself, not its address.
    StackValue,
    /// Subtract the two topmost values.
    Minus,
    /// Add the two topmost values.
    Plus,
    /// Bitwise and of the two topmost values.
    And,
    /// Bitwise or of the two topmost values.
    Or,
    /// Any other operation, kept as its description.
    Unsupported { operation: String },
}

/// The mathematical value of an [`OperationJson`].
pub ghost enum OperationView {
    Register { register: u16 },
    FrameOffset { offset: i64 },
    RegisterOffset { register: u16, offset: i64, base_type: Seq<char> },
    Piece { size_in_bits: u64, bit_offset: Option<u64> },
    SignedConstant { value: i64 },
    UnsignedConstant { value: u64 },
    StackValue,
    Minus,
    Plus,
    And,
    Or,
    Unsupported { operation: Seq<char> },
}

impl View for OperationJson {
    type V = OperationView;

    open spec fn view(&self) -> OperationView {
        match *self {
            OperationJson::Register { register } => OperationView::Register { register },
            OperationJson::FrameOffset { offset } => OperationView::FrameOffset { offset },
            OperationJson::RegisterOffset { register, offset, base_type } => {
                OperationView::RegisterOffset { register, offset, base_type: base_type@ }
            },
            OperationJson::Piece { size_in_bits, bit_offset } => OperationView::Piece {
                size_in_bits,
                bit_offset,
            },
            OperationJson::SignedConstant { value } => OperationView::SignedConstant { value },
            OperationJson::UnsignedConstant { value } => OperationView::UnsignedConstant { value },
            OperationJson::StackValue => OperationView::StackValue,
            OperationJson::Minus => OperationView::Minus,
            OperationJson::Plus => OperationView::Plus,
            OperationJson::And => OperationView::And,
            OperationJson::Or => OperationView::Or,
            OperationJson::Unsupported { operation } => OperationView::Unsupported {
                operation: operation@,
            },
        }
    }
}

impl Clone for OperationJson {
    fn clone(&self) -> (copy: Self)
        ensures
            copy@ == self@,
    {
        match self {
            OperationJson::Register { register } => OperationJson::Register { register: *register },
            OperationJson::FrameOffset { offset } => OperationJson::FrameOffset { offset: *offset },
            OperationJson::RegisterOffset { register, offset, base_type } => {
                OperationJson::RegisterOffset {
                    register: *register,
                    offset: *offset,
                    base_type: base_type.clone(),
                }
            },
            OperationJson::Piece { size_in_bits, bit_offset } => OperationJson::Piece {
                size_in_bits: *size_in_bits,
                bit_offset: *bit_offset,
            },
            OperationJson::SignedConstant { value } => OperationJson::SignedConstant {
                value: *value,
            },
            OperationJson::UnsignedConstant { value } => OperationJson::UnsignedConstant {
                value: *value,
            },
            OperationJson::StackValue => OperationJson::StackValue,
            OperationJson::Minus => OperationJson::Minus,
            OperationJson::Plus => OperationJson::Plus,
            OperationJson::And => OperationJson::And,
            OperationJson::Or => OperationJson::Or,
            OperationJson::Unsupported { operation } => OperationJson::Unsupported {
                operation: operation.clone(),
            },
        }
    }
}

impl OperationJson {
    /// Whether two operations have the same value.
    pub fn same_as(&self, other: &OperationJson) -> (same: bool)
        ensures
            same == (self@ == other@),
    {
        match (self, other) {
            (OperationJson::Register { register: a }, OperationJson::Register { register: b }) => {
                *a == *b
            },
            (OperationJson::FrameOffset { offset: a }, OperationJson::FrameOffset { offset: b }) => {
                *a == *b
            },
            (
                OperationJson::RegisterOffset { register: r1, offset: o1, base_type: b1 },
                OperationJson::RegisterOffset { register: r2, offset: o2, base_type: b2 },
            ) => *r1 == *r2 && *o1 == *o2 && *b1 == *b2,
            (
                OperationJson::Piece { size_in_bits: s1, bit_offset: b1 },
                OperationJson::Piece { size_in_bits: s2, bit_offset: b2 },
            ) => *s1 == *s2 && same_option(b1, b2),
            (
                OperationJson::SignedConstant { value: a },
                OperationJson::SignedConstant { value: b },
            ) => *a == *b,
            (
                OperationJson::UnsignedConstant { value: a },
                OperationJson::UnsignedConstant { value: b },
            ) => *a == *b,
            (OperationJson::StackValue, OperationJson::StackValue) => true,
            (OperationJson::Minus, OperationJson::Minus) => true,
            (OperationJson::Plus, OperationJson::Plus) => true,
            (OperationJson::And, OperationJson::And) => true,
            (OperationJson::Or, OperationJson::Or) => true,
            (
                OperationJson::Unsupported { operation: a },
                OperationJson::Unsupported { operation: b },
            ) => *a == *b,
            _ => false,
        }
    }
}

/// Whether two optional numbers are equal.
pub fn same_option(a: &Option<u64>, b: &Option<u64>) -> (same: bool)
    ensures
        same == (*a == *b),
{
    match (a, b) {
        (Some(x), Some(y)) => *x == *y,
        (None, None) => true,
        _ => false,
    }
}

/// The values of a sequence of operations, in order.
pub open spec fn operation_views(ops: Seq<OperationJson>) -> Seq<OperationView> {
    ops.map_values(|op: OperationJson| op@)
}

/// Copies a list of operations.
pub fn clone_operations(ops: &Vec<OperationJson>) -> (copy: Vec<OperationJson>)
    ensures
        operation_views(copy@) == operation_views(ops@),
{
    let mut copy: Vec<OperationJson> = Vec::new();
    let mut i: usize = 0;
    while i < ops.len()
        invariant
            i <= ops.len(),
            copy.len() == i,
            forall|k: int| 0 <= k < i ==> copy@[k]@ == ops@[k]@,
        decreases ops.len() - i,
    {
        copy.push(ops[i].clone());
        i += 1;
    }
    assert(operation_views(copy@) =~= operation_views(ops@));
    copy
}

/// Whether two lists of operations have the same values in the same order.
pub fn same_operations(a: &Vec<OperationJson>, b: &Vec<OperationJson>) -> (same: bool)
    ensures
        same == (operation_views(a@) == operation_views(b@)),
{
    if a.len() != b.len() {
        assert(operation_views(a@).len() != operation_views(b@).len());
        return false;
    }
    let mut i: usize = 0;
    while i < a.len()
        invariant
            i <= a.len(),
            a.len() == b.len(),
            forall|k: int| 0 <= k < i ==> a@[k]@ == b@[k]@,
        decreases a.len() - i,
    {
        if !a[i].same_as(&b[i]) {
            assert(operation_views(a@)[i as int] != operation_views(b@)[i as int]);
            return false;
        }
        i += 1;
    }
    assert(operation_views(a@) =~= operation_views(b@));
    true
}

/// What `gimli::Operation::parse` makes of `bytes` from index `start` on, read
/// with the given encoding: the operation and the index of the first byte
/// behind it; `None` where gimli reports an error. An operation that this
/// library names has gimli's numbers, and its base type in gimli's debug
/// format; any other operation is held as gimli's debug format of it.
pub uninterp spec fn parsed_operation(
    bytes: Seq<u8>,
    start: int,
    address_size: u8,
    dwarf64: bool,
    version: u16,
    big_endian: bool,
) -> Option<(OperationView, usize)>;

/// The operation that starts at `start`, for short.
pub open spec fn operation_at(bytes: Seq<u8>, start: int, enc: ExpressionEncoding) -> Option<
    (OperationView, usize),
> {
    parsed_operation(bytes, start, enc.address_size, enc.dwarf64, enc.version, enc.big_endian)
}

/// Whether an operation says where a value is: in a register, at an offset
/// from the frame base or from a register, or which piece of it.
pub open spec fn is_place(op: OperationView) -> bool {
    op is Register || op is FrameOffset || op is RegisterOffset || op is Piece
}

/// Whether an operation is none of those that this library names.
pub open spec fn is_unsupported(op: OperationView) -> bool {
    op is Unsupported
}

/// Calls `gimli::Operation::parse` on the bytes from `start` on and gives the
/// index of the first byte behind the operation, as gimli's `offset_from`
/// counts it from the start of `bytes`, or `None` where gimli reports an
/// error. A parse that succeeds has read the operation's first byte at
/// least, and nothing beyond the end.
#[verifier::external_body]
fn operation_end(bytes: &Vec<u8>, start: usize, enc: ExpressionEncoding) -> (end: Option<usize>)
    requires
        start <= bytes.len(),
    ensures
        end == match parsed_operation(
            bytes@,
            start as int,
            enc.address_size,
            enc.dwarf64,
            enc.version,
            enc.big_endian,
        ) {
            Some((_, e)) => Some(e),
            None => None,
        },
        end matches Some(e) ==> start < e <= bytes.len(),
{
    let format = if enc.dwarf64 { Format::Dwarf64 } else { Format::Dwarf32 };
    let endian = if enc.big_endian { RunTimeEndian::Big } else { RunTimeEndian::Little };
    let encoding = Encoding { address_size: enc.address_size, format, version: enc.version };
    let whole = EndianSlice::new(&bytes[..], endian);
    let mut input = whole.range_from(start..);
    Operation::parse(&mut input, encoding).ok().map(|_| input.offset_from(whole))
}

/// Calls `gimli::Operation::parse` on the bytes from `start` on and gives the
/// operation where it is one that says where a value is; `None` for every
/// other operation and where gimli reports an error. The register's number
/// and the offsets are gimli's; the base type is described by gimli's debug
/// format of its offset.
#[verifier::external_body]
fn place_operation(bytes: &Vec<u8>, start: usize, enc: ExpressionEncoding) -> (op: Option<
    OperationJson,
>)
    requires
        start <= bytes.len(),
    ensures
        match op {
            Some(found) => parsed_operation(
            bytes@,
            start as int,
            enc.address_size,
            enc.dwarf64,
            enc.version,
            enc.big_endian,
        ) matches Some((parsed, _))
                && found@ == parsed && is_place(parsed),
            None => parsed_operation(
            bytes@,
            start as int,
            enc.address_size,
            enc.dwarf64,
            enc.version,
            enc.big_endian,
        ) matches Some((parsed, _))
                ==> !is_place(parsed),
        },
{
    let format = if enc.dwarf64 { Format::Dwarf64 } else { Format::Dwarf32 };
    let endian = if enc.big_endian { RunTimeEndian::Big } else { RunTimeEndian::Little };
    let encoding = Encoding { address_size: enc.address_size, format, version: enc.version };
    let mut input = EndianSlice::new(&bytes[start..], endian);
    match Operation::parse(&mut input, encoding).ok()? {
        Operation::Register { register } => Some(OperationJson::Register { register: register.0 }),
        Operation::FrameOffset { offset } => Some(OperationJson::FrameOffset { offset }),
        Operation::RegisterOffset { register, offset, base_type } => Some(OperationJson::RegisterOffset { register: register.0, offset, base_type: format!("{:?}", base_type) }),
        Operation::Piece { size_in_bits, bit_offset } => Some(OperationJson::Piece { size_in_bits, bit_offset }),
        _ => None,
    }
}

/// Calls `gimli::Operation::parse` on the bytes from `start` on and gives the
/// operation where it pushes a constant, marks the top of the stack as the
/// value, or adds, subtracts, ands or ors; `None` for every other operation
/// and where gimli reports an error.
#[verifier::external_body]
fn stack_operation(bytes: &Vec<u8>, start: usize, enc: ExpressionEncoding) -> (op: Option<
    OperationJson,
>)
    requires
        start <= bytes.len(),
    ensures
        match op {
            Some(found) => parsed_operation(
            bytes@,
            start as int,
            enc.address_size,
            enc.dwarf64,
            enc.version,
            enc.big_endian,
        ) matches Some((parsed, _))
                && found@ == parsed && !is_place(parsed) && !is_unsupported(parsed),
            None => parsed_operation(
            bytes@,
            start as int,
            enc.address_size,
            enc.dwarf64,
            enc.version,
            enc.big_endian,
        ) matches Some((parsed, _))
                ==> is_place(parsed) || is_unsupported(parsed),
        },
{
    let format = if enc.dwarf64 { Format::Dwarf64 } else { Format::Dwarf32 };
    let endian = if enc.big_endian { RunTimeEndian::Big } else { RunTimeEndian::Little };
    let encoding = Encoding { address_size: enc.address_size, format, version: enc.version };
    let mut input = EndianSlice::new(&bytes[start..], endian);
    match Operation::parse(&mut input, encoding).ok()? {
        Operation::UnsignedConstant { value } => Some(OperationJson::UnsignedConstant { value }),
        Operation::SignedConstant { value } => Some(OperationJson::SignedConstant { value }),
        Operation::StackValue => Some(OperationJson::StackValue),
        Operation::Plus => Some(OperationJson::Plus),
        Operation::Minus => Some(OperationJson::Minus),
        Operation::Or => Some(OperationJson::Or),
        Operation::And => Some(OperationJson::And),
        _ => None,
    }
}

/// Calls `gimli::Operation::parse` on the bytes from `start` on and gives
/// gimli's debug format of the operation, or `None` where gimli reports an
/// error. That text is what an operation this library does not name is kept
/// as.
#[verifier::external_body]
fn operation_description(bytes: &Vec<u8>, start: usize, enc: ExpressionEncoding) -> (text: Option<
    String,
>)
    requires
        start <= bytes.len(),
    ensures
        text is Some <==> parsed_operation(
            bytes@,
            start as int,
            enc.address_size,
            enc.dwarf64,
            enc.version,
            enc.big_endian,
        ) is Some,
        text matches Some(t) ==> (parsed_operation(
            bytes@,
            start as int,
            enc.address_size,
            enc.dwarf64,
            enc.version,
            enc.big_endian,
        ) matches Some(
            (OperationView::Unsupported { operation }, _),
        ) ==> t@ == operation),
{
    let format = if enc.dwarf64 { Format::Dwarf64 } else { Format::Dwarf32 };
    let endian = if enc.big_endian { RunTimeEndian::Big } else { RunTimeEndian::Little };
    let encoding = Encoding { address_size: enc.address_size, format, version: enc.version };
    let mut input = EndianSlice::new(&bytes[start..], endian);
    Operation::parse(&mut input, encoding).ok().map(|op| format!("{:?}", op))
}

impl OperationJson {
    /// Reads the operation that starts at `start`: the operation and the
    /// index of the first byte behind it, or `None` where the bytes hold no
    /// operation there.
    pub fn read(bytes: &Vec<u8>, start: usize, enc: ExpressionEncoding) -> (r: Option<
        (OperationJson, usize),
    >)
        requires
            start <= bytes.len(),
        ensures
            match r {
                Some((op, end)) => operation_at(bytes@, start as int, enc) == Some((op@, end))
                    && start < end <= bytes.len(),
                None => operation_at(bytes@, start as int, enc) is None,
            },
    {
        let end = match operation_end(bytes, start, enc) {
            Some(end) => end,
            None => { return None; },
        };
        if let Some(op) = place_operation(bytes, start, enc) {
            return Some((op, end));
        }
        if let Some(op) = stack_operation(bytes, start, enc) {
            return Some((op, end));
        }
        match operation_description(bytes, start, enc) {
            Some(operation) => Some((OperationJson::Unsupported { operation }, end)),
            None => None,
        }
    }
}

/// The operations of the expression that `bytes` holds from `start` on, or
/// `None` where one of them cannot be read.
pub open spec fn decoded_from(bytes: Seq<u8>, start: int, enc: ExpressionEncoding) -> Option<
    Seq<OperationView>,
>
    decreases bytes.len() - start,
{
    if start < 0 || start >= bytes.len() {
        Some(Seq::empty())
    } else {
        match operation_at(bytes, start, enc) {
            Some((op, end)) => if start < end <= bytes.len() {
                match decoded_from(bytes, end as int, enc) {
                    Some(rest) => Some(seq![op] + rest),
                    None => None,
                }
            } else {
                None
            },
            None => None,
        }
    }
}

/// The operations of the expression that `bytes` holds, or `None` where one
/// of them cannot be read.
pub open spec fn decoded(bytes: Seq<u8>, enc: ExpressionEncoding) -> Option<Seq<OperationView>> {
    decoded_from(bytes, 0, enc)
}

/// Reads a location expression operation by operation, to its end.
pub fn decode_expression(bytes: &Vec<u8>, enc: ExpressionEncoding) -> (ops: Option<
    Vec<OperationJson>,
>)
    ensures
        match ops {
            Some(list) => decoded(bytes@, enc) == Some(operation_views(list@)),
            None => decoded(bytes@, enc) is None,
        },
{
    let mut ops: Vec<OperationJson> = Vec::new();
    let mut position: usize = 0;
    while position < bytes.len()
        invariant
            position <= bytes.len(),
            decoded(bytes@, enc) == match decoded_from(bytes@, position as int, enc) {
                Some(rest) => Some(operation_views(ops@) + rest),
                None => None,
            },
        decreases bytes.len() - position,
    {
        match OperationJson::read(bytes, position, enc) {
            Some((op, end)) => {
                proof {
                    let rest = decoded_from(bytes@, end as int, enc);
                    if rest is Some {
                        assert(operation_views(ops@.push(op)) + rest->0 =~= operation_views(ops@)
                            + (seq![op@] + rest->0));
                    }
                }
                ops.push(op);
                position = end;
            },
            None => {
                return None;
            },
        }
    }
    proof {
        assert(operation_views(ops@) + Seq::<OperationView>::empty() =~= operation_views(ops@));
    }
    Some(ops)
}

} // verus!
