//! Cursors over serialized state: a value of a known layout is read once into a tree
//! of cursors, single fields are replaced, and the whole is written out again
//! without taking the untouched parts apart.
//!
//! The layout is the one of the state accounts: numbers little-endian at their
//! width, a string or a byte vector behind a four-byte length, a vector behind a
//! four-byte count, an option behind a one-byte tag, a variant behind a one-byte
//! discriminant.
use crate::address::Address;
use crate::codec::{
    decode_u16, decode_u32, decode_u64, encode_u16, encode_u32, encode_u64, le_of_u16, le_of_u32,
    le_of_u64, splice, u16_of_le, u32_of_le, u64_of_le,
};
use crate::error::SerError;
use crate::state::players::write_bytes;
use vstd::prelude::*;
use vstd::slice::slice_subrange;
use vstd::string::StringSliceAdditionalSpecFns;
use vstd::utf8::{decode_utf8, encode_utf8, valid_utf8};

verus! {

/// A value that is where it was read, at an offset and of a length, or that was
/// replaced.
#[derive(Debug, Clone, PartialEq, Eq)]
pub enum UpdatableValue<T> {
    Origin(u16, u16),
    Updated(T),
}

impl<T> UpdatableValue<T> {
    /// A value where it was read. Offsets and lengths beyond sixteen bits cannot be
    /// kept.
    pub fn origin(start: usize, len: usize) -> (r: Result<Self, SerError>)
        ensures
            r == if start > u16::MAX {
                Err::<Self, SerError>(SerError::OffsetOverflow)
            } else if len > u16::MAX {
                Err(SerError::LengthOverflow)
            } else {
                Ok(UpdatableValue::Origin(start as u16, len as u16))
            },
    {
        if start > u16::MAX as usize {
            Err(SerError::OffsetOverflow)
        } else if len > u16::MAX as usize {
            Err(SerError::LengthOverflow)
        } else {
            Ok(UpdatableValue::Origin(start as u16, len as u16))
        }
    }

    /// A value that was replaced.
    pub fn updated(value: T) -> (r: Self)
        ensures
            r == UpdatableValue::Updated(value),
    {
        UpdatableValue::Updated(value)
    }

    /// Where the value was read, unless it was replaced.
    pub fn get_offset_and_len(&self) -> (r: Result<(usize, usize), SerError>)
        ensures
            r == match *self {
                UpdatableValue::Origin(offset, len) => Ok::<(usize, usize), SerError>(
                    (offset as usize, len as usize),
                ),
                UpdatableValue::Updated(_) => Err(SerError::ValueIsUpdated),
            },
    {
        match self {
            UpdatableValue::Origin(offset, len) => Ok((*offset as usize, *len as usize)),
            UpdatableValue::Updated(_) => Err(SerError::ValueIsUpdated),
        }
    }
}

/// The layout of a value.
#[derive(Debug, PartialEq, Eq)]
pub enum CursorType {
    Bool,
    U8,
    U16,
    U32,
    Usize,
    U64,
    String,
    /// The fields, in order.
    Struct(Vec<CursorType>),
    /// The layout of every item.
    Vec(Box<CursorType>),
    /// A vector of bytes.
    StaticVec,
    /// The layout of the value, where there is one.
    Option(Box<CursorType>),
    /// The layouts of the variants, in the order of their discriminants.
    Enum(Vec<CursorType>),
    Pubkey,
    Empty,
}

impl CursorType {
    pub fn mk_vec(item_type: CursorType) -> (r: Self)
        ensures
            r == CursorType::Vec(Box::new(item_type)),
    {
        CursorType::Vec(Box::new(item_type))
    }

    pub fn mk_option(inner_type: CursorType) -> (r: Self)
        ensures
            r == CursorType::Option(Box::new(inner_type)),
    {
        CursorType::Option(Box::new(inner_type))
    }

    pub fn mk_struct(field_types: Vec<CursorType>) -> (r: Self)
        ensures
            r == CursorType::Struct(field_types),
    {
        CursorType::Struct(field_types)
    }

    pub fn mk_enum(variants_types: Vec<CursorType>) -> (r: Self)
        ensures
            r == CursorType::Enum(variants_types),
    {
        CursorType::Enum(variants_types)
    }
}

/// How many bytes the value of a layout takes that begins at `at`, or why it cannot
/// be read: the buffer ends before the value does or holds what the layout does not
/// allow, the value begins too far into the buffer for its offset to be kept, or it
/// is too long for its length to be kept.
pub open spec fn layout(ct: CursorType, data: Seq<u8>, at: int) -> Result<int, SerError>
    decreases ct, 0nat, 0nat,
{
    match ct {
        CursorType::Bool => if at + 1 > data.len() || data[at] > 1 {
            Err(SerError::IoError)
        } else {
            Ok(1)
        },
        CursorType::U8 => if at + 1 > data.len() {
            Err(SerError::IoError)
        } else {
            Ok(1)
        },
        CursorType::U16 => if at + 2 > data.len() {
            Err(SerError::IoError)
        } else {
            Ok(2)
        },
        CursorType::U32 => if at + 4 > data.len() {
            Err(SerError::IoError)
        } else {
            Ok(4)
        },
        CursorType::Usize => if at + 8 > data.len() || u64_of_le(data.subrange(at, at + 8))
            > usize::MAX {
            Err(SerError::IoError)
        } else {
            Ok(8)
        },
        CursorType::U64 => if at + 8 > data.len() {
            Err(SerError::IoError)
        } else {
            Ok(8)
        },
        CursorType::String => if at + 4 > data.len() {
            Err(SerError::IoError)
        } else if at > u16::MAX {
            Err(SerError::OffsetOverflow)
        } else if u32_of_le(data.subrange(at, at + 4)) + 4 > u16::MAX {
            Err(SerError::LengthOverflow)
        } else if at + 4 + u32_of_le(data.subrange(at, at + 4)) > data.len() {
            Err(SerError::IoError)
        } else {
            Ok(u32_of_le(data.subrange(at, at + 4)) + 4)
        },
        CursorType::StaticVec => if at + 4 > data.len() {
            Err(SerError::IoError)
        } else if at > u16::MAX {
            Err(SerError::OffsetOverflow)
        } else if u32_of_le(data.subrange(at, at + 4)) > u16::MAX {
            Err(SerError::LengthOverflow)
        } else if at + 4 + u32_of_le(data.subrange(at, at + 4)) > data.len() {
            Err(SerError::IoError)
        } else {
            Ok(u32_of_le(data.subrange(at, at + 4)) + 4)
        },
        CursorType::Struct(fields) => layout_all(fields@, fields@.len(), data, at),
        CursorType::Vec(item) => if at + 4 > data.len() {
            Err(SerError::IoError)
        } else if at > u16::MAX {
            Err(SerError::OffsetOverflow)
        } else {
            match layout_rep(*item, u32_of_le(data.subrange(at, at + 4)) as nat, data, at + 4) {
                Err(e) => Err(e),
                Ok(w) => Ok(w + 4),
            }
        },
        CursorType::Option(inner) => if at + 1 > data.len() || data[at] > 1 {
            Err(SerError::IoError)
        } else if at > u16::MAX {
            Err(SerError::OffsetOverflow)
        } else if data[at] == 0 {
            Ok(1)
        } else {
            match layout(*inner, data, at + 1) {
                Err(e) => Err(e),
                Ok(w) => Ok(w + 1),
            }
        },
        CursorType::Enum(variants) => if at + 1 > data.len() || data[at] >= variants@.len() {
            Err(SerError::IoError)
        } else if at > u16::MAX {
            Err(SerError::OffsetOverflow)
        } else {
            match layout(variants@[data[at] as int], data, at + 1) {
                Err(e) => Err(e),
                Ok(w) => if w + 1 > u16::MAX {
                    Err(SerError::LengthOverflow)
                } else {
                    Ok(w + 1)
                },
            }
        },
        CursorType::Pubkey => if at + 32 > data.len() {
            Err(SerError::IoError)
        } else if at > u16::MAX {
            Err(SerError::OffsetOverflow)
        } else {
            Ok(32)
        },
        CursorType::Empty => Ok(0),
    }
}

/// How many bytes the first `k` fields take, one after the other from `at` on.
pub open spec fn layout_all(fields: Seq<CursorType>, k: nat, data: Seq<u8>, at: int) -> Result<
    int,
    SerError,
>
    decreases fields, 1nat, k,
{
    if k == 0 || k > fields.len() {
        Ok(0)
    } else {
        match layout_all(fields, (k - 1) as nat, data, at) {
            Err(e) => Err(e),
            Ok(w) => match layout(fields[k - 1], data, at + w) {
                Err(e) => Err(e),
                Ok(v) => Ok(w + v),
            },
        }
    }
}

/// How many bytes `k` items of one layout take, one after the other from `at` on.
pub open spec fn layout_rep(item: CursorType, k: nat, data: Seq<u8>, at: int) -> Result<
    int,
    SerError,
>
    decreases item, 1nat, k,
{
    if k == 0 {
        Ok(0)
    } else {
        match layout_rep(item, (k - 1) as nat, data, at) {
            Err(e) => Err(e),
            Ok(w) => match layout(item, data, at + w) {
                Err(e) => Err(e),
                Ok(v) => Ok(w + v),
            },
        }
    }
}

/// A failure among the first fields is the failure of all the fields.
proof fn lemma_layout_all_fails(fields: Seq<CursorType>, k: nat, data: Seq<u8>, at: int, e: SerError)
    requires
        k <= fields.len(),
        layout_all(fields, k, data, at) == Err::<int, SerError>(e),
    ensures
        layout_all(fields, fields.len(), data, at) == Err::<int, SerError>(e),
    decreases fields.len() - k,
{
    if k < fields.len() {
        lemma_layout_all_fails(fields, k + 1, data, at, e);
    }
}

/// A failure among the first items is the failure of all the items.
proof fn lemma_layout_rep_fails(item: CursorType, k: nat, n: nat, data: Seq<u8>, at: int, e: SerError)
    requires
        k <= n,
        layout_rep(item, k, data, at) == Err::<int, SerError>(e),
    ensures
        layout_rep(item, n, data, at) == Err::<int, SerError>(e),
    decreases n - k,
{
    if k < n {
        lemma_layout_rep_fails(item, k + 1, n, data, at, e);
    }
}

/// A cursor on a number or a flag: the value, which may be replaced.
#[derive(Debug, PartialEq, Eq)]
pub struct PrimitiveCursor<T> {
    pub value: T,
}

impl<T> PrimitiveCursor<T> {
    pub fn get(&self) -> (r: &T)
        ensures
            *r == self.value,
    {
        &self.value
    }

    pub fn set(&mut self, value: T)
        ensures
            final(self).value == value,
    {
        self.value = value;
    }
}

/// A cursor on a string.
#[derive(Debug, PartialEq, Eq)]
pub struct StringCursor {
    pub value: UpdatableValue<String>,
}

/// A cursor on a structure: a cursor on each field.
#[derive(Debug, PartialEq, Eq)]
pub struct StructCursor {
    pub cursors: Vec<Cursor>,
}

/// A cursor on a vector: a cursor on each item that was read, and the items added
/// since, each as it is to be written.
#[derive(Debug, PartialEq, Eq)]
pub struct VecCursor {
    pub offset: u16,
    pub cursors: Vec<Cursor>,
    pub add: Vec<Vec<u8>>,
}

/// The bytes of a byte vector: where they were read, at an offset and so many, or
/// replaced.
#[derive(Debug, Clone, PartialEq, Eq)]
pub enum StaticVecValue {
    Origin(u16, u16),
    NewValue(Vec<u8>),
}

/// A cursor on a vector of bytes.
#[derive(Debug, Clone, PartialEq, Eq)]
pub struct StaticVecCursor {
    pub value: StaticVecValue,
}

/// A cursor on an option: a cursor on the value, where there is one.
#[derive(Debug, PartialEq, Eq)]
pub struct OptionCursor {
    pub offset: u16,
    pub inner: Option<Box<Cursor>>,
}

/// A cursor on a variant, discriminant included.
#[derive(Debug, PartialEq, Eq)]
pub struct EnumCursor {
    pub value: UpdatableValue<Vec<u8>>,
}

/// A cursor on an address.
#[derive(Debug, PartialEq, Eq)]
pub struct PubkeyCursor {
    pub offset: u16,
    pub new_value: Option<Address>,
}

/// A cursor on nothing.
#[derive(Debug, Clone, Copy, PartialEq, Eq)]
pub struct EmptyCursor {
}

/// A cursor on a value of any layout.
#[derive(Debug, PartialEq, Eq)]
pub enum Cursor {
    Bool(PrimitiveCursor<bool>),
    U8(PrimitiveCursor<u8>),
    U16(PrimitiveCursor<u16>),
    U32(PrimitiveCursor<u32>),
    Usize(PrimitiveCursor<usize>),
    U64(PrimitiveCursor<u64>),
    String(StringCursor),
    Struct(StructCursor),
    Vec(VecCursor),
    StaticVec(StaticVecCursor),
    Option(OptionCursor),
    Enum(EnumCursor),
    Pubkey(PubkeyCursor),
    Empty(EmptyCursor),
}

/// The bytes of added items, one after the other.
pub open spec fn joined(items: Seq<Vec<u8>>, k: nat) -> Seq<u8>
    decreases k,
{
    if k == 0 || k > items.len() {
        Seq::empty()
    } else {
        joined(items, (k - 1) as nat) + items[k - 1]@
    }
}

/// The bytes that a string is written as: its length in bytes, then the bytes.
pub open spec fn string_bytes(s: Seq<char>) -> Seq<u8> {
    le_of_u32(encode_utf8(s).len() as u32) + encode_utf8(s)
}

/// The bytes that a byte vector is written as: its length, then the bytes.
pub open spec fn vec_bytes(v: Seq<u8>) -> Seq<u8> {
    le_of_u32(v.len() as u32) + v
}

/// Whether a cursor can be written from the source: what it refers to lies inside
/// the source, and what replaced a string, a byte vector or the items of a vector is
/// short enough for its length to be written.
pub open spec fn fits(c: Cursor, src: Seq<u8>) -> bool
    decreases c, 0nat, 0nat,
{
    match c {
        Cursor::String(s) => match s.value {
            UpdatableValue::Origin(offset, len) => offset + len <= src.len(),
            UpdatableValue::Updated(text) => encode_utf8(text@).len() <= u32::MAX,
        },
        Cursor::Struct(sc) => fits_all(sc.cursors@, sc.cursors@.len(), src),
        Cursor::Vec(vc) => vc.cursors@.len() + vc.add@.len() <= u32::MAX && fits_all(
            vc.cursors@,
            vc.cursors@.len(),
            src,
        ),
        Cursor::StaticVec(v) => match v.value {
            StaticVecValue::Origin(offset, len) => offset + 4 + len <= src.len(),
            StaticVecValue::NewValue(bytes) => bytes@.len() <= u32::MAX,
        },
        Cursor::Option(oc) => match oc.inner {
            None => true,
            Some(inner) => fits(*inner, src),
        },
        Cursor::Enum(e) => match e.value {
            UpdatableValue::Origin(offset, len) => offset + len <= src.len(),
            UpdatableValue::Updated(_) => true,
        },
        Cursor::Pubkey(p) => p.new_value is Some || p.offset + 32 <= src.len(),
        _ => true,
    }
}

/// Whether the first `k` cursors can be written from the source.
pub open spec fn fits_all(cursors: Seq<Cursor>, k: nat, src: Seq<u8>) -> bool
    decreases cursors, 1nat, k,
{
    if k == 0 || k > cursors.len() {
        true
    } else {
        fits_all(cursors, (k - 1) as nat, src) && fits(cursors[k - 1], src)
    }
}

/// The bytes that a cursor is written as.
pub open spec fn rendered(c: Cursor, src: Seq<u8>) -> Seq<u8>
    decreases c, 0nat, 0nat,
{
    match c {
        Cursor::Bool(p) => seq![if p.value {
            1u8
        } else {
            0u8
        }],
        Cursor::U8(p) => seq![p.value],
        Cursor::U16(p) => le_of_u16(p.value),
        Cursor::U32(p) => le_of_u32(p.value),
        Cursor::Usize(p) => le_of_u64(p.value as u64),
        Cursor::U64(p) => le_of_u64(p.value),
        Cursor::String(s) => match s.value {
            UpdatableValue::Origin(offset, len) => src.subrange(offset as int, offset + len),
            UpdatableValue::Updated(text) => string_bytes(text@),
        },
        Cursor::Struct(sc) => rendered_all(sc.cursors@, sc.cursors@.len(), src),
        Cursor::Vec(vc) => le_of_u32((vc.cursors@.len() + vc.add@.len()) as u32) + rendered_all(
            vc.cursors@,
            vc.cursors@.len(),
            src,
        ) + joined(vc.add@, vc.add@.len()),
        Cursor::StaticVec(v) => match v.value {
            StaticVecValue::Origin(offset, len) => src.subrange(offset as int, offset + 4 + len),
            StaticVecValue::NewValue(bytes) => vec_bytes(bytes@),
        },
        Cursor::Option(oc) => match oc.inner {
            None => seq![0u8],
            Some(inner) => seq![1u8] + rendered(*inner, src),
        },
        Cursor::Enum(e) => match e.value {
            UpdatableValue::Origin(offset, len) => src.subrange(offset as int, offset + len),
            UpdatableValue::Updated(bytes) => bytes@,
        },
        Cursor::Pubkey(p) => match p.new_value {
            Some(address) => address@,
            None => src.subrange(p.offset as int, p.offset + 32),
        },
        Cursor::Empty(_) => Seq::empty(),
    }
}

/// The bytes that the first `k` cursors are written as, one after the other.
pub open spec fn rendered_all(cursors: Seq<Cursor>, k: nat, src: Seq<u8>) -> Seq<u8>
    decreases cursors, 1nat, k,
{
    if k == 0 || k > cursors.len() {
        Seq::empty()
    } else {
        rendered_all(cursors, (k - 1) as nat, src) + rendered(cursors[k - 1], src)
    }
}

/// Whether a cursor is what reading a value of the layout at `at` gives.
pub open spec fn reads(c: Cursor, ct: CursorType, data: Seq<u8>, at: int) -> bool
    decreases ct, 0nat, 0nat,
{
    match ct {
        CursorType::Bool => c == Cursor::Bool(PrimitiveCursor { value: data[at] == 1 }),
        CursorType::U8 => c == Cursor::U8(PrimitiveCursor { value: data[at] }),
        CursorType::U16 => c == Cursor::U16(
            PrimitiveCursor { value: u16_of_le(data.subrange(at, at + 2)) },
        ),
        CursorType::U32 => c == Cursor::U32(
            PrimitiveCursor { value: u32_of_le(data.subrange(at, at + 4)) },
        ),
        CursorType::Usize => c == Cursor::Usize(
            PrimitiveCursor { value: u64_of_le(data.subrange(at, at + 8)) as usize },
        ),
        CursorType::U64 => c == Cursor::U64(
            PrimitiveCursor { value: u64_of_le(data.subrange(at, at + 8)) },
        ),
        CursorType::String => c == Cursor::String(
            StringCursor {
                value: UpdatableValue::Origin(
                    at as u16,
                    (u32_of_le(data.subrange(at, at + 4)) + 4) as u16,
                ),
            },
        ),
        CursorType::StaticVec => c == Cursor::StaticVec(
            StaticVecCursor {
                value: StaticVecValue::Origin(at as u16, u32_of_le(data.subrange(at, at + 4)) as u16),
            },
        ),
        CursorType::Struct(fields) => c is Struct && c->Struct_0.cursors@.len() == fields@.len()
            && reads_all(c->Struct_0.cursors@, fields@, fields@.len(), data, at),
        CursorType::Vec(item) => {
            &&& c is Vec
            &&& c->Vec_0.offset == at
            &&& c->Vec_0.add@.len() == 0
            &&& c->Vec_0.cursors@.len() == u32_of_le(data.subrange(at, at + 4))
            &&& reads_rep(c->Vec_0.cursors@, *item, c->Vec_0.cursors@.len(), data, at + 4)
        },
        CursorType::Option(inner) => {
            &&& c is Option
            &&& c->Option_0.offset == at
            &&& if data[at] == 0 {
                c->Option_0.inner is None
            } else {
                c->Option_0.inner is Some && reads(*c->Option_0.inner->Some_0, *inner, data, at + 1)
            }
        },
        CursorType::Enum(variants) => c == Cursor::Enum(
            EnumCursor {
                value: UpdatableValue::Origin(
                    at as u16,
                    (layout(variants@[data[at] as int], data, at + 1)->Ok_0 + 1) as u16,
                ),
            },
        ),
        CursorType::Pubkey => c == Cursor::Pubkey(
            PubkeyCursor { offset: at as u16, new_value: None },
        ),
        CursorType::Empty => c == Cursor::Empty(EmptyCursor {  }),
    }
}

/// Whether the first `k` cursors are what reading the first `k` fields, one after the
/// other from `at` on, gives.
pub open spec fn reads_all(
    cursors: Seq<Cursor>,
    fields: Seq<CursorType>,
    k: nat,
    data: Seq<u8>,
    at: int,
) -> bool
    decreases fields, 1nat, k,
{
    if k == 0 || k > fields.len() || k > cursors.len() {
        true
    } else {
        reads_all(cursors, fields, (k - 1) as nat, data, at) && reads(
            cursors[k - 1],
            fields[k - 1],
            data,
            at + layout_all(fields, (k - 1) as nat, data, at)->Ok_0,
        )
    }
}

/// Whether the first `k` cursors are what reading `k` items of one layout, one after
/// the other from `at` on, gives.
pub open spec fn reads_rep(cursors: Seq<Cursor>, item: CursorType, k: nat, data: Seq<u8>, at: int) -> bool
    decreases item, 1nat, k,
{
    if k == 0 || k > cursors.len() {
        true
    } else {
        reads_rep(cursors, item, (k - 1) as nat, data, at) && reads(
            cursors[k - 1],
            item,
            data,
            at + layout_rep(item, (k - 1) as nat, data, at)->Ok_0,
        )
    }
}

/// Cursors that were read stay what they are when more are read behind them.
proof fn lemma_reads_all_push(
    cursors: Seq<Cursor>,
    c: Cursor,
    fields: Seq<CursorType>,
    k: nat,
    data: Seq<u8>,
    at: int,
)
    requires
        k <= cursors.len(),
        reads_all(cursors, fields, k, data, at),
    ensures
        reads_all(cursors.push(c), fields, k, data, at),
    decreases k,
{
    if k > 0 && k <= fields.len() {
        lemma_reads_all_push(cursors, c, fields, (k - 1) as nat, data, at);
        assert(cursors.push(c)[k - 1] == cursors[k - 1]);
    }
}

/// Cursors that were read stay what they are when more are read behind them.
proof fn lemma_reads_rep_push(
    cursors: Seq<Cursor>,
    c: Cursor,
    item: CursorType,
    k: nat,
    data: Seq<u8>,
    at: int,
)
    requires
        k <= cursors.len(),
        reads_rep(cursors, item, k, data, at),
    ensures
        reads_rep(cursors.push(c), item, k, data, at),
    decreases k,
{
    if k > 0 {
        lemma_reads_rep_push(cursors, c, item, (k - 1) as nat, data, at);
        assert(cursors.push(c)[k - 1] == cursors[k - 1]);
    }
}

/// Whether `need` bytes lie in the buffer from `at` on.
fn has_room(data: &[u8], at: usize, need: usize) -> (r: bool)
    ensures
        r == (at + need <= data@.len()),
{
    let n: usize = data.len();
    at <= n && need <= n - at
}

impl Cursor {
    /// Reads a value of the layout that begins at `offset`. Returns the cursor and
    /// how many bytes the value takes.
    pub fn new(cursor_type: &CursorType, src: &[u8], offset: usize) -> (r: Result<
        (Cursor, usize),
        SerError,
    >)
        ensures
            match layout(*cursor_type, src@, offset as int) {
                Ok(w) => {
                    &&& r is Ok
                    &&& r->Ok_0.1 == w
                    &&& w > 0 ==> offset + w <= src@.len()
                    &&& reads(r->Ok_0.0, *cursor_type, src@, offset as int)
                },
                Err(e) => r is Err && r->Err_0 == e,
            },
        decreases cursor_type, 0nat, 0nat,
    {
        let total: usize = src.len();
        match cursor_type {
            CursorType::Bool => {
                if !has_room(src, offset, 1) || src[offset] > 1 {
                    return Err(SerError::IoError);
                }
                Ok((Cursor::Bool(PrimitiveCursor { value: src[offset] == 1 }), 1))
            },
            CursorType::U8 => {
                if !has_room(src, offset, 1) {
                    return Err(SerError::IoError);
                }
                Ok((Cursor::U8(PrimitiveCursor { value: src[offset] }), 1))
            },
            CursorType::U16 => {
                if !has_room(src, offset, 2) {
                    return Err(SerError::IoError);
                }
                match decode_u16(slice_subrange(src, offset, offset + 2)) {
                    Some(value) => Ok((Cursor::U16(PrimitiveCursor { value }), 2)),
                    None => Err(SerError::IoError),
                }
            },
            CursorType::U32 => {
                if !has_room(src, offset, 4) {
                    return Err(SerError::IoError);
                }
                match decode_u32(slice_subrange(src, offset, offset + 4)) {
                    Some(value) => Ok((Cursor::U32(PrimitiveCursor { value }), 4)),
                    None => Err(SerError::IoError),
                }
            },
            CursorType::Usize => {
                if !has_room(src, offset, 8) {
                    return Err(SerError::IoError);
                }
                match decode_u64(slice_subrange(src, offset, offset + 8)) {
                    Some(value) => {
                        if value > usize::MAX as u64 {
                            Err(SerError::IoError)
                        } else {
                            Ok((Cursor::Usize(PrimitiveCursor { value: value as usize }), 8))
                        }
                    },
                    None => Err(SerError::IoError),
                }
            },
            CursorType::U64 => {
                if !has_room(src, offset, 8) {
                    return Err(SerError::IoError);
                }
                match decode_u64(slice_subrange(src, offset, offset + 8)) {
                    Some(value) => Ok((Cursor::U64(PrimitiveCursor { value }), 8)),
                    None => Err(SerError::IoError),
                }
            },
            CursorType::String => {
                if !has_room(src, offset, 4) {
                    return Err(SerError::IoError);
                }
                if offset > u16::MAX as usize {
                    return Err(SerError::OffsetOverflow);
                }
                let len: u32 = match decode_u32(slice_subrange(src, offset, offset + 4)) {
                    Some(len) => len,
                    None => {
                        return Err(SerError::IoError);
                    },
                };
                if len > u16::MAX as u32 - 4 {
                    return Err(SerError::LengthOverflow);
                }
                let size: usize = len as usize + 4;
                if !has_room(src, offset, size) {
                    return Err(SerError::IoError);
                }
                Ok(
                    (
                        Cursor::String(
                            StringCursor {
                                value: UpdatableValue::Origin(offset as u16, size as u16),
                            },
                        ),
                        size,
                    ),
                )
            },
            CursorType::StaticVec => {
                if !has_room(src, offset, 4) {
                    return Err(SerError::IoError);
                }
                if offset > u16::MAX as usize {
                    return Err(SerError::OffsetOverflow);
                }
                let len: u32 = match decode_u32(slice_subrange(src, offset, offset + 4)) {
                    Some(len) => len,
                    None => {
                        return Err(SerError::IoError);
                    },
                };
                if len > u16::MAX as u32 {
                    return Err(SerError::LengthOverflow);
                }
                let size: usize = len as usize + 4;
                if !has_room(src, offset, size) {
                    return Err(SerError::IoError);
                }
                Ok(
                    (
                        Cursor::StaticVec(
                            StaticVecCursor {
                                value: StaticVecValue::Origin(offset as u16, len as u16),
                            },
                        ),
                        size,
                    ),
                )
            },
            CursorType::Struct(fields) => {
                let n: usize = fields.len();
                let mut cursors: Vec<Cursor> = Vec::new();
                let mut width: usize = 0;
                let mut k: usize = 0;
                while k < n
                    invariant
                        k <= n,
                        n == fields@.len(),
                        total == src@.len(),
                        *cursor_type == CursorType::Struct(*fields),
                        cursors@.len() == k,
                        layout_all(fields@, k as nat, src@, offset as int) == Ok::<int, SerError>(
                            width as int,
                        ),
                        width > 0 ==> offset + width <= total,
                        reads_all(cursors@, fields@, k as nat, src@, offset as int),
                    decreases n - k,
                {
                    match Cursor::new(&fields[k], src, offset + width) {
                        Err(e) => {
                            proof {
                                lemma_layout_all_fails(
                                    fields@,
                                    (k + 1) as nat,
                                    src@,
                                    offset as int,
                                    e,
                                );
                            }
                            return Err(e);
                        },
                        Ok((c, w)) => {
                            proof {
                                lemma_reads_all_push(
                                    cursors@,
                                    c,
                                    fields@,
                                    k as nat,
                                    src@,
                                    offset as int,
                                );
                            }
                            cursors.push(c);
                            width = width + w;
                        },
                    }
                    k += 1;
                }
                Ok((Cursor::Struct(StructCursor { cursors }), width))
            },
            CursorType::Vec(item) => {
                if !has_room(src, offset, 4) {
                    return Err(SerError::IoError);
                }
                if offset > u16::MAX as usize {
                    return Err(SerError::OffsetOverflow);
                }
                let count: u32 = match decode_u32(slice_subrange(src, offset, offset + 4)) {
                    Some(count) => count,
                    None => {
                        return Err(SerError::IoError);
                    },
                };
                let start: usize = offset + 4;
                let mut cursors: Vec<Cursor> = Vec::new();
                let mut width: usize = 0;
                let mut k: u32 = 0;
                while k < count
                    invariant
                        k <= count,
                        total == src@.len(),
                        start == offset + 4,
                        start <= total,
                        offset <= u16::MAX,
                        count == u32_of_le(src@.subrange(offset as int, offset + 4)),
                        *cursor_type == CursorType::Vec(*item),
                        cursors@.len() == k,
                        layout_rep(**item, k as nat, src@, start as int) == Ok::<int, SerError>(
                            width as int,
                        ),
                        start + width <= total,
                        reads_rep(cursors@, **item, k as nat, src@, start as int),
                    decreases count - k,
                {
                    match Cursor::new(item, src, start + width) {
                        Err(e) => {
                            proof {
                                lemma_layout_rep_fails(
                                    **item,
                                    (k + 1) as nat,
                                    count as nat,
                                    src@,
                                    start as int,
                                    e,
                                );
                            }
                            return Err(e);
                        },
                        Ok((c, w)) => {
                            proof {
                                lemma_reads_rep_push(
                                    cursors@,
                                    c,
                                    **item,
                                    k as nat,
                                    src@,
                                    start as int,
                                );
                            }
                            cursors.push(c);
                            width = width + w;
                        },
                    }
                    k += 1;
                }
                Ok(
                    (
                        Cursor::Vec(VecCursor { offset: offset as u16, cursors, add: Vec::new() }),
                        width + 4,
                    ),
                )
            },
            CursorType::Option(inner_type) => {
                if !has_room(src, offset, 1) || src[offset] > 1 {
                    return Err(SerError::IoError);
                }
                if offset > u16::MAX as usize {
                    return Err(SerError::OffsetOverflow);
                }
                if src[offset] == 0 {
                    Ok((Cursor::Option(OptionCursor { offset: offset as u16, inner: None }), 1))
                } else {
                    match Cursor::new(inner_type, src, offset + 1) {
                        Err(e) => Err(e),
                        Ok((c, w)) => Ok(
                            (
                                Cursor::Option(
                                    OptionCursor { offset: offset as u16, inner: Some(Box::new(c)) },
                                ),
                                w + 1,
                            ),
                        ),
                    }
                }
            },
            CursorType::Enum(variants) => {
                if !has_room(src, offset, 1) || src[offset] as usize >= variants.len() {
                    return Err(SerError::IoError);
                }
                if offset > u16::MAX as usize {
                    return Err(SerError::OffsetOverflow);
                }
                let discriminator: usize = src[offset] as usize;
                match Cursor::new(&variants[discriminator], src, offset + 1) {
                    Err(e) => Err(e),
                    Ok((_, w)) => {
                        if w >= u16::MAX as usize {
                            Err(SerError::LengthOverflow)
                        } else {
                            Ok(
                                (
                                    Cursor::Enum(
                                        EnumCursor {
                                            value: UpdatableValue::Origin(
                                                offset as u16,
                                                (w + 1) as u16,
                                            ),
                                        },
                                    ),
                                    w + 1,
                                ),
                            )
                        }
                    },
                }
            },
            CursorType::Pubkey => {
                if !has_room(src, offset, 32) {
                    return Err(SerError::IoError);
                }
                if offset > u16::MAX as usize {
                    return Err(SerError::OffsetOverflow);
                }
                Ok((Cursor::Pubkey(PubkeyCursor { offset: offset as u16, new_value: None }), 32))
            },
            CursorType::Empty => Ok((Cursor::Empty(EmptyCursor {  }), 0)),
        }
    }
}

/// The bytes of a buffer from `at` on, `w` of them; none where `w` is zero.
pub open spec fn span(data: Seq<u8>, at: int, w: int) -> Seq<u8> {
    if w <= 0 {
        Seq::empty()
    } else {
        data.subrange(at, at + w)
    }
}

/// A value that can be read ends inside the buffer and takes no fewer than zero
/// bytes.
pub proof fn lemma_layout_bounds(ct: CursorType, data: Seq<u8>, at: int)
    requires
        0 <= at,
        layout(ct, data, at) is Ok,
    ensures
        0 <= layout(ct, data, at)->Ok_0,
        layout(ct, data, at)->Ok_0 > 0 ==> at + layout(ct, data, at)->Ok_0 <= data.len(),
    decreases ct, 0nat, 0nat,
{
    match ct {
        CursorType::Struct(fields) => {
            lemma_layout_all_bounds(fields@, fields@.len(), data, at);
        },
        CursorType::Vec(item) => {
            lemma_layout_rep_bounds(
                *item,
                u32_of_le(data.subrange(at, at + 4)) as nat,
                data,
                at + 4,
            );
        },
        CursorType::Option(inner) => {
            if data[at] != 0 {
                lemma_layout_bounds(*inner, data, at + 1);
            }
        },
        CursorType::Enum(variants) => {
            lemma_layout_bounds(variants@[data[at] as int], data, at + 1);
        },
        _ => {},
    }
}

/// The first fields that can be read end inside the buffer.
pub proof fn lemma_layout_all_bounds(fields: Seq<CursorType>, k: nat, data: Seq<u8>, at: int)
    requires
        0 <= at,
        k <= fields.len(),
        layout_all(fields, k, data, at) is Ok,
    ensures
        0 <= layout_all(fields, k, data, at)->Ok_0,
        layout_all(fields, k, data, at)->Ok_0 > 0 ==> at + layout_all(fields, k, data, at)->Ok_0
            <= data.len(),
    decreases fields, 1nat, k,
{
    if k > 0 {
        lemma_layout_all_bounds(fields, (k - 1) as nat, data, at);
        let w = layout_all(fields, (k - 1) as nat, data, at)->Ok_0;
        lemma_layout_bounds(fields[k - 1], data, at + w);
    }
}

/// The first items that can be read end inside the buffer.
pub proof fn lemma_layout_rep_bounds(item: CursorType, k: nat, data: Seq<u8>, at: int)
    requires
        0 <= at,
        layout_rep(item, k, data, at) is Ok,
    ensures
        0 <= layout_rep(item, k, data, at)->Ok_0,
        layout_rep(item, k, data, at)->Ok_0 > 0 ==> at + layout_rep(item, k, data, at)->Ok_0
            <= data.len(),
    decreases item, 1nat, k,
{
    if k > 0 {
        lemma_layout_rep_bounds(item, (k - 1) as nat, data, at);
        let w = layout_rep(item, (k - 1) as nat, data, at)->Ok_0;
        lemma_layout_bounds(item, data, at + w);
    }
}

/// Read, then write: a cursor that was read can be written from the buffer it was
/// read from, and is written as the very bytes it was read from.
pub proof fn lemma_read_round_trip(c: Cursor, ct: CursorType, data: Seq<u8>, at: int)
    requires
        0 <= at,
        layout(ct, data, at) is Ok,
        reads(c, ct, data, at),
    ensures
        fits(c, data),
        rendered(c, data) == span(data, at, layout(ct, data, at)->Ok_0),
    decreases ct, 0nat, 0nat,
{
    let w = layout(ct, data, at)->Ok_0;
    lemma_layout_bounds(ct, data, at);
    match ct {
        CursorType::Bool => {
            assert(rendered(c, data) =~= data.subrange(at, at + 1));
        },
        CursorType::U8 => {
            assert(rendered(c, data) =~= data.subrange(at, at + 1));
        },
        CursorType::U16 => {
            crate::codec::lemma_u16_of_decoded(data.subrange(at, at + 2));
        },
        CursorType::U32 => {
            crate::codec::lemma_u32_of_decoded(data.subrange(at, at + 4));
        },
        CursorType::Usize => {
            crate::codec::lemma_u64_of_decoded(data.subrange(at, at + 8));
        },
        CursorType::U64 => {
            crate::codec::lemma_u64_of_decoded(data.subrange(at, at + 8));
        },
        CursorType::String => {},
        CursorType::StaticVec => {},
        CursorType::Struct(fields) => {
            lemma_read_all_round_trip(c->Struct_0.cursors@, fields@, fields@.len(), data, at);
        },
        CursorType::Vec(item) => {
            let count = u32_of_le(data.subrange(at, at + 4));
            let cursors = c->Vec_0.cursors@;
            lemma_read_rep_round_trip(cursors, *item, count as nat, data, at + 4);
            lemma_layout_rep_bounds(*item, count as nat, data, at + 4);
            crate::codec::lemma_u32_of_decoded(data.subrange(at, at + 4));
            let body = layout_rep(*item, count as nat, data, at + 4)->Ok_0;
            assert(joined(c->Vec_0.add@, 0) =~= Seq::empty());
            assert(rendered(c, data) =~= data.subrange(at, at + 4) + span(data, at + 4, body));
            assert(data.subrange(at, at + 4) + span(data, at + 4, body) =~= data.subrange(
                at,
                at + 4 + body,
            ));
        },
        CursorType::Option(inner) => {
            if data[at] == 0 {
                assert(rendered(c, data) =~= data.subrange(at, at + 1));
            } else {
                let kept = *c->Option_0.inner->Some_0;
                lemma_read_round_trip(kept, *inner, data, at + 1);
                lemma_layout_bounds(*inner, data, at + 1);
                let body = layout(*inner, data, at + 1)->Ok_0;
                assert(seq![1u8] + span(data, at + 1, body) =~= data.subrange(at, at + 1 + body));
            }
        },
        CursorType::Enum(variants) => {
            lemma_layout_bounds(variants@[data[at] as int], data, at + 1);
        },
        CursorType::Pubkey => {},
        CursorType::Empty => {},
    }
}

/// Read, then write, for the first `k` fields of a structure.
pub proof fn lemma_read_all_round_trip(
    cursors: Seq<Cursor>,
    fields: Seq<CursorType>,
    k: nat,
    data: Seq<u8>,
    at: int,
)
    requires
        0 <= at,
        k <= fields.len(),
        k <= cursors.len(),
        layout_all(fields, k, data, at) is Ok,
        reads_all(cursors, fields, k, data, at),
    ensures
        fits_all(cursors, k, data),
        rendered_all(cursors, k, data) == span(data, at, layout_all(fields, k, data, at)->Ok_0),
    decreases fields, 1nat, k,
{
    if k > 0 {
        let j = (k - 1) as nat;
        lemma_read_all_round_trip(cursors, fields, j, data, at);
        lemma_layout_all_bounds(fields, j, data, at);
        lemma_layout_all_bounds(fields, k, data, at);
        let w = layout_all(fields, j, data, at)->Ok_0;
        lemma_read_round_trip(cursors[k - 1], fields[k - 1], data, at + w);
        lemma_layout_bounds(fields[k - 1], data, at + w);
        let v = layout(fields[k - 1], data, at + w)->Ok_0;
        assert(span(data, at, w) + span(data, at + w, v) =~= span(data, at, w + v));
    }
}

/// Read, then write, for the first `k` items of a vector.
pub proof fn lemma_read_rep_round_trip(
    cursors: Seq<Cursor>,
    item: CursorType,
    k: nat,
    data: Seq<u8>,
    at: int,
)
    requires
        0 <= at,
        k <= cursors.len(),
        layout_rep(item, k, data, at) is Ok,
        reads_rep(cursors, item, k, data, at),
    ensures
        fits_all(cursors, k, data),
        rendered_all(cursors, k, data) == span(data, at, layout_rep(item, k, data, at)->Ok_0),
    decreases item, 1nat, k,
{
    if k > 0 {
        let j = (k - 1) as nat;
        lemma_read_rep_round_trip(cursors, item, j, data, at);
        lemma_layout_rep_bounds(item, j, data, at);
        lemma_layout_rep_bounds(item, k, data, at);
        let w = layout_rep(item, j, data, at)->Ok_0;
        lemma_read_round_trip(cursors[k - 1], item, data, at + w);
        lemma_layout_bounds(item, data, at + w);
        let v = layout(item, data, at + w)->Ok_0;
        assert(span(data, at, w) + span(data, at + w, v) =~= span(data, at, w + v));
    }
}

/// How many bytes added items take together.
pub open spec fn joined_len(items: Seq<Vec<u8>>, k: nat) -> nat
    decreases k,
{
    if k == 0 || k > items.len() {
        0
    } else {
        joined_len(items, (k - 1) as nat) + items[k - 1]@.len()
    }
}

/// How many bytes a cursor is written as.
pub open spec fn size_of(c: Cursor) -> nat
    decreases c, 0nat, 0nat,
{
    match c {
        Cursor::Bool(_) => 1,
        Cursor::U8(_) => 1,
        Cursor::U16(_) => 2,
        Cursor::U32(_) => 4,
        Cursor::Usize(_) => 8,
        Cursor::U64(_) => 8,
        Cursor::String(s) => match s.value {
            UpdatableValue::Origin(_, len) => len as nat,
            UpdatableValue::Updated(text) => 4 + encode_utf8(text@).len(),
        },
        Cursor::Struct(sc) => size_of_all(sc.cursors@, sc.cursors@.len()),
        Cursor::Vec(vc) => 4 + size_of_all(vc.cursors@, vc.cursors@.len()) + joined_len(
            vc.add@,
            vc.add@.len(),
        ),
        Cursor::StaticVec(v) => match v.value {
            StaticVecValue::Origin(_, len) => 4 + len as nat,
            StaticVecValue::NewValue(bytes) => 4 + bytes@.len(),
        },
        Cursor::Option(oc) => match oc.inner {
            None => 1,
            Some(inner) => 1 + size_of(*inner),
        },
        Cursor::Enum(e) => match e.value {
            UpdatableValue::Origin(_, len) => len as nat,
            UpdatableValue::Updated(bytes) => bytes@.len(),
        },
        Cursor::Pubkey(_) => 32,
        Cursor::Empty(_) => 0,
    }
}

/// How many bytes the first `k` cursors are written as.
pub open spec fn size_of_all(cursors: Seq<Cursor>, k: nat) -> nat
    decreases cursors, 1nat, k,
{
    if k == 0 || k > cursors.len() {
        0
    } else {
        size_of_all(cursors, (k - 1) as nat) + size_of(cursors[k - 1])
    }
}

/// Added items are written as many bytes as they hold.
pub proof fn lemma_joined_len(items: Seq<Vec<u8>>, k: nat)
    ensures
        joined(items, k).len() == joined_len(items, k),
    decreases k,
{
    if k > 0 && k <= items.len() {
        lemma_joined_len(items, (k - 1) as nat);
    }
}

/// A cursor that can be written is written as `size_of` bytes.
pub proof fn lemma_rendered_len(c: Cursor, src: Seq<u8>)
    requires
        fits(c, src),
    ensures
        rendered(c, src).len() == size_of(c),
    decreases c, 0nat, 0nat,
{
    match c {
        Cursor::Struct(sc) => {
            lemma_rendered_all_len(sc.cursors@, sc.cursors@.len(), src);
        },
        Cursor::Vec(vc) => {
            lemma_rendered_all_len(vc.cursors@, vc.cursors@.len(), src);
            lemma_joined_len(vc.add@, vc.add@.len());
        },
        Cursor::Option(oc) => {
            match oc.inner {
                Some(inner) => {
                    lemma_rendered_len(*inner, src);
                },
                None => {},
            }
        },
        _ => {},
    }
}

/// The first `k` cursors, if they can be written, are written as `size_of_all` bytes.
pub proof fn lemma_rendered_all_len(cursors: Seq<Cursor>, k: nat, src: Seq<u8>)
    requires
        fits_all(cursors, k, src),
    ensures
        rendered_all(cursors, k, src).len() == size_of_all(cursors, k),
    decreases cursors, 1nat, k,
{
    if k > 0 && k <= cursors.len() {
        lemma_rendered_all_len(cursors, (k - 1) as nat, src);
        lemma_rendered_len(cursors[k - 1], src);
    }
}

/// The sizes of the first cursors grow with their number.
proof fn lemma_size_of_all_grows(cursors: Seq<Cursor>, k: nat, n: nat)
    requires
        k <= n <= cursors.len(),
    ensures
        size_of_all(cursors, k) <= size_of_all(cursors, n),
    decreases n - k,
{
    if k < n {
        lemma_size_of_all_grows(cursors, k + 1, n);
    }
}

/// The sizes of the first added items grow with their number.
proof fn lemma_joined_len_grows(items: Seq<Vec<u8>>, k: nat, n: nat)
    requires
        k <= n <= items.len(),
    ensures
        joined_len(items, k) <= joined_len(items, n),
    decreases n - k,
{
    if k < n {
        lemma_joined_len_grows(items, k + 1, n);
    }
}

/// Writing one part behind the other is writing both.
proof fn lemma_splice_twice(data: Seq<u8>, at: int, first: Seq<u8>, second: Seq<u8>)
    requires
        0 <= at,
        at + first.len() + second.len() <= data.len(),
    ensures
        splice(splice(data, at, first), at + first.len(), second) == splice(
            data,
            at,
            first + second,
        ),
{
    assert(splice(splice(data, at, first), at + first.len(), second) =~= splice(
        data,
        at,
        first + second,
    ));
}

/// Writing nothing changes nothing.
proof fn lemma_splice_nothing(data: Seq<u8>, at: int)
    ensures
        splice(data, at, Seq::empty()) == data,
{
    assert(splice(data, at, Seq::empty()) =~= data);
}

impl StringCursor {
    /// How many bytes the cursor is written as.
    pub fn size(&self) -> (n: usize)
        requires
            size_of(Cursor::String(*self)) <= usize::MAX,
        ensures
            n == size_of(Cursor::String(*self)),
        decreases self,
    {
        match &self.value {
            UpdatableValue::Origin(_, len) => *len as usize,
            UpdatableValue::Updated(text) => text.as_str().as_bytes().len() + 4,
        }
    }

    /// Writes the cursor into `dest` from `offset` on, what was not replaced being
    /// copied from `src`. Returns how many bytes were written.
    pub fn write(&self, src: &[u8], dest: &mut [u8], offset: usize) -> (n: usize)
        requires
            fits(Cursor::String(*self), src@),
            offset + size_of(Cursor::String(*self)) <= old(dest)@.len(),
        ensures
            n == size_of(Cursor::String(*self)),
            final(dest)@ == splice(old(dest)@, offset as int, rendered(Cursor::String(*self), src@)),
        decreases self,
    {
        let room: usize = dest.len();
        proof {
            lemma_rendered_len(Cursor::String(*self), src@);
        }
        match &self.value {
            UpdatableValue::Origin(origin_offset, origin_len) => {
                let from: usize = *origin_offset as usize;
                let len: usize = *origin_len as usize;
                write_bytes(dest, offset, slice_subrange(src, from, from + len));
                len
            },
            UpdatableValue::Updated(text) => {
                let bytes: &[u8] = text.as_str().as_bytes();
                let len: usize = bytes.len();
                encode_u32(dest, offset, len as u32);
                write_bytes(dest, offset + 4, bytes);
                proof {
                    lemma_splice_twice(old(dest)@, offset as int, le_of_u32(len as u32), bytes@);
                }
                len + 4
            },
        }
    }
}

impl Writable for StringCursor {
    open spec fn written_size(&self) -> nat {
        size_of(Cursor::String(*self))
    }

    open spec fn can_write(&self, src: Seq<u8>) -> bool {
        fits(Cursor::String(*self), src)
    }

    open spec fn written(&self, src: Seq<u8>) -> Seq<u8> {
        rendered(Cursor::String(*self), src)
    }

    fn size(&self) -> (n: usize) {
        StringCursor::size(self)
    }

    fn write(&self, src: &[u8], dest: &mut [u8], offset: usize) -> (n: usize) {
        StringCursor::write(self, src, dest, offset)
    }
}

impl StructCursor {
    /// How many bytes the cursor is written as.
    pub fn size(&self) -> (n: usize)
        requires
            size_of(Cursor::Struct(*self)) <= usize::MAX,
        ensures
            n == size_of(Cursor::Struct(*self)),
        decreases self,
    {
        {
            let n: usize = self.cursors.len();
            let mut len: usize = 0;
            let mut k: usize = 0;
            while k < n
                invariant
                    k <= n,
                    n == self.cursors@.len(),
                                        size_of_all(self.cursors@, n as nat) <= usize::MAX,
                    len == size_of_all(self.cursors@, k as nat),
                decreases n - k,
            {
                proof {
                    lemma_size_of_all_grows(self.cursors@, (k + 1) as nat, n as nat);
                    assert(decreases_to!(*self => self.cursors));
                    assert(decreases_to!(self.cursors => self.cursors[k as int]));
                }
                len = len + self.cursors[k].size();
                k += 1;
            }
            len
        }
    }

    /// Writes the cursor into `dest` from `offset` on, what was not replaced being
    /// copied from `src`. Returns how many bytes were written.
    pub fn write(&self, src: &[u8], dest: &mut [u8], offset: usize) -> (n: usize)
        requires
            fits(Cursor::Struct(*self), src@),
            offset + size_of(Cursor::Struct(*self)) <= old(dest)@.len(),
        ensures
            n == size_of(Cursor::Struct(*self)),
            final(dest)@ == splice(old(dest)@, offset as int, rendered(Cursor::Struct(*self), src@)),
        decreases self,
    {
        let room: usize = dest.len();
        proof {
            lemma_rendered_len(Cursor::Struct(*self), src@);
        }
        {
            let n: usize = self.cursors.len();
            let mut len: usize = 0;
            let mut k: usize = 0;
            proof {
                lemma_splice_nothing(dest@, offset as int);
            }
            while k < n
                invariant
                    k <= n,
                    n == self.cursors@.len(),
                                        room == dest@.len(),
                    room == old(dest)@.len(),
                    fits_all(self.cursors@, n as nat, src@),
                    offset + size_of_all(self.cursors@, n as nat) <= room,
                    len == size_of_all(self.cursors@, k as nat),
                    dest@ == splice(
                        old(dest)@,
                        offset as int,
                        rendered_all(self.cursors@, k as nat, src@),
                    ),
                decreases n - k,
            {
                let ghost before = dest@;
                let ghost done = rendered_all(self.cursors@, k as nat, src@);
                proof {
                    lemma_size_of_all_grows(self.cursors@, (k + 1) as nat, n as nat);
                    lemma_fits_all_each(self.cursors@, k as nat, n as nat, src@);
                    lemma_rendered_all_len(self.cursors@, k as nat, src@);
                    lemma_rendered_len(self.cursors@[k as int], src@);
                    assert(decreases_to!(*self => self.cursors));
                    assert(decreases_to!(self.cursors => self.cursors[k as int]));
                }
                let written: usize = self.cursors[k].write(src, dest, offset + len);
                proof {
                    lemma_splice_twice(
                        old(dest)@,
                        offset as int,
                        done,
                        rendered(self.cursors@[k as int], src@),
                    );
                }
                len = len + written;
                k += 1;
            }
            len
        }
    }
}

impl Writable for StructCursor {
    open spec fn written_size(&self) -> nat {
        size_of(Cursor::Struct(*self))
    }

    open spec fn can_write(&self, src: Seq<u8>) -> bool {
        fits(Cursor::Struct(*self), src)
    }

    open spec fn written(&self, src: Seq<u8>) -> Seq<u8> {
        rendered(Cursor::Struct(*self), src)
    }

    fn size(&self) -> (n: usize) {
        StructCursor::size(self)
    }

    fn write(&self, src: &[u8], dest: &mut [u8], offset: usize) -> (n: usize) {
        StructCursor::write(self, src, dest, offset)
    }
}

impl VecCursor {
    /// How many bytes the cursor is written as.
    pub fn size(&self) -> (n: usize)
        requires
            size_of(Cursor::Vec(*self)) <= usize::MAX,
        ensures
            n == size_of(Cursor::Vec(*self)),
        decreases self,
    {
        {
            let n: usize = self.cursors.len();
            let m: usize = self.add.len();
            let mut len: usize = 4;
            let mut k: usize = 0;
            while k < n
                invariant
                    k <= n,
                    n == self.cursors@.len(),
                                        4 + size_of_all(self.cursors@, n as nat) <= usize::MAX,
                    len == 4 + size_of_all(self.cursors@, k as nat),
                decreases n - k,
            {
                proof {
                    lemma_size_of_all_grows(self.cursors@, (k + 1) as nat, n as nat);
                    assert(decreases_to!(*self => self.cursors));
                    assert(decreases_to!(self.cursors => self.cursors[k as int]));
                }
                len = len + self.cursors[k].size();
                k += 1;
            }
            let mut j: usize = 0;
            while j < m
                invariant
                    j <= m,
                    m == self.add@.len(),
                    4 + size_of_all(self.cursors@, n as nat) + joined_len(self.add@, m as nat)
                        <= usize::MAX,
                    len == 4 + size_of_all(self.cursors@, n as nat) + joined_len(self.add@, j as nat),
                decreases m - j,
            {
                proof {
                    lemma_joined_len_grows(self.add@, (j + 1) as nat, m as nat);
                }
                len = len + self.add[j].len();
                j += 1;
            }
            len
        }
    }

    /// Writes the cursor into `dest` from `offset` on, what was not replaced being
    /// copied from `src`. Returns how many bytes were written.
    pub fn write(&self, src: &[u8], dest: &mut [u8], offset: usize) -> (n: usize)
        requires
            fits(Cursor::Vec(*self), src@),
            offset + size_of(Cursor::Vec(*self)) <= old(dest)@.len(),
        ensures
            n == size_of(Cursor::Vec(*self)),
            final(dest)@ == splice(old(dest)@, offset as int, rendered(Cursor::Vec(*self), src@)),
        decreases self,
    {
        let room: usize = dest.len();
        proof {
            lemma_rendered_len(Cursor::Vec(*self), src@);
        }
        {
            let n: usize = self.cursors.len();
            let m: usize = self.add.len();
            let ghost head = le_of_u32((n + m) as u32);
            proof {
                lemma_rendered_all_len(self.cursors@, n as nat, src@);
                lemma_joined_len(self.add@, m as nat);
            }
            encode_u32(dest, offset, (n + m) as u32);
            let mut len: usize = 4;
            let mut k: usize = 0;
            assert(dest@ =~= splice(
                old(dest)@,
                offset as int,
                head + rendered_all(self.cursors@, 0, src@),
            ));
            while k < n
                invariant
                    k <= n,
                    n == self.cursors@.len(),
                    m == self.add@.len(),
                    head == le_of_u32((n + m) as u32),
                                        room == dest@.len(),
                    room == old(dest)@.len(),
                    fits_all(self.cursors@, n as nat, src@),
                    offset + 4 + size_of_all(self.cursors@, n as nat) + joined_len(
                        self.add@,
                        m as nat,
                    ) <= room,
                    len == 4 + size_of_all(self.cursors@, k as nat),
                    dest@ == splice(
                        old(dest)@,
                        offset as int,
                        head + rendered_all(self.cursors@, k as nat, src@),
                    ),
                decreases n - k,
            {
                let ghost done = head + rendered_all(self.cursors@, k as nat, src@);
                proof {
                    lemma_size_of_all_grows(self.cursors@, (k + 1) as nat, n as nat);
                    lemma_fits_all_each(self.cursors@, k as nat, n as nat, src@);
                    lemma_rendered_all_len(self.cursors@, k as nat, src@);
                    lemma_rendered_len(self.cursors@[k as int], src@);
                    assert(decreases_to!(*self => self.cursors));
                    assert(decreases_to!(self.cursors => self.cursors[k as int]));
                }
                let written: usize = self.cursors[k].write(src, dest, offset + len);
                proof {
                    lemma_splice_twice(
                        old(dest)@,
                        offset as int,
                        done,
                        rendered(self.cursors@[k as int], src@),
                    );
                    assert(done + rendered(self.cursors@[k as int], src@) =~= head + rendered_all(
                        self.cursors@,
                        (k + 1) as nat,
                        src@,
                    ));
                }
                len = len + written;
                k += 1;
            }
            let ghost body = head + rendered_all(self.cursors@, n as nat, src@);
            let mut j: usize = 0;
            assert(body + joined(self.add@, 0) =~= body);
            while j < m
                invariant
                    j <= m,
                    n == self.cursors@.len(),
                    m == self.add@.len(),
                    room == dest@.len(),
                    room == old(dest)@.len(),
                    body == head + rendered_all(self.cursors@, n as nat, src@),
                    body.len() == 4 + size_of_all(self.cursors@, n as nat),
                    offset + 4 + size_of_all(self.cursors@, n as nat) + joined_len(
                        self.add@,
                        m as nat,
                    ) <= room,
                    len == 4 + size_of_all(self.cursors@, n as nat) + joined_len(self.add@, j as nat),
                    dest@ == splice(
                        old(dest)@,
                        offset as int,
                        body + joined(self.add@, j as nat),
                    ),
                decreases m - j,
            {
                let ghost done = body + joined(self.add@, j as nat);
                proof {
                    lemma_joined_len_grows(self.add@, (j + 1) as nat, m as nat);
                    lemma_joined_len(self.add@, j as nat);
                }
                write_bytes(dest, offset + len, self.add[j].as_slice());
                proof {
                    lemma_splice_twice(old(dest)@, offset as int, done, self.add@[j as int]@);
                    assert(done + self.add@[j as int]@ =~= body + joined(
                        self.add@,
                        (j + 1) as nat,
                    ));
                }
                len = len + self.add[j].len();
                j += 1;
            }
            len
        }
    }
}

impl Writable for VecCursor {
    open spec fn written_size(&self) -> nat {
        size_of(Cursor::Vec(*self))
    }

    open spec fn can_write(&self, src: Seq<u8>) -> bool {
        fits(Cursor::Vec(*self), src)
    }

    open spec fn written(&self, src: Seq<u8>) -> Seq<u8> {
        rendered(Cursor::Vec(*self), src)
    }

    fn size(&self) -> (n: usize) {
        VecCursor::size(self)
    }

    fn write(&self, src: &[u8], dest: &mut [u8], offset: usize) -> (n: usize) {
        VecCursor::write(self, src, dest, offset)
    }
}

impl OptionCursor {
    /// How many bytes the cursor is written as.
    pub fn size(&self) -> (n: usize)
        requires
            size_of(Cursor::Option(*self)) <= usize::MAX,
        ensures
            n == size_of(Cursor::Option(*self)),
        decreases self,
    {
        match &self.inner {
            None => 1,
            Some(inner) => 1 + inner.size(),
        }
    }

    /// Writes the cursor into `dest` from `offset` on, what was not replaced being
    /// copied from `src`. Returns how many bytes were written.
    pub fn write(&self, src: &[u8], dest: &mut [u8], offset: usize) -> (n: usize)
        requires
            fits(Cursor::Option(*self), src@),
            offset + size_of(Cursor::Option(*self)) <= old(dest)@.len(),
        ensures
            n == size_of(Cursor::Option(*self)),
            final(dest)@ == splice(old(dest)@, offset as int, rendered(Cursor::Option(*self), src@)),
        decreases self,
    {
        let room: usize = dest.len();
        proof {
            lemma_rendered_len(Cursor::Option(*self), src@);
        }
        match &self.inner {
            None => {
                dest[offset] = 0;
                assert(dest@ =~= splice(old(dest)@, offset as int, rendered(Cursor::Option(*self), src@)));
                1
            },
            Some(inner) => {
                dest[offset] = 1;
                assert(dest@ =~= splice(old(dest)@, offset as int, seq![1u8]));
                proof {
                    lemma_rendered_len(**inner, src@);
                }
                let written: usize = inner.write(src, dest, offset + 1);
                proof {
                    lemma_splice_twice(
                        old(dest)@,
                        offset as int,
                        seq![1u8],
                        rendered(**inner, src@),
                    );
                }
                written + 1
            },
        }
    }
}

impl Writable for OptionCursor {
    open spec fn written_size(&self) -> nat {
        size_of(Cursor::Option(*self))
    }

    open spec fn can_write(&self, src: Seq<u8>) -> bool {
        fits(Cursor::Option(*self), src)
    }

    open spec fn written(&self, src: Seq<u8>) -> Seq<u8> {
        rendered(Cursor::Option(*self), src)
    }

    fn size(&self) -> (n: usize) {
        OptionCursor::size(self)
    }

    fn write(&self, src: &[u8], dest: &mut [u8], offset: usize) -> (n: usize) {
        OptionCursor::write(self, src, dest, offset)
    }
}

impl EnumCursor {
    /// How many bytes the cursor is written as.
    pub fn size(&self) -> (n: usize)
        requires
            size_of(Cursor::Enum(*self)) <= usize::MAX,
        ensures
            n == size_of(Cursor::Enum(*self)),
        decreases self,
    {
        match &self.value {
            UpdatableValue::Origin(_, len) => *len as usize,
            UpdatableValue::Updated(bytes) => bytes.len(),
        }
    }

    /// Writes the cursor into `dest` from `offset` on, what was not replaced being
    /// copied from `src`. Returns how many bytes were written.
    pub fn write(&self, src: &[u8], dest: &mut [u8], offset: usize) -> (n: usize)
        requires
            fits(Cursor::Enum(*self), src@),
            offset + size_of(Cursor::Enum(*self)) <= old(dest)@.len(),
        ensures
            n == size_of(Cursor::Enum(*self)),
            final(dest)@ == splice(old(dest)@, offset as int, rendered(Cursor::Enum(*self), src@)),
        decreases self,
    {
        let room: usize = dest.len();
        proof {
            lemma_rendered_len(Cursor::Enum(*self), src@);
        }
        match &self.value {
            UpdatableValue::Origin(origin_offset, origin_len) => {
                let from: usize = *origin_offset as usize;
                let len: usize = *origin_len as usize;
                write_bytes(dest, offset, slice_subrange(src, from, from + len));
                len
            },
            UpdatableValue::Updated(bytes) => {
                write_bytes(dest, offset, bytes.as_slice());
                bytes.len()
            },
        }
    }
}

impl Writable for EnumCursor {
    open spec fn written_size(&self) -> nat {
        size_of(Cursor::Enum(*self))
    }

    open spec fn can_write(&self, src: Seq<u8>) -> bool {
        fits(Cursor::Enum(*self), src)
    }

    open spec fn written(&self, src: Seq<u8>) -> Seq<u8> {
        rendered(Cursor::Enum(*self), src)
    }

    fn size(&self) -> (n: usize) {
        EnumCursor::size(self)
    }

    fn write(&self, src: &[u8], dest: &mut [u8], offset: usize) -> (n: usize) {
        EnumCursor::write(self, src, dest, offset)
    }
}

impl PubkeyCursor {
    /// How many bytes the cursor is written as.
    pub fn size(&self) -> (n: usize)
        requires
            size_of(Cursor::Pubkey(*self)) <= usize::MAX,
        ensures
            n == size_of(Cursor::Pubkey(*self)),
        decreases self,
    {
        32
    }

    /// Writes the cursor into `dest` from `offset` on, what was not replaced being
    /// copied from `src`. Returns how many bytes were written.
    pub fn write(&self, src: &[u8], dest: &mut [u8], offset: usize) -> (n: usize)
        requires
            fits(Cursor::Pubkey(*self), src@),
            offset + size_of(Cursor::Pubkey(*self)) <= old(dest)@.len(),
        ensures
            n == size_of(Cursor::Pubkey(*self)),
            final(dest)@ == splice(old(dest)@, offset as int, rendered(Cursor::Pubkey(*self), src@)),
        decreases self,
    {
        let room: usize = dest.len();
        proof {
            lemma_rendered_len(Cursor::Pubkey(*self), src@);
        }
        {
            match &self.new_value {
                Some(address) => {
                    write_bytes(dest, offset, address.bytes.as_slice());
                },
                None => {
                    let from: usize = self.offset as usize;
                    write_bytes(dest, offset, slice_subrange(src, from, from + 32));
                },
            }
            32
        }
    }
}

impl Writable for PubkeyCursor {
    open spec fn written_size(&self) -> nat {
        size_of(Cursor::Pubkey(*self))
    }

    open spec fn can_write(&self, src: Seq<u8>) -> bool {
        fits(Cursor::Pubkey(*self), src)
    }

    open spec fn written(&self, src: Seq<u8>) -> Seq<u8> {
        rendered(Cursor::Pubkey(*self), src)
    }

    fn size(&self) -> (n: usize) {
        PubkeyCursor::size(self)
    }

    fn write(&self, src: &[u8], dest: &mut [u8], offset: usize) -> (n: usize) {
        PubkeyCursor::write(self, src, dest, offset)
    }
}

impl PrimitiveCursor<bool> {
    /// How many bytes the cursor is written as.
    pub fn size(&self) -> (n: usize)
        requires
            size_of(Cursor::Bool(*self)) <= usize::MAX,
        ensures
            n == size_of(Cursor::Bool(*self)),
        decreases self,
    {
        1
    }

    /// Writes the cursor into `dest` from `offset` on, what was not replaced being
    /// copied from `src`. Returns how many bytes were written.
    pub fn write(&self, src: &[u8], dest: &mut [u8], offset: usize) -> (n: usize)
        requires
            fits(Cursor::Bool(*self), src@),
            offset + size_of(Cursor::Bool(*self)) <= old(dest)@.len(),
        ensures
            n == size_of(Cursor::Bool(*self)),
            final(dest)@ == splice(old(dest)@, offset as int, rendered(Cursor::Bool(*self), src@)),
        decreases self,
    {
        let room: usize = dest.len();
        proof {
            lemma_rendered_len(Cursor::Bool(*self), src@);
        }
        dest[offset] = if self.value {
            1
        } else {
            0
        };
        assert(dest@ =~= splice(old(dest)@, offset as int, rendered(Cursor::Bool(*self), src@)));
        1
    }
}

impl Writable for PrimitiveCursor<bool> {
    open spec fn written_size(&self) -> nat {
        size_of(Cursor::Bool(*self))
    }

    open spec fn can_write(&self, src: Seq<u8>) -> bool {
        fits(Cursor::Bool(*self), src)
    }

    open spec fn written(&self, src: Seq<u8>) -> Seq<u8> {
        rendered(Cursor::Bool(*self), src)
    }

    fn size(&self) -> (n: usize) {
        PrimitiveCursor::<bool>::size(self)
    }

    fn write(&self, src: &[u8], dest: &mut [u8], offset: usize) -> (n: usize) {
        PrimitiveCursor::<bool>::write(self, src, dest, offset)
    }
}

impl PrimitiveCursor<u8> {
    /// How many bytes the cursor is written as.
    pub fn size(&self) -> (n: usize)
        requires
            size_of(Cursor::U8(*self)) <= usize::MAX,
        ensures
            n == size_of(Cursor::U8(*self)),
        decreases self,
    {
        1
    }

    /// Writes the cursor into `dest` from `offset` on, what was not replaced being
    /// copied from `src`. Returns how many bytes were written.
    pub fn write(&self, src: &[u8], dest: &mut [u8], offset: usize) -> (n: usize)
        requires
            fits(Cursor::U8(*self), src@),
            offset + size_of(Cursor::U8(*self)) <= old(dest)@.len(),
        ensures
            n == size_of(Cursor::U8(*self)),
            final(dest)@ == splice(old(dest)@, offset as int, rendered(Cursor::U8(*self), src@)),
        decreases self,
    {
        let room: usize = dest.len();
        proof {
            lemma_rendered_len(Cursor::U8(*self), src@);
        }
        dest[offset] = self.value;
        assert(dest@ =~= splice(old(dest)@, offset as int, rendered(Cursor::U8(*self), src@)));
        1
    }
}

impl Writable for PrimitiveCursor<u8> {
    open spec fn written_size(&self) -> nat {
        size_of(Cursor::U8(*self))
    }

    open spec fn can_write(&self, src: Seq<u8>) -> bool {
        fits(Cursor::U8(*self), src)
    }

    open spec fn written(&self, src: Seq<u8>) -> Seq<u8> {
        rendered(Cursor::U8(*self), src)
    }

    fn size(&self) -> (n: usize) {
        PrimitiveCursor::<u8>::size(self)
    }

    fn write(&self, src: &[u8], dest: &mut [u8], offset: usize) -> (n: usize) {
        PrimitiveCursor::<u8>::write(self, src, dest, offset)
    }
}

impl PrimitiveCursor<u16> {
    /// How many bytes the cursor is written as.
    pub fn size(&self) -> (n: usize)
        requires
            size_of(Cursor::U16(*self)) <= usize::MAX,
        ensures
            n == size_of(Cursor::U16(*self)),
        decreases self,
    {
        2
    }

    /// Writes the cursor into `dest` from `offset` on, what was not replaced being
    /// copied from `src`. Returns how many bytes were written.
    pub fn write(&self, src: &[u8], dest: &mut [u8], offset: usize) -> (n: usize)
        requires
            fits(Cursor::U16(*self), src@),
            offset + size_of(Cursor::U16(*self)) <= old(dest)@.len(),
        ensures
            n == size_of(Cursor::U16(*self)),
            final(dest)@ == splice(old(dest)@, offset as int, rendered(Cursor::U16(*self), src@)),
        decreases self,
    {
        let room: usize = dest.len();
        proof {
            lemma_rendered_len(Cursor::U16(*self), src@);
        }
        encode_u16(dest, offset, self.value);
        2
    }
}

impl Writable for PrimitiveCursor<u16> {
    open spec fn written_size(&self) -> nat {
        size_of(Cursor::U16(*self))
    }

    open spec fn can_write(&self, src: Seq<u8>) -> bool {
        fits(Cursor::U16(*self), src)
    }

    open spec fn written(&self, src: Seq<u8>) -> Seq<u8> {
        rendered(Cursor::U16(*self), src)
    }

    fn size(&self) -> (n: usize) {
        PrimitiveCursor::<u16>::size(self)
    }

    fn write(&self, src: &[u8], dest: &mut [u8], offset: usize) -> (n: usize) {
        PrimitiveCursor::<u16>::write(self, src, dest, offset)
    }
}

impl PrimitiveCursor<u32> {
    /// How many bytes the cursor is written as.
    pub fn size(&self) -> (n: usize)
        requires
            size_of(Cursor::U32(*self)) <= usize::MAX,
        ensures
            n == size_of(Cursor::U32(*self)),
        decreases self,
    {
        4
    }

    /// Writes the cursor into `dest` from `offset` on, what was not replaced being
    /// copied from `src`. Returns how many bytes were written.
    pub fn write(&self, src: &[u8], dest: &mut [u8], offset: usize) -> (n: usize)
        requires
            fits(Cursor::U32(*self), src@),
            offset + size_of(Cursor::U32(*self)) <= old(dest)@.len(),
        ensures
            n == size_of(Cursor::U32(*self)),
            final(dest)@ == splice(old(dest)@, offset as int, rendered(Cursor::U32(*self), src@)),
        decreases self,
    {
        let room: usize = dest.len();
        proof {
            lemma_rendered_len(Cursor::U32(*self), src@);
        }
        encode_u32(dest, offset, self.value);
        4
    }
}

impl Writable for PrimitiveCursor<u32> {
    open spec fn written_size(&self) -> nat {
        size_of(Cursor::U32(*self))
    }

    open spec fn can_write(&self, src: Seq<u8>) -> bool {
        fits(Cursor::U32(*self), src)
    }

    open spec fn written(&self, src: Seq<u8>) -> Seq<u8> {
        rendered(Cursor::U32(*self), src)
    }

    fn size(&self) -> (n: usize) {
        PrimitiveCursor::<u32>::size(self)
    }

    fn write(&self, src: &[u8], dest: &mut [u8], offset: usize) -> (n: usize) {
        PrimitiveCursor::<u32>::write(self, src, dest, offset)
    }
}

impl PrimitiveCursor<usize> {
    /// How many bytes the cursor is written as.
    pub fn size(&self) -> (n: usize)
        requires
            size_of(Cursor::Usize(*self)) <= usize::MAX,
        ensures
            n == size_of(Cursor::Usize(*self)),
        decreases self,
    {
        8
    }

    /// Writes the cursor into `dest` from `offset` on, what was not replaced being
    /// copied from `src`. Returns how many bytes were written.
    pub fn write(&self, src: &[u8], dest: &mut [u8], offset: usize) -> (n: usize)
        requires
            fits(Cursor::Usize(*self), src@),
            offset + size_of(Cursor::Usize(*self)) <= old(dest)@.len(),
        ensures
            n == size_of(Cursor::Usize(*self)),
            final(dest)@ == splice(old(dest)@, offset as int, rendered(Cursor::Usize(*self), src@)),
        decreases self,
    {
        let room: usize = dest.len();
        proof {
            lemma_rendered_len(Cursor::Usize(*self), src@);
        }
        encode_u64(dest, offset, self.value as u64);
        8
    }
}

impl Writable for PrimitiveCursor<usize> {
    open spec fn written_size(&self) -> nat {
        size_of(Cursor::Usize(*self))
    }

    open spec fn can_write(&self, src: Seq<u8>) -> bool {
        fits(Cursor::Usize(*self), src)
    }

    open spec fn written(&self, src: Seq<u8>) -> Seq<u8> {
        rendered(Cursor::Usize(*self), src)
    }

    fn size(&self) -> (n: usize) {
        PrimitiveCursor::<usize>::size(self)
    }

    fn write(&self, src: &[u8], dest: &mut [u8], offset: usize) -> (n: usize) {
        PrimitiveCursor::<usize>::write(self, src, dest, offset)
    }
}

impl PrimitiveCursor<u64> {
    /// How many bytes the cursor is written as.
    pub fn size(&self) -> (n: usize)
        requires
            size_of(Cursor::U64(*self)) <= usize::MAX,
        ensures
            n == size_of(Cursor::U64(*self)),
        decreases self,
    {
        8
    }

    /// Writes the cursor into `dest` from `offset` on, what was not replaced being
    /// copied from `src`. Returns how many bytes were written.
    pub fn write(&self, src: &[u8], dest: &mut [u8], offset: usize) -> (n: usize)
        requires
            fits(Cursor::U64(*self), src@),
            offset + size_of(Cursor::U64(*self)) <= old(dest)@.len(),
        ensures
            n == size_of(Cursor::U64(*self)),
            final(dest)@ == splice(old(dest)@, offset as int, rendered(Cursor::U64(*self), src@)),
        decreases self,
    {
        let room: usize = dest.len();
        proof {
            lemma_rendered_len(Cursor::U64(*self), src@);
        }
        encode_u64(dest, offset, self.value);
        8
    }
}

impl Writable for PrimitiveCursor<u64> {
    open spec fn written_size(&self) -> nat {
        size_of(Cursor::U64(*self))
    }

    open spec fn can_write(&self, src: Seq<u8>) -> bool {
        fits(Cursor::U64(*self), src)
    }

    open spec fn written(&self, src: Seq<u8>) -> Seq<u8> {
        rendered(Cursor::U64(*self), src)
    }

    fn size(&self) -> (n: usize) {
        PrimitiveCursor::<u64>::size(self)
    }

    fn write(&self, src: &[u8], dest: &mut [u8], offset: usize) -> (n: usize) {
        PrimitiveCursor::<u64>::write(self, src, dest, offset)
    }
}

impl Cursor {
    /// How many bytes the cursor is written as.
    pub fn size(&self) -> (n: usize)
        requires
            size_of(*self) <= usize::MAX,
        ensures
            n == size_of(*self),
        decreases self,
    {
        match self {
            Cursor::Bool(c) => c.size(),
            Cursor::U8(c) => c.size(),
            Cursor::U16(c) => c.size(),
            Cursor::U32(c) => c.size(),
            Cursor::Usize(c) => c.size(),
            Cursor::U64(c) => c.size(),
            Cursor::String(c) => c.size(),
            Cursor::Struct(c) => {
                proof {
                    assert(self->Struct_0 == *c);
                    assert(decreases_to!(*self => self->Struct_0));
                }
                c.size()
            },
            Cursor::Vec(c) => {
                proof {
                    assert(self->Vec_0 == *c);
                    assert(decreases_to!(*self => self->Vec_0));
                }
                c.size()
            },
            Cursor::StaticVec(c) => Writable::size(c),
            Cursor::Option(c) => {
                proof {
                    assert(self->Option_0 == *c);
                    assert(decreases_to!(*self => self->Option_0));
                }
                c.size()
            },
            Cursor::Enum(c) => c.size(),
            Cursor::Pubkey(c) => c.size(),
            Cursor::Empty(_) => 0,
        }
    }

    /// Writes the cursor into `dest` from `offset` on. What was not replaced is copied
    /// from `src`, the buffer the cursor was read from. Returns how many bytes were
    /// written.
    pub fn write(&self, src: &[u8], dest: &mut [u8], offset: usize) -> (n: usize)
        requires
            fits(*self, src@),
            offset + size_of(*self) <= old(dest)@.len(),
        ensures
            n == size_of(*self),
            final(dest)@ == splice(old(dest)@, offset as int, rendered(*self, src@)),
        decreases self,
    {
        match self {
            Cursor::Bool(c) => c.write(src, dest, offset),
            Cursor::U8(c) => c.write(src, dest, offset),
            Cursor::U16(c) => c.write(src, dest, offset),
            Cursor::U32(c) => c.write(src, dest, offset),
            Cursor::Usize(c) => c.write(src, dest, offset),
            Cursor::U64(c) => c.write(src, dest, offset),
            Cursor::String(c) => c.write(src, dest, offset),
            Cursor::Struct(c) => {
                proof {
                    assert(self->Struct_0 == *c);
                    assert(decreases_to!(*self => self->Struct_0));
                }
                c.write(src, dest, offset)
            },
            Cursor::Vec(c) => {
                proof {
                    assert(self->Vec_0 == *c);
                    assert(decreases_to!(*self => self->Vec_0));
                }
                c.write(src, dest, offset)
            },
            Cursor::StaticVec(c) => Writable::write(c, src, dest, offset),
            Cursor::Option(c) => {
                proof {
                    assert(self->Option_0 == *c);
                    assert(decreases_to!(*self => self->Option_0));
                }
                c.write(src, dest, offset)
            },
            Cursor::Enum(c) => c.write(src, dest, offset),
            Cursor::Pubkey(c) => c.write(src, dest, offset),
            Cursor::Empty(_) => {
                proof {
                    lemma_splice_nothing(dest@, offset as int);
                }
                0
            },
        }
    }
}

/// Cursors that can be written together can be written each, and so can the first
/// of them.
proof fn lemma_fits_all_each(cursors: Seq<Cursor>, k: nat, n: nat, src: Seq<u8>)
    requires
        k < n <= cursors.len(),
        fits_all(cursors, n, src),
    ensures
        fits(cursors[k as int], src),
        fits_all(cursors, k, src),
        fits_all(cursors, k + 1, src),
    decreases n - k,
{
    if k + 1 < n {
        lemma_fits_all_each(cursors, k + 1, n, src);
    }
}

/// What can be written out: it tells how many bytes it takes and writes them.
pub trait Writable {
    /// How many bytes it is written as.
    spec fn written_size(&self) -> nat;

    /// Whether it can be written from the source.
    spec fn can_write(&self, src: Seq<u8>) -> bool;

    /// The bytes it is written as.
    spec fn written(&self, src: Seq<u8>) -> Seq<u8>;

    /// How many bytes it is written as.
    fn size(&self) -> (n: usize)
        requires
            self.written_size() <= usize::MAX,
        ensures
            n == self.written_size(),
    ;

    /// Writes it into `dest` from `offset` on, what was not replaced being copied
    /// from `src`. Returns how many bytes were written.
    fn write(&self, src: &[u8], dest: &mut [u8], offset: usize) -> (n: usize)
        requires
            self.can_write(src@),
            offset + self.written_size() <= old(dest)@.len(),
        ensures
            n == self.written_size(),
            final(dest)@ == splice(old(dest)@, offset as int, self.written(src@)),
    ;
}

impl Writable for Cursor {
    open spec fn written_size(&self) -> nat {
        size_of(*self)
    }

    open spec fn can_write(&self, src: Seq<u8>) -> bool {
        fits(*self, src)
    }

    open spec fn written(&self, src: Seq<u8>) -> Seq<u8> {
        rendered(*self, src)
    }

    fn size(&self) -> (n: usize) {
        Cursor::size(self)
    }

    fn write(&self, src: &[u8], dest: &mut [u8], offset: usize) -> (n: usize) {
        Cursor::write(self, src, dest, offset)
    }
}

impl Writable for EmptyCursor {
    open spec fn written_size(&self) -> nat {
        0
    }

    open spec fn can_write(&self, src: Seq<u8>) -> bool {
        true
    }

    open spec fn written(&self, src: Seq<u8>) -> Seq<u8> {
        Seq::empty()
    }

    fn size(&self) -> (n: usize) {
        0
    }

    fn write(&self, src: &[u8], dest: &mut [u8], offset: usize) -> (n: usize) {
        proof {
            lemma_splice_nothing(dest@, offset as int);
        }
        0
    }
}

impl EmptyCursor {
    /// A cursor on nothing; it takes no bytes.
    pub fn new(offset: usize) -> (r: (Self, usize))
        ensures
            r.1 == 0,
    {
        (EmptyCursor {  }, 0)
    }
}

impl Writable for StaticVecCursor {
    open spec fn written_size(&self) -> nat {
        size_of(Cursor::StaticVec(*self))
    }

    open spec fn can_write(&self, src: Seq<u8>) -> bool {
        fits(Cursor::StaticVec(*self), src)
    }

    open spec fn written(&self, src: Seq<u8>) -> Seq<u8> {
        rendered(Cursor::StaticVec(*self), src)
    }

    fn size(&self) -> (n: usize) {
        match &self.value {
            StaticVecValue::Origin(_, len) => 4 + *len as usize,
            StaticVecValue::NewValue(bytes) => 4 + bytes.len(),
        }
    }

    fn write(&self, src: &[u8], dest: &mut [u8], offset: usize) -> (n: usize) {
        let room: usize = dest.len();
        match &self.value {
            StaticVecValue::Origin(origin_offset, origin_len) => {
                let from: usize = *origin_offset as usize;
                let len: usize = *origin_len as usize + 4;
                write_bytes(dest, offset, slice_subrange(src, from, from + len));
                len
            },
            StaticVecValue::NewValue(bytes) => {
                let len: usize = bytes.len();
                encode_u32(dest, offset, len as u32);
                write_bytes(dest, offset + 4, bytes.as_slice());
                proof {
                    lemma_splice_twice(old(dest)@, offset as int, le_of_u32(len as u32), bytes@);
                }
                len + 4
            },
        }
    }
}

impl PrimitiveCursor<bool> {
    /// Reads a flag that begins at `offset`. Returns the cursor and how many bytes the
    /// value takes.
    pub fn new(data: &[u8], offset: usize) -> (r: Result<(Self, usize), SerError>)
        ensures
            match layout(CursorType::Bool, data@, offset as int) {
                Ok(w) => {
                    &&& r is Ok
                    &&& r->Ok_0.1 == w
                    &&& offset + w <= data@.len()
                    &&& reads(Cursor::Bool(r->Ok_0.0), CursorType::Bool, data@, offset as int)
                },
                Err(e) => r is Err && r->Err_0 == e,
            },
    {
        match Cursor::new(&CursorType::Bool, data, offset) {
            Err(e) => Err(e),
            Ok((Cursor::Bool(cursor), w)) => Ok((cursor, w)),
            Ok(_) => Err(SerError::InvalidCursorType),
        }
    }
}

impl PrimitiveCursor<u8> {
    /// Reads a byte that begins at `offset`. Returns the cursor and how many bytes the
    /// value takes.
    pub fn new(data: &[u8], offset: usize) -> (r: Result<(Self, usize), SerError>)
        ensures
            match layout(CursorType::U8, data@, offset as int) {
                Ok(w) => {
                    &&& r is Ok
                    &&& r->Ok_0.1 == w
                    &&& offset + w <= data@.len()
                    &&& reads(Cursor::U8(r->Ok_0.0), CursorType::U8, data@, offset as int)
                },
                Err(e) => r is Err && r->Err_0 == e,
            },
    {
        match Cursor::new(&CursorType::U8, data, offset) {
            Err(e) => Err(e),
            Ok((Cursor::U8(cursor), w)) => Ok((cursor, w)),
            Ok(_) => Err(SerError::InvalidCursorType),
        }
    }
}

impl PrimitiveCursor<u16> {
    /// Reads a number of two bytes that begins at `offset`. Returns the cursor and how many bytes the
    /// value takes.
    pub fn new(data: &[u8], offset: usize) -> (r: Result<(Self, usize), SerError>)
        ensures
            match layout(CursorType::U16, data@, offset as int) {
                Ok(w) => {
                    &&& r is Ok
                    &&& r->Ok_0.1 == w
                    &&& offset + w <= data@.len()
                    &&& reads(Cursor::U16(r->Ok_0.0), CursorType::U16, data@, offset as int)
                },
                Err(e) => r is Err && r->Err_0 == e,
            },
    {
        match Cursor::new(&CursorType::U16, data, offset) {
            Err(e) => Err(e),
            Ok((Cursor::U16(cursor), w)) => Ok((cursor, w)),
            Ok(_) => Err(SerError::InvalidCursorType),
        }
    }
}

impl PrimitiveCursor<u32> {
    /// Reads a number of four bytes that begins at `offset`. Returns the cursor and how many bytes the
    /// value takes.
    pub fn new(data: &[u8], offset: usize) -> (r: Result<(Self, usize), SerError>)
        ensures
            match layout(CursorType::U32, data@, offset as int) {
                Ok(w) => {
                    &&& r is Ok
                    &&& r->Ok_0.1 == w
                    &&& offset + w <= data@.len()
                    &&& reads(Cursor::U32(r->Ok_0.0), CursorType::U32, data@, offset as int)
                },
                Err(e) => r is Err && r->Err_0 == e,
            },
    {
        match Cursor::new(&CursorType::U32, data, offset) {
            Err(e) => Err(e),
            Ok((Cursor::U32(cursor), w)) => Ok((cursor, w)),
            Ok(_) => Err(SerError::InvalidCursorType),
        }
    }
}

impl PrimitiveCursor<usize> {
    /// Reads a size that begins at `offset`. Returns the cursor and how many bytes the
    /// value takes.
    pub fn new(data: &[u8], offset: usize) -> (r: Result<(Self, usize), SerError>)
        ensures
            match layout(CursorType::Usize, data@, offset as int) {
                Ok(w) => {
                    &&& r is Ok
                    &&& r->Ok_0.1 == w
                    &&& offset + w <= data@.len()
                    &&& reads(Cursor::Usize(r->Ok_0.0), CursorType::Usize, data@, offset as int)
                },
                Err(e) => r is Err && r->Err_0 == e,
            },
    {
        match Cursor::new(&CursorType::Usize, data, offset) {
            Err(e) => Err(e),
            Ok((Cursor::Usize(cursor), w)) => Ok((cursor, w)),
            Ok(_) => Err(SerError::InvalidCursorType),
        }
    }
}

impl PrimitiveCursor<u64> {
    /// Reads a number of eight bytes that begins at `offset`. Returns the cursor and how many bytes the
    /// value takes.
    pub fn new(data: &[u8], offset: usize) -> (r: Result<(Self, usize), SerError>)
        ensures
            match layout(CursorType::U64, data@, offset as int) {
                Ok(w) => {
                    &&& r is Ok
                    &&& r->Ok_0.1 == w
                    &&& offset + w <= data@.len()
                    &&& reads(Cursor::U64(r->Ok_0.0), CursorType::U64, data@, offset as int)
                },
                Err(e) => r is Err && r->Err_0 == e,
            },
    {
        match Cursor::new(&CursorType::U64, data, offset) {
            Err(e) => Err(e),
            Ok((Cursor::U64(cursor), w)) => Ok((cursor, w)),
            Ok(_) => Err(SerError::InvalidCursorType),
        }
    }
}

impl StaticVecCursor {
    /// Reads a vector of bytes that begins at `offset`. Returns the cursor and how
    /// many bytes the vector takes, its length included.
    pub fn new(data: &[u8], offset: usize) -> (r: Result<(Self, usize), SerError>)
        ensures
            match layout(CursorType::StaticVec, data@, offset as int) {
                Ok(w) => {
                    &&& r is Ok
                    &&& r->Ok_0.1 == w
                    &&& offset + w <= data@.len()
                    &&& r->Ok_0.0.value == StaticVecValue::Origin(offset as u16, (w - 4) as u16)
                },
                Err(e) => r is Err && r->Err_0 == e,
            },
    {
        match Cursor::new(&CursorType::StaticVec, data, offset) {
            Err(e) => Err(e),
            Ok((Cursor::StaticVec(cursor), w)) => Ok((cursor, w)),
            Ok(_) => Err(SerError::InvalidCursorType),
        }
    }

    /// The bytes of the vector in the buffer it was read from, unless they were
    /// replaced or the buffer is too short to hold them.
    pub fn get<'a, 'b>(&'a self, data: &'b [u8]) -> (r: Result<&'b [u8], SerError>)
        ensures
            match self.value {
                StaticVecValue::Origin(offset, len) => if offset + 4 + len <= data@.len() {
                    r is Ok && r->Ok_0@ == data@.subrange(offset + 4, offset + 4 + len)
                } else {
                    r is Err && r->Err_0 == SerError::IoError
                },
                StaticVecValue::NewValue(_) => r is Err && r->Err_0 == SerError::ValueIsUpdated,
            },
    {
        match &self.value {
            StaticVecValue::Origin(offset, len) => {
                let from: usize = *offset as usize + 4;
                let count: usize = *len as usize;
                if !has_room(data, from, count) {
                    return Err(SerError::IoError);
                }
                Ok(slice_subrange(data, from, from + count))
            },
            StaticVecValue::NewValue(_) => Err(SerError::ValueIsUpdated),
        }
    }

    /// Replaces the bytes of the vector.
    pub fn set(&mut self, value: Vec<u8>)
        ensures
            final(self).value == StaticVecValue::NewValue(value),
    {
        self.value = StaticVecValue::NewValue(value);
    }
}

/// Reads text with `std::str::from_utf8`. Trusted: the call succeeds exactly on bytes
/// that are well-formed UTF-8, and the text it gives is the text those bytes encode.
#[verifier::external_body]
pub(crate) fn text_of<'a>(bytes: &'a [u8]) -> (r: Option<&'a str>)
    ensures
        match r {
            Some(text) => valid_utf8(bytes@) && encode_utf8(text@) == bytes@,
            None => !valid_utf8(bytes@),
        },
{
    std::str::from_utf8(bytes).ok()
}

/// The text that a string cursor stands for in the buffer it was read from, or why it
/// stands for none: the string was replaced, the buffer is too short to hold it, or
/// its bytes are not well-formed UTF-8.
pub open spec fn text_at(value: UpdatableValue<String>, data: Seq<u8>) -> Result<
    Seq<char>,
    SerError,
> {
    match value {
        UpdatableValue::Origin(offset, len) => if len < 4 || offset + len > data.len()
            || !valid_utf8(data.subrange(offset + 4, offset + len)) {
            Err(SerError::IoError)
        } else {
            Ok(decode_utf8(data.subrange(offset + 4, offset + len)))
        },
        UpdatableValue::Updated(_) => Err(SerError::ValueIsUpdated),
    }
}

impl StringCursor {
    /// The string in the buffer it was read from, unless it was replaced, the buffer
    /// is too short to hold it, or its bytes are no text.
    pub fn get(&self, data: &[u8]) -> (r: Result<String, SerError>)
        ensures
            match text_at(self.value, data@) {
                Ok(text) => r is Ok && r->Ok_0@ == text,
                Err(e) => r is Err && r->Err_0 == e,
            },
    {
        match self.get_bytes(data) {
            Err(e) => Err(e),
            Ok(bytes) => match text_of(bytes) {
                None => Err(SerError::IoError),
                Some(text) => {
                    proof {
                        vstd::utf8::encode_utf8_decode_utf8(text@);
                    }
                    Ok(text.to_owned())
                },
            },
        }
    }

    /// The bytes of the string in the buffer it was read from, unless it was
    /// replaced or the buffer is too short to hold them.
    pub fn get_bytes<'a, 'b>(&'a self, data: &'b [u8]) -> (r: Result<&'b [u8], SerError>)
        ensures
            match self.value {
                UpdatableValue::Origin(offset, len) => if len >= 4 && offset + len <= data@.len() {
                    r is Ok && r->Ok_0@ == data@.subrange(offset + 4, offset + len)
                } else {
                    r is Err && r->Err_0 == SerError::IoError
                },
                UpdatableValue::Updated(_) => r is Err && r->Err_0 == SerError::ValueIsUpdated,
            },
    {
        match &self.value {
            UpdatableValue::Origin(offset, len) => {
                let from: usize = *offset as usize;
                let count: usize = *len as usize;
                if count < 4 || !has_room(data, from, count) {
                    return Err(SerError::IoError);
                }
                Ok(slice_subrange(data, from + 4, from + count))
            },
            UpdatableValue::Updated(_) => Err(SerError::ValueIsUpdated),
        }
    }

    /// Replaces the string.
    pub fn set(&mut self, value: String)
        ensures
            final(self).value == UpdatableValue::Updated(value),
    {
        self.value = UpdatableValue::Updated(value);
    }
}

impl StructCursor {
    /// The cursor on the field of the index.
    pub fn get(&self, field_index: u8) -> (r: Result<&Cursor, SerError>)
        ensures
            if field_index < self.cursors@.len() {
                r is Ok && *r->Ok_0 == self.cursors@[field_index as int]
            } else {
                r is Err && r->Err_0 == SerError::InvalidFieldAccess
            },
    {
        if (field_index as usize) < self.cursors.len() {
            Ok(&self.cursors[field_index as usize])
        } else {
            Err(SerError::InvalidFieldAccess)
        }
    }

    /// The cursor on the field of the index, to be changed in place.
    pub fn get_mut(&mut self, field_index: u8) -> (r: Result<&mut Cursor, SerError>)
        ensures
            match r {
                Ok(cursor) => {
                    &&& field_index < old(self).cursors@.len()
                    &&& *cursor == old(self).cursors@[field_index as int]
                    &&& final(self).cursors@ == old(self).cursors@.update(
                        field_index as int,
                        *final(cursor),
                    )
                },
                Err(e) => {
                    &&& field_index >= old(self).cursors@.len()
                    &&& e == SerError::InvalidFieldAccess
                    &&& *final(self) == *old(self)
                },
            },
    {
        if (field_index as usize) < self.cursors.len() {
            Ok(&mut self.cursors[field_index as usize])
        } else {
            Err(SerError::InvalidFieldAccess)
        }
    }

    /// Replaces the cursor on the field of the index.
    pub fn replace(&mut self, field_index: u8, cursor: Cursor) -> (r: Result<(), SerError>)
        ensures
            if field_index < old(self).cursors@.len() {
                r is Ok && final(self).cursors@ == old(self).cursors@.update(
                    field_index as int,
                    cursor,
                )
            } else {
                r is Err && r->Err_0 == SerError::InvalidFieldAccess && final(self).cursors
                    == old(self).cursors
            },
    {
        if (field_index as usize) < self.cursors.len() {
            self.cursors[field_index as usize] = cursor;
            Ok(())
        } else {
            Err(SerError::InvalidFieldAccess)
        }
    }
}

impl VecCursor {
    /// Adds an item, given as it is to be written.
    pub fn push(&mut self, new_item: Vec<u8>)
        ensures
            final(self).add@ == old(self).add@.push(new_item),
            final(self).cursors == old(self).cursors,
            final(self).offset == old(self).offset,
    {
        self.add.push(new_item);
    }

    /// Removes the item of the index from the items that were read.
    pub fn delete(&mut self, index: usize) -> (r: Result<(), SerError>)
        ensures
            final(self).add == old(self).add,
            final(self).offset == old(self).offset,
            if index < old(self).cursors@.len() {
                r is Ok && final(self).cursors@ == old(self).cursors@.remove(index as int)
            } else {
                r is Err && r->Err_0 == SerError::InvalidFieldAccess && final(self).cursors
                    == old(self).cursors
            },
    {
        if index < self.cursors.len() {
            let _ = self.cursors.remove(index);
            Ok(())
        } else {
            Err(SerError::InvalidFieldAccess)
        }
    }

    /// The cursor on the item of the index, among the items that were read.
    pub fn get_cursor(&self, cursor_index: usize) -> (r: Result<&Cursor, SerError>)
        ensures
            if cursor_index < self.cursors@.len() {
                r is Ok && *r->Ok_0 == self.cursors@[cursor_index as int]
            } else {
                r is Err && r->Err_0 == SerError::InvalidFieldAccess
            },
    {
        if cursor_index < self.cursors.len() {
            Ok(&self.cursors[cursor_index])
        } else {
            Err(SerError::InvalidFieldAccess)
        }
    }

    /// The cursor on the item of the index, among the items that were read, to be
    /// changed in place.
    pub fn get_cursor_mut(&mut self, cursor_index: usize) -> (r: Result<&mut Cursor, SerError>)
        ensures
            match r {
                Ok(cursor) => {
                    &&& cursor_index < old(self).cursors@.len()
                    &&& *cursor == old(self).cursors@[cursor_index as int]
                    &&& final(self).cursors@ == old(self).cursors@.update(
                        cursor_index as int,
                        *final(cursor),
                    )
                    &&& final(self).add == old(self).add
                    &&& final(self).offset == old(self).offset
                },
                Err(e) => {
                    &&& cursor_index >= old(self).cursors@.len()
                    &&& e == SerError::InvalidFieldAccess
                    &&& *final(self) == *old(self)
                },
            },
    {
        if cursor_index < self.cursors.len() {
            Ok(&mut self.cursors[cursor_index])
        } else {
            Err(SerError::InvalidFieldAccess)
        }
    }
}

impl OptionCursor {
    /// The cursor on the value, where there is one.
    pub fn get_inner(&self) -> (r: Option<&Cursor>)
        ensures
            match self.inner {
                Some(inner) => r is Some && *r->Some_0 == *inner,
                None => r is None,
            },
    {
        match &self.inner {
            Some(inner) => Some(&**inner),
            None => None,
        }
    }
}

impl OptionCursor {
    /// The cursor on the value, where there is one, to be changed in place.
    pub fn get_inner_mut(&mut self) -> (r: Option<&mut Cursor>)
        ensures
            match r {
                Some(cursor) => {
                    &&& old(self).inner is Some
                    &&& *cursor == *old(self).inner->Some_0
                    &&& final(self).inner is Some
                    &&& *final(self).inner->Some_0 == *final(cursor)
                    &&& final(self).offset == old(self).offset
                },
                None => old(self).inner is None && *final(self) == *old(self),
            },
    {
        match &mut self.inner {
            Some(inner) => Some(&mut **inner),
            None => None,
        }
    }
}

impl EnumCursor {
    /// The bytes of the variant, discriminant first, in the buffer it was read from,
    /// unless it was replaced or the buffer is too short to hold them.
    pub fn get<'a, 'b>(&'a self, data: &'b [u8]) -> (r: Result<&'b [u8], SerError>)
        ensures
            match self.value {
                UpdatableValue::Origin(offset, len) => if offset + len <= data@.len() {
                    r is Ok && r->Ok_0@ == data@.subrange(offset as int, offset + len)
                } else {
                    r is Err && r->Err_0 == SerError::IoError
                },
                UpdatableValue::Updated(_) => r is Err && r->Err_0 == SerError::ValueIsUpdated,
            },
    {
        match &self.value {
            UpdatableValue::Origin(offset, len) => {
                let from: usize = *offset as usize;
                let count: usize = *len as usize;
                if !has_room(data, from, count) {
                    return Err(SerError::IoError);
                }
                Ok(slice_subrange(data, from, from + count))
            },
            UpdatableValue::Updated(_) => Err(SerError::ValueIsUpdated),
        }
    }

    /// Replaces the variant by the bytes of another, discriminant first.
    pub fn set(&mut self, value: Vec<u8>)
        ensures
            final(self).value == UpdatableValue::Updated(value),
    {
        self.value = UpdatableValue::Updated(value);
    }
}

impl PubkeyCursor {
    /// The address in the buffer it was read from, whether it was replaced or not,
    /// unless the buffer is too short to hold it.
    pub fn get(&self, data: &[u8]) -> (r: Result<Address, SerError>)
        ensures
            if self.offset + 32 <= data@.len() {
                r is Ok && r->Ok_0@ == data@.subrange(self.offset as int, self.offset + 32)
            } else {
                r is Err && r->Err_0 == SerError::IoError
            },
    {
        let from: usize = self.offset as usize;
        if !has_room(data, from, 32) {
            return Err(SerError::IoError);
        }
        Ok(Address::read(data, from))
    }

    /// Replaces the address.
    pub fn set(&mut self, value: Address)
        ensures
            final(self).new_value == Some(value),
            final(self).offset == old(self).offset,
    {
        self.new_value = Some(value);
    }
}

impl Cursor {
    /// The cursor on a flag that this is, if it is one.
    pub fn as_bool(&self) -> (r: Result<&PrimitiveCursor<bool>, SerError>)
        ensures
            match *self {
                Cursor::Bool(c) => r is Ok && *r->Ok_0 == c,
                _ => r is Err && r->Err_0 == SerError::InvalidCursorType,
            },
    {
        match self {
            Cursor::Bool(c) => Ok(c),
            _ => Err(SerError::InvalidCursorType),
        }
    }

    /// The cursor on a flag that this is, if it is one, to be changed in place.
    pub fn as_bool_mut(&mut self) -> (r: Result<&mut PrimitiveCursor<bool>, SerError>)
        ensures
            match r {
                Ok(c) => {
                    &&& *old(self) == Cursor::Bool(*c)
                    &&& *final(self) == Cursor::Bool(*final(c))
                },
                Err(e) => {
                    &&& !(*old(self) is Bool)
                    &&& e == SerError::InvalidCursorType
                    &&& *final(self) == *old(self)
                },
            },
    {
        match self {
            Cursor::Bool(c) => Ok(c),
            _ => Err(SerError::InvalidCursorType),
        }
    }

    /// The cursor on a byte that this is, if it is one.
    pub fn as_u8(&self) -> (r: Result<&PrimitiveCursor<u8>, SerError>)
        ensures
            match *self {
                Cursor::U8(c) => r is Ok && *r->Ok_0 == c,
                _ => r is Err && r->Err_0 == SerError::InvalidCursorType,
            },
    {
        match self {
            Cursor::U8(c) => Ok(c),
            _ => Err(SerError::InvalidCursorType),
        }
    }

    /// The cursor on a byte that this is, if it is one, to be changed in place.
    pub fn as_u8_mut(&mut self) -> (r: Result<&mut PrimitiveCursor<u8>, SerError>)
        ensures
            match r {
                Ok(c) => {
                    &&& *old(self) == Cursor::U8(*c)
                    &&& *final(self) == Cursor::U8(*final(c))
                },
                Err(e) => {
                    &&& !(*old(self) is U8)
                    &&& e == SerError::InvalidCursorType
                    &&& *final(self) == *old(self)
                },
            },
    {
        match self {
            Cursor::U8(c) => Ok(c),
            _ => Err(SerError::InvalidCursorType),
        }
    }

    /// The cursor on a number of two bytes that this is, if it is one.
    pub fn as_u16(&self) -> (r: Result<&PrimitiveCursor<u16>, SerError>)
        ensures
            match *self {
                Cursor::U16(c) => r is Ok && *r->Ok_0 == c,
                _ => r is Err && r->Err_0 == SerError::InvalidCursorType,
            },
    {
        match self {
            Cursor::U16(c) => Ok(c),
            _ => Err(SerError::InvalidCursorType),
        }
    }

    /// The cursor on a number of two bytes that this is, if it is one, to be changed in place.
    pub fn as_u16_mut(&mut self) -> (r: Result<&mut PrimitiveCursor<u16>, SerError>)
        ensures
            match r {
                Ok(c) => {
                    &&& *old(self) == Cursor::U16(*c)
                    &&& *final(self) == Cursor::U16(*final(c))
                },
                Err(e) => {
                    &&& !(*old(self) is U16)
                    &&& e == SerError::InvalidCursorType
                    &&& *final(self) == *old(self)
                },
            },
    {
        match self {
            Cursor::U16(c) => Ok(c),
            _ => Err(SerError::InvalidCursorType),
        }
    }

    /// The cursor on a number of four bytes that this is, if it is one.
    pub fn as_u32(&self) -> (r: Result<&PrimitiveCursor<u32>, SerError>)
        ensures
            match *self {
                Cursor::U32(c) => r is Ok && *r->Ok_0 == c,
                _ => r is Err && r->Err_0 == SerError::InvalidCursorType,
            },
    {
        match self {
            Cursor::U32(c) => Ok(c),
            _ => Err(SerError::InvalidCursorType),
        }
    }

    /// The cursor on a number of four bytes that this is, if it is one, to be changed in place.
    pub fn as_u32_mut(&mut self) -> (r: Result<&mut PrimitiveCursor<u32>, SerError>)
        ensures
            match r {
                Ok(c) => {
                    &&& *old(self) == Cursor::U32(*c)
                    &&& *final(self) == Cursor::U32(*final(c))
                },
                Err(e) => {
                    &&& !(*old(self) is U32)
                    &&& e == SerError::InvalidCursorType
                    &&& *final(self) == *old(self)
                },
            },
    {
        match self {
            Cursor::U32(c) => Ok(c),
            _ => Err(SerError::InvalidCursorType),
        }
    }

    /// The cursor on a size that this is, if it is one.
    pub fn as_usize(&self) -> (r: Result<&PrimitiveCursor<usize>, SerError>)
        ensures
            match *self {
                Cursor::Usize(c) => r is Ok && *r->Ok_0 == c,
                _ => r is Err && r->Err_0 == SerError::InvalidCursorType,
            },
    {
        match self {
            Cursor::Usize(c) => Ok(c),
            _ => Err(SerError::InvalidCursorType),
        }
    }

    /// The cursor on a size that this is, if it is one, to be changed in place.
    pub fn as_usize_mut(&mut self) -> (r: Result<&mut PrimitiveCursor<usize>, SerError>)
        ensures
            match r {
                Ok(c) => {
                    &&& *old(self) == Cursor::Usize(*c)
                    &&& *final(self) == Cursor::Usize(*final(c))
                },
                Err(e) => {
                    &&& !(*old(self) is Usize)
                    &&& e == SerError::InvalidCursorType
                    &&& *final(self) == *old(self)
                },
            },
    {
        match self {
            Cursor::Usize(c) => Ok(c),
            _ => Err(SerError::InvalidCursorType),
        }
    }

    /// The cursor on a number of eight bytes that this is, if it is one.
    pub fn as_u64(&self) -> (r: Result<&PrimitiveCursor<u64>, SerError>)
        ensures
            match *self {
                Cursor::U64(c) => r is Ok && *r->Ok_0 == c,
                _ => r is Err && r->Err_0 == SerError::InvalidCursorType,
            },
    {
        match self {
            Cursor::U64(c) => Ok(c),
            _ => Err(SerError::InvalidCursorType),
        }
    }

    /// The cursor on a number of eight bytes that this is, if it is one, to be changed in place.
    pub fn as_u64_mut(&mut self) -> (r: Result<&mut PrimitiveCursor<u64>, SerError>)
        ensures
            match r {
                Ok(c) => {
                    &&& *old(self) == Cursor::U64(*c)
                    &&& *final(self) == Cursor::U64(*final(c))
                },
                Err(e) => {
                    &&& !(*old(self) is U64)
                    &&& e == SerError::InvalidCursorType
                    &&& *final(self) == *old(self)
                },
            },
    {
        match self {
            Cursor::U64(c) => Ok(c),
            _ => Err(SerError::InvalidCursorType),
        }
    }

    /// The cursor on a string that this is, if it is one.
    pub fn as_string(&self) -> (r: Result<&StringCursor, SerError>)
        ensures
            match *self {
                Cursor::String(c) => r is Ok && *r->Ok_0 == c,
                _ => r is Err && r->Err_0 == SerError::InvalidCursorType,
            },
    {
        match self {
            Cursor::String(c) => Ok(c),
            _ => Err(SerError::InvalidCursorType),
        }
    }

    /// The cursor on a string that this is, if it is one, to be changed in place.
    pub fn as_string_mut(&mut self) -> (r: Result<&mut StringCursor, SerError>)
        ensures
            match r {
                Ok(c) => {
                    &&& *old(self) == Cursor::String(*c)
                    &&& *final(self) == Cursor::String(*final(c))
                },
                Err(e) => {
                    &&& !(*old(self) is String)
                    &&& e == SerError::InvalidCursorType
                    &&& *final(self) == *old(self)
                },
            },
    {
        match self {
            Cursor::String(c) => Ok(c),
            _ => Err(SerError::InvalidCursorType),
        }
    }

    /// The cursor on a structure that this is, if it is one.
    pub fn as_struct(&self) -> (r: Result<&StructCursor, SerError>)
        ensures
            match *self {
                Cursor::Struct(c) => r is Ok && *r->Ok_0 == c,
                _ => r is Err && r->Err_0 == SerError::InvalidCursorType,
            },
    {
        match self {
            Cursor::Struct(c) => Ok(c),
            _ => Err(SerError::InvalidCursorType),
        }
    }

    /// The cursor on a structure that this is, if it is one, to be changed in place.
    pub fn as_struct_mut(&mut self) -> (r: Result<&mut StructCursor, SerError>)
        ensures
            match r {
                Ok(c) => {
                    &&& *old(self) == Cursor::Struct(*c)
                    &&& *final(self) == Cursor::Struct(*final(c))
                },
                Err(e) => {
                    &&& !(*old(self) is Struct)
                    &&& e == SerError::InvalidCursorType
                    &&& *final(self) == *old(self)
                },
            },
    {
        match self {
            Cursor::Struct(c) => Ok(c),
            _ => Err(SerError::InvalidCursorType),
        }
    }

    /// The cursor on a vector that this is, if it is one.
    pub fn as_vec(&self) -> (r: Result<&VecCursor, SerError>)
        ensures
            match *self {
                Cursor::Vec(c) => r is Ok && *r->Ok_0 == c,
                _ => r is Err && r->Err_0 == SerError::InvalidCursorType,
            },
    {
        match self {
            Cursor::Vec(c) => Ok(c),
            _ => Err(SerError::InvalidCursorType),
        }
    }

    /// The cursor on a vector that this is, if it is one, to be changed in place.
    pub fn as_vec_mut(&mut self) -> (r: Result<&mut VecCursor, SerError>)
        ensures
            match r {
                Ok(c) => {
                    &&& *old(self) == Cursor::Vec(*c)
                    &&& *final(self) == Cursor::Vec(*final(c))
                },
                Err(e) => {
                    &&& !(*old(self) is Vec)
                    &&& e == SerError::InvalidCursorType
                    &&& *final(self) == *old(self)
                },
            },
    {
        match self {
            Cursor::Vec(c) => Ok(c),
            _ => Err(SerError::InvalidCursorType),
        }
    }

    /// The cursor on a vector of bytes that this is, if it is one.
    pub fn as_static_vec(&self) -> (r: Result<&StaticVecCursor, SerError>)
        ensures
            match *self {
                Cursor::StaticVec(c) => r is Ok && *r->Ok_0 == c,
                _ => r is Err && r->Err_0 == SerError::InvalidCursorType,
            },
    {
        match self {
            Cursor::StaticVec(c) => Ok(c),
            _ => Err(SerError::InvalidCursorType),
        }
    }

    /// The cursor on a vector of bytes that this is, if it is one, to be changed in place.
    pub fn as_static_vec_mut(&mut self) -> (r: Result<&mut StaticVecCursor, SerError>)
        ensures
            match r {
                Ok(c) => {
                    &&& *old(self) == Cursor::StaticVec(*c)
                    &&& *final(self) == Cursor::StaticVec(*final(c))
                },
                Err(e) => {
                    &&& !(*old(self) is StaticVec)
                    &&& e == SerError::InvalidCursorType
                    &&& *final(self) == *old(self)
                },
            },
    {
        match self {
            Cursor::StaticVec(c) => Ok(c),
            _ => Err(SerError::InvalidCursorType),
        }
    }

    /// The cursor on an option that this is, if it is one.
    pub fn as_option(&self) -> (r: Result<&OptionCursor, SerError>)
        ensures
            match *self {
                Cursor::Option(c) => r is Ok && *r->Ok_0 == c,
                _ => r is Err && r->Err_0 == SerError::InvalidCursorType,
            },
    {
        match self {
            Cursor::Option(c) => Ok(c),
            _ => Err(SerError::InvalidCursorType),
        }
    }

    /// The cursor on an option that this is, if it is one, to be changed in place.
    pub fn as_option_mut(&mut self) -> (r: Result<&mut OptionCursor, SerError>)
        ensures
            match r {
                Ok(c) => {
                    &&& *old(self) == Cursor::Option(*c)
                    &&& *final(self) == Cursor::Option(*final(c))
                },
                Err(e) => {
                    &&& !(*old(self) is Option)
                    &&& e == SerError::InvalidCursorType
                    &&& *final(self) == *old(self)
                },
            },
    {
        match self {
            Cursor::Option(c) => Ok(c),
            _ => Err(SerError::InvalidCursorType),
        }
    }

    /// The cursor on a variant that this is, if it is one.
    pub fn as_enum(&self) -> (r: Result<&EnumCursor, SerError>)
        ensures
            match *self {
                Cursor::Enum(c) => r is Ok && *r->Ok_0 == c,
                _ => r is Err && r->Err_0 == SerError::InvalidCursorType,
            },
    {
        match self {
            Cursor::Enum(c) => Ok(c),
            _ => Err(SerError::InvalidCursorType),
        }
    }

    /// The cursor on a variant that this is, if it is one, to be changed in place.
    pub fn as_enum_mut(&mut self) -> (r: Result<&mut EnumCursor, SerError>)
        ensures
            match r {
                Ok(c) => {
                    &&& *old(self) == Cursor::Enum(*c)
                    &&& *final(self) == Cursor::Enum(*final(c))
                },
                Err(e) => {
                    &&& !(*old(self) is Enum)
                    &&& e == SerError::InvalidCursorType
                    &&& *final(self) == *old(self)
                },
            },
    {
        match self {
            Cursor::Enum(c) => Ok(c),
            _ => Err(SerError::InvalidCursorType),
        }
    }

    /// The cursor on an address that this is, if it is one.
    pub fn as_pubkey(&self) -> (r: Result<&PubkeyCursor, SerError>)
        ensures
            match *self {
                Cursor::Pubkey(c) => r is Ok && *r->Ok_0 == c,
                _ => r is Err && r->Err_0 == SerError::InvalidCursorType,
            },
    {
        match self {
            Cursor::Pubkey(c) => Ok(c),
            _ => Err(SerError::InvalidCursorType),
        }
    }

    /// The cursor on an address that this is, if it is one, to be changed in place.
    pub fn as_pubkey_mut(&mut self) -> (r: Result<&mut PubkeyCursor, SerError>)
        ensures
            match r {
                Ok(c) => {
                    &&& *old(self) == Cursor::Pubkey(*c)
                    &&& *final(self) == Cursor::Pubkey(*final(c))
                },
                Err(e) => {
                    &&& !(*old(self) is Pubkey)
                    &&& e == SerError::InvalidCursorType
                    &&& *final(self) == *old(self)
                },
            },
    {
        match self {
            Cursor::Pubkey(c) => Ok(c),
            _ => Err(SerError::InvalidCursorType),
        }
    }

}

} // verus!
