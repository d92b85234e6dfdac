//! Script values, and how the fields of a component store them.

use vstd::prelude::*;
use vstd::utf8::{decode_utf8, valid_utf8};

use crate::bytes::{
    bytes32, bytes64, from_le32, get_bytes, get_u32, get_u64, law_bytes32_inverse,
    law_bytes64_inverse, number32, number64, put_bytes, put_u32, put_u64, splice, ByteOrder,
};
use crate::layout::LuauFieldType;
use crate::pool::{interned, key_of, lemma_interned, lemma_key_of, EngineStringPool, StrKey};
use crate::text::utf8_text;

verus! {

/// A value read from a script table. Floating point numbers are held as their bits, strings as
/// their bytes, and buffers as the bytes that the script engine keeps at their address.
#[derive(Clone, Debug, PartialEq, Eq)]
pub enum LuaValue {
    Nil,
    Boolean(bool),
    Integer(i64),
    Number(u64),
    Vector(u32, u32, u32, u32),
    String(Vec<u8>),
    Buffer(Vec<u8>),
    Other,
}

/// A string of the script engine is not UTF-8.
#[derive(Clone, Copy, Debug, PartialEq, Eq, Structural)]
pub struct NotUtf8;

/// What a component stores in one field, with `S` in place of a string.
#[derive(Clone, Debug, PartialEq, Eq)]
pub enum FieldValue<S> {
    Bool(bool),
    Integer(i64),
    Number(u64),
    Vector4(u32, u32, u32, u32),
    String(S),
    Buffer(Vec<u8>),
}

/// A field's value, as the contracts speak of it.
pub enum FieldData<S> {
    Bool(bool),
    Integer(i64),
    Number(u64),
    Vector4(u32, u32, u32, u32),
    String(S),
    Buffer(Seq<u8>),
}

impl<S> View for FieldValue<S> {
    type V = FieldData<S>;

    open spec fn view(&self) -> FieldData<S> {
        match *self {
            FieldValue::Bool(b) => FieldData::Bool(b),
            FieldValue::Integer(i) => FieldData::Integer(i),
            FieldValue::Number(n) => FieldData::Number(n),
            FieldValue::Vector4(x, y, z, w) => FieldData::Vector4(x, y, z, w),
            FieldValue::String(s) => FieldData::String(s),
            FieldValue::Buffer(b) => FieldData::Buffer(b@),
        }
    }
}

/// The text that a value adds to the pool when it is stored in a field of kind `ft`.
pub open spec fn text_of(value: LuaValue, ft: LuauFieldType) -> Option<Seq<char>> {
    match (value, ft) {
        (LuaValue::String(s), LuauFieldType::String) => Some(decode_utf8(s@)),
        _ => None,
    }
}

/// Whether a value can be stored in a field of kind `ft`: all can, but for strings that are not
/// UTF-8, in a string field.
pub open spec fn storable(value: LuaValue, ft: LuauFieldType) -> bool {
    match (value, ft) {
        (LuaValue::String(s), LuauFieldType::String) => valid_utf8(s@),
        _ => true,
    }
}

/// The bytes that a value puts at the start of a field of kind `ft`: none where the kinds differ.
pub open spec fn stored_bytes(
    value: LuaValue,
    ft: LuauFieldType,
    strings: Seq<Seq<char>>,
    order: ByteOrder,
) -> Seq<u8> {
    match (value, ft) {
        (LuaValue::String(s), LuauFieldType::String) => bytes32(
            key_of(strings, decode_utf8(s@)),
            order,
        ),
        (LuaValue::Buffer(b), LuauFieldType::Buffer(len)) => b@.take(
            if b@.len() <= len {
                b@.len() as int
            } else {
                len as int
            },
        ),
        _ => scalar_bytes(value, ft, order),
    }
}

/// The bytes that a boolean, a number or a vector puts at the start of a field of its own kind.
pub open spec fn scalar_bytes(value: LuaValue, ft: LuauFieldType, order: ByteOrder) -> Seq<u8> {
    match (value, ft) {
        (LuaValue::Boolean(b), LuauFieldType::Bool) => seq![if b { 1u8 } else { 0u8 }],
        (LuaValue::Integer(i), LuauFieldType::Integer) => bytes64(i as u64, order),
        (LuaValue::Number(n), LuauFieldType::Number) => bytes64(n, order),
        (LuaValue::Vector(x, y, z, w), LuauFieldType::Vector4) => bytes32(x, order) + bytes32(
            y,
            order,
        ) + bytes32(z, order) + bytes32(w, order),
        _ => Seq::empty(),
    }
}

/// What the bytes of a field of kind `ft` say.
pub open spec fn decoded(bytes: Seq<u8>, ft: LuauFieldType, order: ByteOrder) -> FieldData<StrKey> {
    match ft {
        LuauFieldType::Bool => FieldData::Bool(bytes[0] != 0),
        LuauFieldType::Integer => FieldData::Integer(number64(bytes, order) as i64),
        LuauFieldType::Number => FieldData::Number(number64(bytes, order)),
        LuauFieldType::Vector4 => FieldData::Vector4(
            number32(bytes.subrange(0, 4), order),
            number32(bytes.subrange(4, 8), order),
            number32(bytes.subrange(8, 12), order),
            number32(bytes.subrange(12, 16), order),
        ),
        LuauFieldType::String => FieldData::String(StrKey { raw: number32(bytes, order) }),
        LuauFieldType::Buffer(_) => FieldData::Buffer(bytes),
    }
}

/// Whether `after` is `before` with further strings, whose handles `make` made.
pub open spec fn grown<L, F: Fn(&str) -> L>(
    before: EngineStringPool<L>,
    after: EngineStringPool<L>,
    make: F,
) -> bool {
    &&& before.strings().is_prefix_of(after.strings())
    &&& before.bridge@.submap_of(after.bridge@)
    &&& forall|k: u32| #[trigger]
        after.bridge@.contains_key(k) && !before.bridge@.contains_key(k) ==> made_for(
            after,
            k,
            make,
        )
    &&& before.complete() ==> after.complete()
}

/// Whether `make` made the handle of key `k` from the string of that key.
pub open spec fn made_for<L, F: Fn(&str) -> L>(
    pool: EngineStringPool<L>,
    k: u32,
    make: F,
) -> bool {
    &&& 1 <= k <= pool.strings().len()
    &&& exists|t: &str| t@ == pool.strings()[k - 1] && #[trigger] make.ensures((t,), pool.bridge@[k])
}

/// Whether the text that a value adds to the pool, where it adds one, is interned and has a handle.
pub open spec fn has_handle<L>(
    value: LuaValue,
    ft: LuauFieldType,
    pool: EngineStringPool<L>,
) -> bool {
    text_of(value, ft) matches Some(t) ==> pool.strings().contains(t) && pool.bridge@.contains_key(
        key_of(pool.strings(), t),
    )
}

/// Stores a boolean, a number or a vector in a field of its own kind; other values, and values of
/// another kind, leave the field as it is.
pub fn write_scalar(
    data: &mut Vec<u8>,
    offset: usize,
    ft: LuauFieldType,
    value: &LuaValue,
    order: ByteOrder,
)
    requires
        offset + ft.spec_size() <= old(data).len(),
    ensures
        final(data)@ == splice(old(data)@, offset as int, scalar_bytes(*value, ft, order)),
{
    let ghost before = data@;
    match (value, ft) {
        (LuaValue::Boolean(b), LuauFieldType::Bool) => {
            data.set(
                offset,
                if *b {
                    1
                } else {
                    0
                },
            );
        },
        (LuaValue::Integer(i), LuauFieldType::Integer) => {
            put_u64(data, offset, #[verifier::truncate] (*i as u64), order);
        },
        (LuaValue::Number(n), LuauFieldType::Number) => {
            put_u64(data, offset, *n, order);
        },
        (LuaValue::Vector(x, y, z, w), LuauFieldType::Vector4) => {
            put_u32(data, offset, *x, order);
            put_u32(data, offset + 4, *y, order);
            put_u32(data, offset + 8, *z, order);
            put_u32(data, offset + 12, *w, order);
        },
        _ => {},
    }
    assert(data@ =~= splice(before, offset as int, scalar_bytes(*value, ft, order)));
}

/// Stores a value in a field of its own kind; a value of another kind leaves the field as it is. A
/// string is interned, and its key is stored. A buffer is cut off where the field ends.
pub fn write_field<L, F: Fn(&str) -> L + Copy>(
    data: &mut Vec<u8>,
    offset: usize,
    ft: LuauFieldType,
    value: &LuaValue,
    pool: &mut EngineStringPool<L>,
    make: F,
    order: ByteOrder,
) -> (result: Result<(), NotUtf8>)
    requires
        offset + ft.spec_size() <= old(data).len(),
        old(pool).wf(),
        storable(*value, ft) ==> (text_of(*value, ft) matches Some(text) ==> interned(
            old(pool).strings(),
            text,
        ).len() <= u32::MAX),
        forall|t: &str| make.requires((t,)),
    ensures
        final(pool).wf(),
        grown(*old(pool), *final(pool), make),
        result is Ok <==> storable(*value, ft),
        result is Err ==> *final(pool) == *old(pool) && final(data)@ == old(data)@,
        result is Ok ==> final(data)@ == splice(
            old(data)@,
            offset as int,
            stored_bytes(*value, ft, final(pool).strings(), order),
        ),
        result is Ok ==> final(pool).strings() == (match text_of(*value, ft) {
            Some(text) => interned(old(pool).strings(), text),
            None => old(pool).strings(),
        }),
        result is Ok ==> has_handle(*value, ft, *final(pool)),
{
    let ghost before = data@;
    match (value, ft) {
        (LuaValue::String(s), LuauFieldType::String) => {
            match utf8_text(s) {
                Some(text) => {
                    proof {
                        lemma_interned(pool.strings(), text@);
                    }
                    let spur = pool.intern(make, text);
                    put_u32(data, offset, spur.raw, order);
                    Ok(())
                },
                None => Err(NotUtf8),
            }
        },
        (LuaValue::Buffer(b), LuauFieldType::Buffer(len)) => {
            let count: usize = if b.len() <= len {
                b.len()
            } else {
                len
            };
            put_bytes(data, offset, b, count);
            Ok(())
        },
        _ => {
            write_scalar(data, offset, ft, value, order);
            Ok(())
        },
    }
}

/// What a field of `data` says.
pub fn read_field(
    data: &[u8],
    offset: usize,
    ft: LuauFieldType,
    order: ByteOrder,
) -> (value: FieldValue<StrKey>)
    requires
        offset + ft.spec_size() <= data.len(),
    ensures
        value@ == decoded(data@.subrange(offset as int, offset + ft.spec_size()), ft, order),
{
    let ghost s = data@.subrange(offset as int, offset + ft.spec_size());
    match ft {
        LuauFieldType::Bool => FieldValue::Bool(data[offset] != 0),
        LuauFieldType::Integer => FieldValue::Integer(
            #[verifier::truncate] (get_u64(data, offset, order) as i64),
        ),
        LuauFieldType::Number => FieldValue::Number(get_u64(data, offset, order)),
        LuauFieldType::Vector4 => {
            proof {
                assert(s.subrange(0, 4) =~= data@.subrange(offset as int, offset + 4));
                assert(s.subrange(4, 8) =~= data@.subrange(offset + 4, offset + 8));
                assert(s.subrange(8, 12) =~= data@.subrange(offset + 8, offset + 12));
                assert(s.subrange(12, 16) =~= data@.subrange(offset + 12, offset + 16));
            }
            FieldValue::Vector4(
                get_u32(data, offset, order),
                get_u32(data, offset + 4, order),
                get_u32(data, offset + 8, order),
                get_u32(data, offset + 12, order),
            )
        },
        LuauFieldType::String => FieldValue::String(StrKey { raw: get_u32(data, offset, order) }),
        LuauFieldType::Buffer(len) => FieldValue::Buffer(get_bytes(data, offset, len)),
    }
}

/// `bytes`, filled up with zeros to `size`.
pub open spec fn padded(bytes: Seq<u8>, size: nat) -> Seq<u8> {
    Seq::new(
        size,
        |i: int|
            if i < bytes.len() {
                bytes[i]
            } else {
                0u8
            },
    )
}

/// What a field of zeros says: false, zero, a zero vector, the key zero, or zeros.
pub open spec fn zero_data(ft: LuauFieldType) -> FieldData<StrKey> {
    match ft {
        LuauFieldType::Bool => FieldData::Bool(false),
        LuauFieldType::Integer => FieldData::Integer(0),
        LuauFieldType::Number => FieldData::Number(0),
        LuauFieldType::Vector4 => FieldData::Vector4(0, 0, 0, 0),
        LuauFieldType::String => FieldData::String(StrKey { raw: 0 }),
        LuauFieldType::Buffer(len) => FieldData::Buffer(Seq::new(len as nat, |i: int| 0u8)),
    }
}

/// What a field of zeros says once `value` was stored in it: the value where it is of the field's
/// kind (a buffer cut off or filled up to the field's length), and zeros where it is not.
pub open spec fn kept_data(
    value: LuaValue,
    ft: LuauFieldType,
    strings: Seq<Seq<char>>,
) -> FieldData<StrKey> {
    match (value, ft) {
        (LuaValue::Boolean(b), LuauFieldType::Bool) => FieldData::Bool(b),
        (LuaValue::Integer(i), LuauFieldType::Integer) => FieldData::Integer(i),
        (LuaValue::Number(n), LuauFieldType::Number) => FieldData::Number(n),
        (LuaValue::Vector(x, y, z, w), LuauFieldType::Vector4) => FieldData::Vector4(x, y, z, w),
        (LuaValue::String(s), LuauFieldType::String) => FieldData::String(
            StrKey { raw: key_of(strings, decode_utf8(s@)) },
        ),
        (LuaValue::Buffer(b), LuauFieldType::Buffer(len)) => FieldData::Buffer(
            padded(b@, len as nat),
        ),
        _ => zero_data(ft),
    }
}

/// Reading a field gives back what was stored in it.
pub proof fn law_field_round_trip(
    value: LuaValue,
    ft: LuauFieldType,
    strings: Seq<Seq<char>>,
    order: ByteOrder,
)
    ensures
        stored_bytes(value, ft, strings, order).len() <= ft.spec_size(),
        decoded(padded(stored_bytes(value, ft, strings, order), ft.spec_size()), ft, order) == kept_data(
            value,
            ft,
            strings,
        ),
{
    let stored = stored_bytes(value, ft, strings, order);
    let bytes = padded(stored, ft.spec_size());
    match (value, ft) {
        (LuaValue::Boolean(_), LuauFieldType::Bool) => {},
        (LuaValue::Integer(i), LuauFieldType::Integer) => {
            assert(bytes =~= stored);
            law_bytes64_inverse(i as u64, bytes, order);
            assert((i as u64) as i64 == i) by (bit_vector);
        },
        (LuaValue::Number(n), LuauFieldType::Number) => {
            assert(bytes =~= stored);
            law_bytes64_inverse(n, bytes, order);
        },
        (LuaValue::Vector(x, y, z, w), LuauFieldType::Vector4) => {
            assert(bytes.subrange(0, 4) =~= bytes32(x, order));
            assert(bytes.subrange(4, 8) =~= bytes32(y, order));
            assert(bytes.subrange(8, 12) =~= bytes32(z, order));
            assert(bytes.subrange(12, 16) =~= bytes32(w, order));
            law_bytes32_inverse(x, bytes32(x, order), order);
            law_bytes32_inverse(y, bytes32(y, order), order);
            law_bytes32_inverse(z, bytes32(z, order), order);
            law_bytes32_inverse(w, bytes32(w, order), order);
        },
        (LuaValue::String(s), LuauFieldType::String) => {
            assert(bytes =~= stored);
            law_bytes32_inverse(key_of(strings, decode_utf8(s@)), bytes, order);
        },
        (LuaValue::Buffer(b), LuauFieldType::Buffer(len)) => {
            assert(bytes =~= padded(b@, len as nat));
        },
        _ => {
            lemma_zeros_decode(ft, order);
            assert(bytes =~= Seq::new(ft.spec_size(), |i: int| 0u8));
        },
    }
}

/// A field of zeros reads as zero.
pub proof fn lemma_zeros_decode(ft: LuauFieldType, order: ByteOrder)
    ensures
        decoded(Seq::new(ft.spec_size(), |i: int| 0u8), ft, order) == zero_data(ft),
{
    let zeros = Seq::new(ft.spec_size(), |i: int| 0u8);
    let four = seq![0u8, 0u8, 0u8, 0u8];
    assert(four.reverse() =~= four);
    assert(zeros.reverse() =~= zeros);
    assert(from_le32(four) == 0) by {
        assert(0u32 | (0u32 << 8) | (0u32 << 16) | (0u32 << 24) == 0) by (bit_vector);
    }
    assert(0u64 | (0u64 << 32) == 0) by (bit_vector);
    assert(0u64 as i64 == 0) by (bit_vector);
    match ft {
        LuauFieldType::Integer | LuauFieldType::Number => {
            assert(zeros.subrange(0, 4) =~= four);
            assert(zeros.subrange(4, 8) =~= four);
        },
        LuauFieldType::Vector4 => {
            assert(zeros.subrange(0, 4) =~= four);
            assert(zeros.subrange(4, 8) =~= four);
            assert(zeros.subrange(8, 12) =~= four);
            assert(zeros.subrange(12, 16) =~= four);
        },
        LuauFieldType::String => {
            assert(zeros =~= four);
        },
        _ => {},
    }
}

/// Bytes of a field that say the same are the same. (A boolean is stored as zero or one.)
pub proof fn lemma_same_data_same_bytes(
    a: Seq<u8>,
    b: Seq<u8>,
    ft: LuauFieldType,
    order: ByteOrder,
)
    requires
        a.len() == ft.spec_size(),
        b.len() == ft.spec_size(),
        ft is Bool ==> a[0] <= 1 && b[0] <= 1,
        decoded(a, ft, order) == decoded(b, ft, order),
    ensures
        a == b,
{
    match ft {
        LuauFieldType::Bool => {
            assert(a =~= b);
        },
        LuauFieldType::Integer => {
            let (x, y) = (number64(a, order), number64(b, order));
            assert(x as i64 == y as i64 ==> x == y) by (bit_vector);
            law_bytes64_inverse(x, a, order);
            law_bytes64_inverse(y, b, order);
        },
        LuauFieldType::Number => {
            law_bytes64_inverse(0, a, order);
            law_bytes64_inverse(0, b, order);
        },
        LuauFieldType::Vector4 => {
            lemma_same_quarter(a, b, 0, order);
            lemma_same_quarter(a, b, 4, order);
            lemma_same_quarter(a, b, 8, order);
            lemma_same_quarter(a, b, 12, order);
            assert(a =~= a.subrange(0, 4) + a.subrange(4, 8) + a.subrange(8, 12) + a.subrange(
                12,
                16,
            ));
            assert(b =~= b.subrange(0, 4) + b.subrange(4, 8) + b.subrange(8, 12) + b.subrange(
                12,
                16,
            ));
        },
        LuauFieldType::String => {
            law_bytes32_inverse(0, a, order);
            law_bytes32_inverse(0, b, order);
        },
        LuauFieldType::Buffer(_) => {},
    }
}

/// Four bytes of a vector that stand for the same number are the same.
proof fn lemma_same_quarter(a: Seq<u8>, b: Seq<u8>, i: int, order: ByteOrder)
    requires
        0 <= i,
        i + 4 <= a.len(),
        i + 4 <= b.len(),
        number32(a.subrange(i, i + 4), order) == number32(b.subrange(i, i + 4), order),
    ensures
        a.subrange(i, i + 4) == b.subrange(i, i + 4),
{
    law_bytes32_inverse(0, a.subrange(i, i + 4), order);
    law_bytes32_inverse(0, b.subrange(i, i + 4), order);
}

/// Whether a value is of the kind of a field.
pub open spec fn of_kind(value: LuaValue, ft: LuauFieldType) -> bool {
    match ft {
        LuauFieldType::Bool => value is Boolean,
        LuauFieldType::Integer => value is Integer,
        LuauFieldType::Number => value is Number,
        LuauFieldType::Vector4 => value is Vector,
        LuauFieldType::String => value is String,
        LuauFieldType::Buffer(_) => value is Buffer,
    }
}

/// Whether a value is what `data` says, with the strings that keys stand for.
pub open spec fn says(
    value: LuaValue,
    data: FieldData<StrKey>,
    strings: Seq<Seq<char>>,
) -> bool {
    match data {
        FieldData::Bool(b) => value == LuaValue::Boolean(b),
        FieldData::Integer(i) => value == LuaValue::Integer(i),
        FieldData::Number(n) => value == LuaValue::Number(n),
        FieldData::Vector4(x, y, z, w) => value == LuaValue::Vector(x, y, z, w),
        FieldData::String(key) => {
            &&& 1 <= key.raw <= strings.len()
            &&& value matches LuaValue::String(bytes)
            &&& valid_utf8(bytes@)
            &&& decode_utf8(bytes@) == strings[key.raw - 1]
        },
        FieldData::Buffer(bytes) => value matches LuaValue::Buffer(b) && b@ == bytes,
    }
}

/// Storing what a field says leaves it saying that.
pub proof fn law_saying_the_same(
    value: LuaValue,
    bytes: Seq<u8>,
    ft: LuauFieldType,
    strings: Seq<Seq<char>>,
    order: ByteOrder,
)
    requires
        strings.no_duplicates(),
        strings.len() <= u32::MAX,
        bytes.len() == ft.spec_size(),
        says(value, decoded(bytes, ft, order), strings),
    ensures
        kept_data(value, ft, strings) == decoded(bytes, ft, order),
{
    if let FieldData::String(key) = decoded(bytes, ft, order) {
        let t = strings[key.raw - 1];
        assert(strings.contains(t));
        lemma_key_of(strings, t);
        assert(key_of(strings, t) == key.raw);
    }
    if let LuauFieldType::Buffer(len) = ft {
        assert(padded(bytes, len as nat) =~= bytes);
    }
}

/// What a value puts into a field of its own kind: a byte for a boolean, the bytes of a number, the
/// bytes of the four numbers of a vector, those of a string's key, and of a buffer as much as fits.
/// A value of another kind puts nothing there.
pub proof fn law_what_values_store(
    value: LuaValue,
    ft: LuauFieldType,
    strings: Seq<Seq<char>>,
    order: ByteOrder,
)
    ensures
        value matches LuaValue::Boolean(b) ==> ft is Bool ==> stored_bytes(
            value,
            ft,
            strings,
            order,
        ) == if b {
            seq![1u8]
        } else {
            seq![0u8]
        },
        value matches LuaValue::Integer(i) ==> ft is Integer ==> stored_bytes(
            value,
            ft,
            strings,
            order,
        ) == bytes64(i as u64, order),
        value matches LuaValue::Number(n) ==> ft is Number ==> stored_bytes(
            value,
            ft,
            strings,
            order,
        ) == bytes64(n, order),
        value matches LuaValue::Vector(x, y, z, w) ==> ft is Vector4 ==> {
            let bytes = stored_bytes(value, ft, strings, order);
            &&& bytes.len() == 16
            &&& bytes.subrange(0, 4) == bytes32(x, order)
            &&& bytes.subrange(4, 8) == bytes32(y, order)
            &&& bytes.subrange(8, 12) == bytes32(z, order)
            &&& bytes.subrange(12, 16) == bytes32(w, order)
        },
        value matches LuaValue::String(s) ==> ft is String ==> stored_bytes(
            value,
            ft,
            strings,
            order,
        ) == bytes32(key_of(strings, decode_utf8(s@)), order),
        value matches LuaValue::Buffer(b) ==> (ft matches LuauFieldType::Buffer(len) ==> {
            let bytes = stored_bytes(value, ft, strings, order);
            &&& bytes.len() <= len && bytes.len() <= b@.len()
            &&& bytes.len() == len || bytes.len() == b@.len()
            &&& bytes == b@.take(bytes.len() as int)
        }),
        !(value is Boolean && ft is Bool) && !(value is Integer && ft is Integer) && !(
        value is Number && ft is Number) && !(value is Vector && ft is Vector4) && !(
        value is String && ft is String) && !(value is Buffer && ft is Buffer) ==> stored_bytes(
            value,
            ft,
            strings,
            order,
        ).len() == 0,
{
    if let LuaValue::Vector(x, y, z, w) = value {
        if ft is Vector4 {
            let bytes = stored_bytes(value, ft, strings, order);
            law_bytes32_inverse(x, bytes32(x, order).take(4), order);
            assert(bytes32(x, order).len() == 4 && bytes32(y, order).len() == 4);
            assert(bytes32(z, order).len() == 4 && bytes32(w, order).len() == 4);
            assert(bytes.subrange(0, 4) =~= bytes32(x, order));
            assert(bytes.subrange(4, 8) =~= bytes32(y, order));
            assert(bytes.subrange(8, 12) =~= bytes32(z, order));
            assert(bytes.subrange(12, 16) =~= bytes32(w, order));
        }
    }
}

/// The booleans, numbers and vectors among values store what any value of their kind stores, and
/// strings and buffers nothing.
pub proof fn law_what_scalars_store(
    value: LuaValue,
    ft: LuauFieldType,
    strings: Seq<Seq<char>>,
    order: ByteOrder,
)
    ensures
        !(ft is String) && !(ft is Buffer) ==> scalar_bytes(value, ft, order) == stored_bytes(
            value,
            ft,
            strings,
            order,
        ),
        ft is String || ft is Buffer ==> scalar_bytes(value, ft, order).len() == 0,
{
}

/// What the bytes of a field say: a boolean whether they are zero, anything else what has those
/// bytes.
pub proof fn law_what_bytes_say(bytes: Seq<u8>, ft: LuauFieldType, order: ByteOrder)
    requires
        bytes.len() == ft.spec_size(),
    ensures
        ft is Bool ==> decoded(bytes, ft, order) == FieldData::<StrKey>::Bool(bytes[0] != 0),
        ft is Integer ==> (decoded(bytes, ft, order) matches FieldData::Integer(i) && bytes64(
            i as u64,
            order,
        ) == bytes),
        ft is Number ==> (decoded(bytes, ft, order) matches FieldData::Number(n) && bytes64(n, order)
            == bytes),
        ft is Vector4 ==> (decoded(bytes, ft, order) matches FieldData::Vector4(x, y, z, w)
            && bytes32(x, order) == bytes.subrange(0, 4) && bytes32(y, order) == bytes.subrange(
            4,
            8,
        ) && bytes32(z, order) == bytes.subrange(8, 12) && bytes32(w, order) == bytes.subrange(
            12,
            16,
        )),
        ft is String ==> (decoded(bytes, ft, order) matches FieldData::String(key) && bytes32(
            key.raw,
            order,
        ) == bytes),
        ft is Buffer ==> decoded(bytes, ft, order) == FieldData::<StrKey>::Buffer(bytes),
{
    match ft {
        LuauFieldType::Integer | LuauFieldType::Number => {
            law_bytes64_inverse(0, bytes, order);
            let x = number64(bytes, order);
            assert((x as i64) as u64 == x) by (bit_vector);
        },
        LuauFieldType::Vector4 => {
            law_bytes32_inverse(0, bytes.subrange(0, 4), order);
            law_bytes32_inverse(0, bytes.subrange(4, 8), order);
            law_bytes32_inverse(0, bytes.subrange(8, 12), order);
            law_bytes32_inverse(0, bytes.subrange(12, 16), order);
        },
        LuauFieldType::String => {
            law_bytes32_inverse(0, bytes, order);
        },
        _ => {},
    }
}

/// What a field of zeros says once a value was stored in it: that value where it is of the field's
/// kind, a buffer cut off or filled up with zeros; and false, zero, a zero vector, key zero or zero
/// bytes where it is not.
pub proof fn law_what_fields_say_of_values(
    value: LuaValue,
    ft: LuauFieldType,
    strings: Seq<Seq<char>>,
)
    ensures
        ft is Bool ==> kept_data(value, ft, strings) == FieldData::<StrKey>::Bool(
            value == LuaValue::Boolean(true),
        ),
        ft is Integer ==> (kept_data(value, ft, strings) matches FieldData::Integer(i) && (
        value is Integer ==> value == LuaValue::Integer(i)) && (!(value is Integer) ==> i == 0)),
        ft is Number ==> (kept_data(value, ft, strings) matches FieldData::Number(n) && (
        value is Number ==> value == LuaValue::Number(n)) && (!(value is Number) ==> n == 0)),
        ft is Vector4 ==> (kept_data(value, ft, strings) matches FieldData::Vector4(x, y, z, w) && (
        value is Vector ==> value == LuaValue::Vector(x, y, z, w)) && (!(value is Vector) ==> x == 0
            && y == 0 && z == 0 && w == 0)),
        ft is String ==> (kept_data(value, ft, strings) matches FieldData::String(key) && (
        value matches LuaValue::String(s) ==> key.raw == key_of(strings, decode_utf8(s@))) && (!(
        value is String) ==> key.raw == 0)),
        ft matches LuauFieldType::Buffer(len) ==> (kept_data(value, ft, strings) matches
            FieldData::Buffer(bytes) && bytes.len() == len && (forall|i: int|
            0 <= i < len ==> #[trigger] bytes[i] == if (value matches LuaValue::Buffer(b) && i
                < b@.len()) {
                value->Buffer_0@[i]
            } else {
                0u8
            })),
{
}

/// Filling up keeps the bytes that fit, adds zeros behind them, and gives the size asked for.
pub proof fn law_filling_up(bytes: Seq<u8>, size: nat)
    ensures
        padded(bytes, size).len() == size,
        forall|i: int| 0 <= i < size && i < bytes.len() ==> #[trigger] padded(bytes, size)[i] == bytes[i],
        forall|i: int| bytes.len() <= i < size ==> #[trigger] padded(bytes, size)[i] == 0,
{
}

/// Only a string that is not UTF-8, in a string field, cannot be stored; and only a string in a
/// string field adds a text to the pool, which is the one that its bytes spell.
pub proof fn law_what_can_be_stored(value: LuaValue, ft: LuauFieldType)
    ensures
        !storable(value, ft) <==> ft is String && (value matches LuaValue::String(s) && !valid_utf8(
            s@,
        )),
        text_of(value, ft) is Some <==> ft is String && value is String,
        ft is String ==> (value matches LuaValue::String(s) ==> text_of(value, ft) == Some(
            decode_utf8(s@),
        )),
{
}

/// A pool that has grown holds what it held, under the same keys and with the same handles, and
/// each handle that is new was made from the string of its key.
pub proof fn law_what_growing_keeps<L, F: Fn(&str) -> L>(
    before: EngineStringPool<L>,
    after: EngineStringPool<L>,
    make: F,
)
    requires
        grown(before, after, make),
    ensures
        before.strings().len() <= after.strings().len(),
        forall|i: int|
            0 <= i < before.strings().len() ==> after.strings()[i] == #[trigger] before.strings()[i],
        forall|k: u32| #[trigger]
            before.bridge@.contains_key(k) ==> after.bridge@.contains_key(k) && after.bridge@[k]
                == before.bridge@[k],
        forall|k: u32| #[trigger]
            after.bridge@.contains_key(k) && !before.bridge@.contains_key(k) ==> 1 <= k
                <= after.strings().len() && exists|t: &str|
                t@ == after.strings()[k - 1] && #[trigger] make.ensures((t,), after.bridge@[k]),
{
    assert forall|k: u32| #[trigger] before.bridge@.contains_key(k) implies after.bridge@.contains_key(
        k,
    ) && after.bridge@[k] == before.bridge@[k] by {
        assert(before.bridge@.dom().contains(k) && after.bridge@.dom().contains(k));
    }
    assert forall|k: u32| #[trigger]
        after.bridge@.contains_key(k) && !before.bridge@.contains_key(k) implies 1 <= k
        <= after.strings().len() && exists|t: &str|
        t@ == after.strings()[k - 1] && #[trigger] make.ensures((t,), after.bridge@[k]) by {
        assert(made_for(after, k, make));
    }
}

/// What was written to a field of its own kind is read from it, and what was there stays where the
/// value is of another kind; a buffer's bytes are its first ones, behind which those stay that were
/// there; a string is read as a key under which the pool holds it. No byte outside of the field
/// changes.
pub proof fn law_writing_and_reading_a_field<L, F: Fn(&str) -> L + Copy>(
    data: &mut Vec<u8>,
    offset: usize,
    ft: LuauFieldType,
    value: LuaValue,
    pool: &mut EngineStringPool<L>,
    make: F,
    order: ByteOrder,
    before: &[u8],
    after: &[u8],
    read_before: FieldValue<StrKey>,
    read: FieldValue<StrKey>,
)
    requires
        offset + ft.spec_size() <= old(data)@.len(),
        call_ensures(
            write_field::<L, F>,
            (data, offset, ft, &value, pool, make, order),
            Ok::<(), NotUtf8>(()),
        ),
        before@ == old(data)@,
        after@ == final(data)@,
        call_ensures(read_field, (before, offset, ft, order), read_before),
        call_ensures(read_field, (after, offset, ft, order), read),
    ensures
        after@.len() == before@.len(),
        forall|p: int|
            0 <= p < before@.len() && !(offset <= p < offset + ft.spec_size())
                ==> #[trigger] after@[p] == before@[p],
        match (ft, value) {
            (LuauFieldType::Bool, LuaValue::Boolean(b)) => read@ == FieldData::<StrKey>::Bool(b),
            (LuauFieldType::Integer, LuaValue::Integer(i)) => read@ == FieldData::<
                StrKey,
            >::Integer(i),
            (LuauFieldType::Number, LuaValue::Number(n)) => read@ == FieldData::<StrKey>::Number(n),
            (LuauFieldType::Vector4, LuaValue::Vector(x, y, z, w)) => read@ == FieldData::<
                StrKey,
            >::Vector4(x, y, z, w),
            (LuauFieldType::String, LuaValue::String(s)) => read@ matches FieldData::String(key)
                && 1 <= key.raw <= final(pool).strings().len() && final(pool).strings()[key.raw - 1]
                == decode_utf8(s@),
            (LuauFieldType::Buffer(len), LuaValue::Buffer(b)) => read@ matches FieldData::Buffer(
                bytes,
            ) && bytes.len() == len && forall|i: int|
                0 <= i < len ==> #[trigger] bytes[i] == if i < b@.len() {
                    b@[i]
                } else {
                    before@[offset + i]
                },
            _ => read@ == read_before@,
        },
{
    let size = ft.spec_size();
    let stored = stored_bytes(value, ft, final(pool).strings(), order);
    let bytes = after@.subrange(offset as int, offset + size);
    let bytes_before = before@.subrange(offset as int, offset + size);
    law_what_values_store(value, ft, final(pool).strings(), order);
    law_field_round_trip(value, ft, final(pool).strings(), order);
    assert(bytes =~= splice(bytes_before, 0, stored));
    if stored.len() == size {
        assert(bytes =~= padded(stored, size));
    }
    match (ft, value) {
        (LuauFieldType::Bool, LuaValue::Boolean(_)) => {},
        (LuauFieldType::Integer, LuaValue::Integer(i)) => {
            law_bytes64_inverse(i as u64, stored, order);
        },
        (LuauFieldType::Number, LuaValue::Number(n)) => {
            law_bytes64_inverse(n, stored, order);
        },
        (LuauFieldType::Vector4, LuaValue::Vector(..)) => {},
        (LuauFieldType::String, LuaValue::String(s)) => {
            law_bytes32_inverse(key_of(final(pool).strings(), decode_utf8(s@)), stored, order);
            lemma_key_of(final(pool).strings(), decode_utf8(s@));
        },
        (LuauFieldType::Buffer(len), LuaValue::Buffer(b)) => {
            assert forall|i: int| 0 <= i < len implies #[trigger] bytes[i] == if i < b@.len() {
                b@[i]
            } else {
                before@[offset + i]
            } by {
                if i < stored.len() {
                    assert(bytes[i] == stored[i]);
                }
            }
        },
        _ => {
            assert(bytes =~= bytes_before);
        },
    }
}

/// A boolean, a number or a vector that was written to a field of its own kind is read from it; any
/// other value leaves the field as it was. No byte outside of the field changes.
pub proof fn law_writing_and_reading_a_scalar(
    data: &mut Vec<u8>,
    offset: usize,
    ft: LuauFieldType,
    value: LuaValue,
    order: ByteOrder,
    before: &[u8],
    after: &[u8],
    read_before: FieldValue<StrKey>,
    read: FieldValue<StrKey>,
)
    requires
        offset + ft.spec_size() <= old(data)@.len(),
        call_ensures(write_scalar, (data, offset, ft, &value, order), ()),
        before@ == old(data)@,
        after@ == final(data)@,
        call_ensures(read_field, (before, offset, ft, order), read_before),
        call_ensures(read_field, (after, offset, ft, order), read),
    ensures
        after@.len() == before@.len(),
        forall|p: int|
            0 <= p < before@.len() && !(offset <= p < offset + ft.spec_size())
                ==> #[trigger] after@[p] == before@[p],
        match (ft, value) {
            (LuauFieldType::Bool, LuaValue::Boolean(b)) => read@ == FieldData::<StrKey>::Bool(b),
            (LuauFieldType::Integer, LuaValue::Integer(i)) => read@ == FieldData::<
                StrKey,
            >::Integer(i),
            (LuauFieldType::Number, LuaValue::Number(n)) => read@ == FieldData::<StrKey>::Number(n),
            (LuauFieldType::Vector4, LuaValue::Vector(x, y, z, w)) => read@ == FieldData::<
                StrKey,
            >::Vector4(x, y, z, w),
            _ => after@ == before@ && read@ == read_before@,
        },
{
    let size = ft.spec_size();
    let stored = scalar_bytes(value, ft, order);
    let bytes = after@.subrange(offset as int, offset + size);
    law_what_scalars_store(value, ft, Seq::empty(), order);
    law_what_values_store(value, ft, Seq::empty(), order);
    law_field_round_trip(value, ft, Seq::empty(), order);
    if stored.len() == 0 {
        assert(after@ =~= before@);
    } else {
        if let LuaValue::Integer(i) = value {
            law_bytes64_inverse(i as u64, bytes64(i as u64, order), order);
        }
        if let LuaValue::Number(n) = value {
            law_bytes64_inverse(n, bytes64(n, order), order);
        }
        assert(stored.len() == size);
        assert(bytes =~= padded(stored, size));
    }
}

} // verus!
