//! Frames: lists of named numbers and strings that are handed to a script function and taken back
//! from it.

use vstd::layout::align_of;
use vstd::prelude::*;
use vstd::utf8::{decode_utf8, valid_utf8};

use crate::layout::Layout;
use crate::pool::{
    interned, key_of, lemma_key_of, rodeo_get, rodeo_get_or_intern, EngineStringPool, StrKey,
};
use crate::text::utf8_text;
use crate::value::LuaValue;

verus! {

impl<L> EngineStringPool<L> {
    /// The key of `text`, which is interned, and given a handle by `make`, where it has none.
    /// Where `make` fails, the string stays interned, without a handle.
    pub fn register_string<E, F: FnOnce(&str) -> Result<L, E>>(
        &mut self,
        make: F,
        text: &str,
    ) -> (result: Result<StrKey, E>)
        requires
            old(self).wf(),
            interned(old(self).strings(), text@).len() <= u32::MAX,
            make.requires((text,)),
        ensures
            final(self).wf(),
            final(self).strings() == interned(old(self).strings(), text@),
            ({
                let key = key_of(final(self).strings(), text@);
                if old(self).bridge@.contains_key(key) {
                    &&& result == Ok::<StrKey, E>(StrKey { raw: key })
                    &&& final(self).bridge@ == old(self).bridge@
                } else {
                    match result {
                        Ok(spur) => {
                            &&& spur == (StrKey { raw: key })
                            &&& final(self).bridge@.contains_key(key)
                            &&& make.ensures((text,), Ok(final(self).bridge@[key]))
                            &&& final(self).bridge@ == old(self).bridge@.insert(
                                key,
                                final(self).bridge@[key],
                            )
                        },
                        Err(e) => {
                            &&& make.ensures((text,), Err(e))
                            &&& final(self).bridge@ == old(self).bridge@
                        },
                    }
                }
            }),
    {
        let key: u32 = rodeo_get_or_intern(&mut self.rodeo, text);
        if !self.bridge.contains_key(&key) {
            let handle = match make(text) {
                Ok(handle) => handle,
                Err(e) => {
                    return Err(e);
                },
            };
            self.bridge.insert(key, handle);
        }
        Ok(StrKey { raw: key })
    }

    /// The key of the string that the bytes of a script's string spell, where they are UTF-8 and
    /// that string is interned.
    pub fn spur_from_lua_str(&self, s: &Vec<u8>) -> (spur: Option<StrKey>)
        ensures
            spur is Some <==> valid_utf8(s@) && self.strings().contains(decode_utf8(s@)),
            spur matches Some(k) ==> k.raw == key_of(self.strings(), decode_utf8(s@)),
    {
        match utf8_text(s) {
            None => None,
            Some(text) => match rodeo_get(&self.rodeo, text) {
                None => None,
                Some(key) => Some(StrKey { raw: key }),
            },
        }
    }

    /// The handle of an interned string.
    pub fn lua_str(&self, spur: StrKey) -> (handle: &L)
        requires
            self.bridge@.contains_key(spur.raw),
        ensures
            *handle == self.bridge@[spur.raw],
    {
        self.bridge.get(&spur.raw).unwrap()
    }
}

/// A value in a frame: the bits of a 64-bit floating-point number, or the key of a string.
#[derive(Clone, Copy, Debug, PartialEq, Eq, Structural)]
pub enum LuauFrameIr {
    Number(u64),
    String(StrKey),
}

/// Kind of a field.
#[derive(Clone, Copy, Debug, PartialEq, Eq, Structural)]
pub enum LuauFieldType {
    Bool,
    Integer,
    Number,
    LuauInt,
    Vector3,
    Vector4,
    String,
    Buffer(usize),
}

impl LuauFieldType {
    /// How many bytes a field of this kind takes.
    pub open spec fn spec_size(self) -> nat {
        match self {
            LuauFieldType::Bool => 1,
            LuauFieldType::Integer => 8,
            LuauFieldType::Number => 8,
            LuauFieldType::LuauInt => 8,
            LuauFieldType::Vector3 => 12,
            LuauFieldType::Vector4 => 16,
            LuauFieldType::String => 4,
            LuauFieldType::Buffer(n) => n as nat,
        }
    }

    /// What the offset of a field of this kind is a multiple of, which is up to the machine:
    /// numbers are aligned as integers of their width.
    pub open spec fn spec_align(self) -> nat {
        match self {
            LuauFieldType::Bool => 1,
            LuauFieldType::Integer => align_of::<i64>(),
            LuauFieldType::Number => align_of::<i64>(),
            LuauFieldType::LuauInt => align_of::<i64>(),
            LuauFieldType::Vector3 => align_of::<u32>(),
            LuauFieldType::Vector4 => align_of::<u32>(),
            LuauFieldType::String => align_of::<u32>(),
            LuauFieldType::Buffer(_) => 1,
        }
    }

    /// Size and alignment of a field of this kind.
    pub fn layout(self) -> (layout: Layout)
        requires
            self.spec_size() <= isize::MAX,
        ensures
            layout.size == self.spec_size(),
            layout.align == self.spec_align(),
    {
        match self {
            LuauFieldType::Bool => Layout { size: 1, align: 1 },
            LuauFieldType::Integer => Layout { size: 8, align: core::mem::align_of::<i64>() },
            LuauFieldType::Number => Layout { size: 8, align: core::mem::align_of::<i64>() },
            LuauFieldType::LuauInt => Layout { size: 8, align: core::mem::align_of::<i64>() },
            LuauFieldType::Vector3 => Layout { size: 12, align: core::mem::align_of::<u32>() },
            LuauFieldType::Vector4 => Layout { size: 16, align: core::mem::align_of::<u32>() },
            LuauFieldType::String => Layout { size: 4, align: core::mem::align_of::<u32>() },
            LuauFieldType::Buffer(n) => Layout { size: n, align: 1 },
        }
    }
}

/// The vector that a frame keeps its entries in, the first ones in place.
#[verifier::external_body]
pub struct FrameEntries {
    inner: smallvec::SmallVec<[(StrKey, LuauFrameIr); 8]>,
}

/// The entries of a vector, in order.
pub uninterp spec fn frame_entries(entries: FrameEntries) -> Seq<(StrKey, LuauFrameIr)>;

/// `smallvec::SmallVec::new`: a vector without entries.
#[verifier::external_body]
fn entries_new() -> (entries: FrameEntries)
    ensures
        frame_entries(entries) == Seq::<(StrKey, LuauFrameIr)>::empty(),
{
    FrameEntries { inner: smallvec::SmallVec::new() }
}

/// `smallvec::SmallVec::push`: adds an entry at the end. The call panics where the vector would
/// take more bytes than a layout may have, so that vectors anywhere near that size are left out.
#[verifier::external_body]
fn entries_push(entries: &mut FrameEntries, entry: (StrKey, LuauFrameIr))
    requires
        frame_entries(*old(entries)).len() < isize::MAX / 64,
    ensures
        frame_entries(*final(entries)) == frame_entries(*old(entries)).push(entry),
{
    entries.inner.push(entry)
}

/// `smallvec::SmallVec::as_slice`: the entries, in order.
#[verifier::external_body]
fn entries_as_slice(entries: &FrameEntries) -> (slice: &[(StrKey, LuauFrameIr)])
    ensures
        slice@ == frame_entries(*entries),
{
    entries.inner.as_slice()
}

/// A frame: named values, in order.
pub struct LuauFrameIrLayout {
    pub fields: FrameEntries,
}

impl View for LuauFrameIrLayout {
    type V = Seq<(StrKey, LuauFrameIr)>;

    open spec fn view(&self) -> Seq<(StrKey, LuauFrameIr)> {
        frame_entries(self.fields)
    }
}

/// What is set in a table for a value of a frame: a number, or the handle of a string.
#[derive(Debug, PartialEq, Eq)]
pub enum FrameValue<'a, L> {
    Number(u64),
    String(&'a L),
}

/// One entry that is set in a table: under the handle of its name, its value.
#[derive(Debug, PartialEq, Eq)]
pub struct FrameEntry<'a, L> {
    pub key: &'a L,
    pub value: FrameValue<'a, L>,
}

/// Whether the strings that an entry speaks of all have handles.
pub open spec fn has_handles<L>(entry: (StrKey, LuauFrameIr), bridge: Map<u32, L>) -> bool {
    &&& bridge.contains_key(entry.0.raw)
    &&& entry.1 matches LuauFrameIr::String(s) ==> bridge.contains_key(s.raw)
}

/// Whether the strings that a frame speaks of all have handles.
pub open spec fn all_have_handles<L>(
    frame: Seq<(StrKey, LuauFrameIr)>,
    bridge: Map<u32, L>,
) -> bool {
    forall|i: int| 0 <= i < frame.len() ==> has_handles(#[trigger] frame[i], bridge)
}

/// What is set in a table for an entry of a frame.
pub open spec fn entry_of<'a, L>(
    entry: (StrKey, LuauFrameIr),
    bridge: Map<u32, L>,
) -> FrameEntry<'a, L> {
    FrameEntry {
        key: &bridge[entry.0.raw],
        value: match entry.1 {
            LuauFrameIr::Number(n) => FrameValue::Number(n),
            LuauFrameIr::String(s) => FrameValue::String(&bridge[s.raw]),
        },
    }
}

/// What is set in a table for a frame, in order.
pub open spec fn entries_of<'a, L>(
    frame: Seq<(StrKey, LuauFrameIr)>,
    bridge: Map<u32, L>,
) -> Seq<FrameEntry<'a, L>> {
    frame.map_values(|entry: (StrKey, LuauFrameIr)| entry_of(entry, bridge))
}

/// Whether each name in a list has a handle.
pub open spec fn keys_have_handles<L>(schema: Seq<StrKey>, bridge: Map<u32, L>) -> bool {
    forall|i: int| 0 <= i < schema.len() ==> bridge.contains_key((#[trigger] schema[i]).raw)
}

/// Whether a frame can be read under the given names: each has a handle, and there are not too many
/// for a vector.
pub open spec fn readable<L>(schema: Seq<StrKey>, bridge: Map<u32, L>) -> bool {
    keys_have_handles(schema, bridge) && schema.len() <= isize::MAX / 64
}

/// What the value found under `key` adds to a frame: a number, an integer as the number that it is
/// nearest to, or a string that is interned; anything else adds nothing. For an integer, `number`
/// is that number.
pub open spec fn kept_entry(
    key: StrKey,
    value: LuaValue,
    number: u64,
    strings: Seq<Seq<char>>,
) -> Option<(StrKey, LuauFrameIr)> {
    match value {
        LuaValue::Number(n) => Some((key, LuauFrameIr::Number(n))),
        LuaValue::Integer(_) => Some((key, LuauFrameIr::Number(number))),
        LuaValue::String(s) => if valid_utf8(s@) && strings.contains(decode_utf8(s@)) {
            Some((key, LuauFrameIr::String(StrKey { raw: key_of(strings, decode_utf8(s@)) })))
        } else {
            None
        },
        _ => None,
    }
}

/// The frame that the values found under the first `n` names make.
pub open spec fn kept_entries(
    schema: Seq<StrKey>,
    values: Seq<LuaValue>,
    numbers: Seq<u64>,
    strings: Seq<Seq<char>>,
    n: int,
) -> Seq<(StrKey, LuauFrameIr)>
    decreases n,
{
    if n <= 0 {
        Seq::empty()
    } else {
        let before = kept_entries(schema, values, numbers, strings, n - 1);
        match kept_entry(schema[n - 1], values[n - 1], numbers[n - 1], strings) {
            Some(entry) => before.push(entry),
            None => before,
        }
    }
}

/// Whether `values` is what `table` holds under the first `n` names, and `numbers` holds, for each
/// integer among them, the number that `to_number` gives for it.
pub open spec fn values_read<
    L,
    E,
    G: Fn(&L) -> Result<LuaValue, E>,
    C: Fn(i64) -> u64,
>(
    table: G,
    to_number: C,
    schema: Seq<StrKey>,
    bridge: Map<u32, L>,
    values: Seq<LuaValue>,
    numbers: Seq<u64>,
    n: int,
) -> bool {
    &&& values.len() == n
    &&& numbers.len() == n
    &&& forall|i: int|
        0 <= i < n ==> table.ensures((&bridge[schema[i].raw],), Ok(#[trigger] values[i])) && (
        values[i] matches LuaValue::Integer(k) ==> to_number.ensures((k,), numbers[i]))
}

/// Whether `frame` is what is read from `table` under the given names.
pub open spec fn frame_read<
    L,
    E,
    G: Fn(&L) -> Result<LuaValue, E>,
    C: Fn(i64) -> u64,
>(
    table: G,
    to_number: C,
    schema: Seq<StrKey>,
    pool: EngineStringPool<L>,
    frame: Seq<(StrKey, LuauFrameIr)>,
) -> bool {
    exists|values: Seq<LuaValue>, numbers: Seq<u64>| #[trigger]
        values_read(
            table,
            to_number,
            schema,
            pool.bridge@,
            values,
            numbers,
            schema.len() as int,
        ) && frame == kept_entries(
            schema,
            values,
            numbers,
            pool.strings(),
            schema.len() as int,
        )
}

/// Whether `error` is one that `table` may fail with under one of the given names.
pub open spec fn read_can_fail<L, E, G: Fn(&L) -> Result<LuaValue, E>>(
    table: G,
    schema: Seq<StrKey>,
    bridge: Map<u32, L>,
    error: E,
) -> bool {
    exists|i: int|
        0 <= i < schema.len() && table.ensures(
            (&bridge[(#[trigger] schema[i]).raw],),
            Err::<LuaValue, E>(error),
        )
}

impl LuauFrameIrLayout {
    /// A frame with the given entries.
    pub fn from_entries(entries: &Vec<(StrKey, LuauFrameIr)>) -> (frame: Self)
        requires
            entries@.len() <= isize::MAX / 64,
        ensures
            frame@ == entries@,
    {
        let mut fields = entries_new();
        for i in 0..entries.len()
            invariant
                entries@.len() <= isize::MAX / 64,
                frame_entries(fields) == entries@.take(i as int),
        {
            entries_push(&mut fields, entries[i]);
            assert(frame_entries(fields) =~= entries@.take(i + 1));
        }
        assert(entries@.take(entries@.len() as int) =~= entries@);
        LuauFrameIrLayout { fields }
    }

    /// The entries of the frame, in order.
    pub fn entries(&self) -> (entries: &[(StrKey, LuauFrameIr)])
        ensures
            entries@ == self@,
    {
        entries_as_slice(&self.fields)
    }

    /// Whether the strings that the frame speaks of all have handles, which `write_to_table` asks
    /// for.
    pub fn can_write<L>(&self, pool: &EngineStringPool<L>) -> (can: bool)
        ensures
            can == all_have_handles(self@, pool.bridge@),
    {
        let entries = entries_as_slice(&self.fields);
        for i in 0..entries.len()
            invariant
                entries@ == self@,
                forall|j: int| 0 <= j < i ==> has_handles(#[trigger] entries@[j], pool.bridge@),
        {
            let (key, value) = entries[i];
            let known = match value {
                LuauFrameIr::Number(_) => true,
                LuauFrameIr::String(s) => pool.bridge.contains_key(&s.raw),
            };
            if !known || !pool.bridge.contains_key(&key.raw) {
                assert(!has_handles(self@[i as int], pool.bridge@));
                return false;
            }
        }
        true
    }

    /// What is set in a table for the frame, in order.
    pub fn write_to_table<'a, L>(&self, pool: &'a EngineStringPool<L>) -> (set: Vec<
        FrameEntry<'a, L>,
    >)
        requires
            all_have_handles(self@, pool.bridge@),
        ensures
            set@ == entries_of::<L>(self@, pool.bridge@),
    {
        let entries = entries_as_slice(&self.fields);
        let ghost make = |entry: (StrKey, LuauFrameIr)| entry_of::<L>(entry, pool.bridge@);
        let mut set: Vec<FrameEntry<'a, L>> = Vec::new();
        for i in 0..entries.len()
            invariant
                entries@ == self@,
                all_have_handles(self@, pool.bridge@),
                make == (|entry: (StrKey, LuauFrameIr)| entry_of::<L>(entry, pool.bridge@)),
                set@ == entries@.take(i as int).map_values(make),
        {
            let (key, value) = entries[i];
            assert(has_handles(self@[i as int], pool.bridge@));
            let value = match value {
                LuauFrameIr::Number(n) => FrameValue::Number(n),
                LuauFrameIr::String(s) => FrameValue::String(pool.lua_str(s)),
            };
            set.push(FrameEntry { key: pool.lua_str(key), value });
            assert(set@ =~= entries@.take(i + 1).map_values(make));
        }
        assert(entries@.take(entries@.len() as int) =~= entries@);
        set
    }

    /// Whether a frame can be read under the given names, which `read_from_table` asks for.
    pub fn can_read<L>(schema: &[StrKey], pool: &EngineStringPool<L>) -> (can: bool)
        ensures
            can == readable(schema@, pool.bridge@),
    {
        if schema.len() > isize::MAX as usize / 64 {
            return false;
        }
        for i in 0..schema.len()
            invariant
                forall|j: int| 0 <= j < i ==> pool.bridge@.contains_key((#[trigger] schema@[j]).raw),
        {
            if !pool.bridge.contains_key(&schema[i].raw) {
                assert(!pool.bridge@.contains_key(schema@[i as int].raw));
                return false;
            }
        }
        true
    }

    /// The frame that a table holds under the given names; `to_number` gives the number that is
    /// nearest to an integer. The first failure of `table` ends it.
    pub fn read_from_table<L, E, G: Fn(&L) -> Result<LuaValue, E>, C: Fn(i64) -> u64>(
        table: &G,
        schema: &[StrKey],
        pool: &EngineStringPool<L>,
        to_number: &C,
    ) -> (result: Result<Self, E>)
        requires
            readable(schema@, pool.bridge@),
            forall|h: &L| table.requires((h,)),
            forall|i: i64| to_number.requires((i,)),
        ensures
            result matches Ok(frame) ==> frame_read(*table, *to_number, schema@, *pool, frame@),
            result matches Err(error) ==> read_can_fail(*table, schema@, pool.bridge@, error),
    {
        let ghost mut values: Seq<LuaValue> = Seq::empty();
        let ghost mut numbers: Seq<u64> = Seq::empty();
        let mut fields = entries_new();
        for i in 0..schema.len()
            invariant
                keys_have_handles(schema@, pool.bridge@),
                schema@.len() <= isize::MAX / 64,
                forall|h: &L| table.requires((h,)),
                forall|i: i64| to_number.requires((i,)),
                values_read(
                    *table,
                    *to_number,
                    schema@,
                    pool.bridge@,
                    values,
                    numbers,
                    i as int,
                ),
                frame_entries(fields) == kept_entries(
                    schema@,
                    values,
                    numbers,
                    pool.strings(),
                    i as int,
                ),
                frame_entries(fields).len() <= i,
        {
            let key = schema[i];
            let ghost n = i as int;
            let value = match table(pool.lua_str(key)) {
                Ok(value) => value,
                Err(e) => {
                    assert(table.ensures(
                        (&pool.bridge@[schema@[n].raw],),
                        Err::<LuaValue, E>(e),
                    ));
                    return Err(e);
                },
            };
            let mut number: u64 = 0;
            let mut kept: Option<LuauFrameIr> = None;
            match &value {
                LuaValue::Number(bits) => {
                    kept = Some(LuauFrameIr::Number(*bits));
                },
                LuaValue::Integer(k) => {
                    number = to_number(*k);
                    kept = Some(LuauFrameIr::Number(number));
                },
                LuaValue::String(s) => {
                    if let Some(spur) = pool.spur_from_lua_str(s) {
                        kept = Some(LuauFrameIr::String(spur));
                    }
                },
                _ => {},
            }
            proof {
                let values_before = values;
                let numbers_before = numbers;
                values = values.push(value);
                numbers = numbers.push(number);
                lemma_kept_in_prefix(
                    schema@,
                    values_before,
                    numbers_before,
                    values,
                    numbers,
                    pool.strings(),
                    n,
                );
                assert forall|j: int| 0 <= j < n + 1 implies table.ensures(
                    (&pool.bridge@[schema@[j].raw],),
                    Ok(#[trigger] values[j]),
                ) && (values[j] matches LuaValue::Integer(k) ==> to_number.ensures(
                    (k,),
                    numbers[j],
                )) by {
                    if j < n {
                        assert(values_before[j] == values[j]);
                    }
                }
            }
            if let Some(ir) = kept {
                entries_push(&mut fields, (key, ir));
            }
        }
        assert(values_read(
            *table,
            *to_number,
            schema@,
            pool.bridge@,
            values,
            numbers,
            schema@.len() as int,
        ));
        Ok(LuauFrameIrLayout { fields })
    }
}

/// What the first `n` names make does not depend on what is found under those behind them.
proof fn lemma_kept_in_prefix(
    schema: Seq<StrKey>,
    values: Seq<LuaValue>,
    numbers: Seq<u64>,
    more_values: Seq<LuaValue>,
    more_numbers: Seq<u64>,
    strings: Seq<Seq<char>>,
    n: int,
)
    requires
        n <= values.len(),
        n <= numbers.len(),
        values.is_prefix_of(more_values),
        numbers.is_prefix_of(more_numbers),
    ensures
        kept_entries(schema, values, numbers, strings, n) == kept_entries(
            schema,
            more_values,
            more_numbers,
            strings,
            n,
        ),
    decreases n,
{
    if n > 0 {
        lemma_kept_in_prefix(schema, values, numbers, more_values, more_numbers, strings, n - 1);
        assert(values[n - 1] == more_values[n - 1]);
        assert(numbers[n - 1] == more_numbers[n - 1]);
    }
}

/// Whether `value` is what a table gives back of a value of a frame: the same number, or bytes
/// that spell the string.
pub open spec fn gives_back(value: LuaValue, ir: LuauFrameIr, strings: Seq<Seq<char>>) -> bool {
    match ir {
        LuauFrameIr::Number(n) => value == LuaValue::Number(n),
        LuauFrameIr::String(s) => {
            &&& 1 <= s.raw <= strings.len()
            &&& value matches LuaValue::String(bytes)
            &&& valid_utf8(bytes@)
            &&& decode_utf8(bytes@) == strings[s.raw - 1]
        },
    }
}

/// What a table holds, by the keys of its names, once the first `n` entries of a frame were set in
/// it: a later entry replaces an earlier one of the same name.
pub open spec fn table_filled(frame: Seq<(StrKey, LuauFrameIr)>, n: int) -> Map<u32, LuauFrameIr>
    decreases n,
{
    if n <= 0 {
        Map::empty()
    } else {
        table_filled(frame, n - 1).insert(frame[n - 1].0.raw, frame[n - 1].1)
    }
}

/// Entries with different names are all found.
proof fn lemma_table_filled(frame: Seq<(StrKey, LuauFrameIr)>, n: int)
    requires
        0 <= n <= frame.len(),
        forall|i: int, j: int|
            0 <= i < j < frame.len() ==> (#[trigger] frame[i]).0 != (#[trigger] frame[j]).0,
    ensures
        forall|i: int|
            0 <= i < n ==> table_filled(frame, n).contains_key((#[trigger] frame[i]).0.raw)
                && table_filled(frame, n)[frame[i].0.raw] == frame[i].1,
    decreases n,
{
    if n > 0 {
        lemma_table_filled(frame, n - 1);
        assert forall|i: int| 0 <= i < n implies table_filled(frame, n).contains_key(
            (#[trigger] frame[i]).0.raw,
        ) && table_filled(frame, n)[frame[i].0.raw] == frame[i].1 by {
            if i < n - 1 {
                assert(frame[i].0 != frame[n - 1].0);
            }
        }
    }
}

/// A frame with different names that is written to a table, and read back under its own names,
/// from a table that gives back what was set, is the same frame.
pub proof fn law_frame_round_trip(
    frame: Seq<(StrKey, LuauFrameIr)>,
    values: Seq<LuaValue>,
    numbers: Seq<u64>,
    strings: Seq<Seq<char>>,
)
    requires
        strings.no_duplicates(),
        strings.len() <= u32::MAX,
        forall|i: int, j: int|
            0 <= i < j < frame.len() ==> (#[trigger] frame[i]).0 != (#[trigger] frame[j]).0,
        values.len() == frame.len(),
        forall|i: int|
            0 <= i < frame.len() ==> gives_back(
                #[trigger] values[i],
                table_filled(frame, frame.len() as int)[frame[i].0.raw],
                strings,
            ),
    ensures
        kept_entries(
            frame.map_values(|entry: (StrKey, LuauFrameIr)| entry.0),
            values,
            numbers,
            strings,
            frame.len() as int,
        ) == frame,
{
    lemma_table_filled(frame, frame.len() as int);
    assert forall|i: int| 0 <= i < frame.len() implies gives_back(
        #[trigger] values[i],
        frame[i].1,
        strings,
    ) by {
        assert(table_filled(frame, frame.len() as int)[frame[i].0.raw] == frame[i].1);
    }
    lemma_frame_round_trip(frame, values, numbers, strings, frame.len() as int);
    assert(frame.take(frame.len() as int) =~= frame);
}

/// The first `n` entries of a frame come back.
proof fn lemma_frame_round_trip(
    frame: Seq<(StrKey, LuauFrameIr)>,
    values: Seq<LuaValue>,
    numbers: Seq<u64>,
    strings: Seq<Seq<char>>,
    n: int,
)
    requires
        0 <= n <= frame.len(),
        strings.no_duplicates(),
        strings.len() <= u32::MAX,
        values.len() == frame.len(),
        forall|i: int| 0 <= i < frame.len() ==> gives_back(#[trigger] values[i], frame[i].1, strings),
    ensures
        kept_entries(
            frame.map_values(|entry: (StrKey, LuauFrameIr)| entry.0),
            values,
            numbers,
            strings,
            n,
        ) == frame.take(n),
    decreases n,
{
    if n > 0 {
        lemma_frame_round_trip(frame, values, numbers, strings, n - 1);
        assert(gives_back(values[n - 1], frame[n - 1].1, strings));
        if let LuauFrameIr::String(s) = frame[n - 1].1 {
            let text = strings[s.raw - 1];
            assert(strings.contains(text));
            lemma_key_of(strings, text);
            assert(key_of(strings, text) == s.raw);
        }
        assert(frame.take(n) =~= frame.take(n - 1).push(frame[n - 1]));
    } else {
        assert(frame.take(0) =~= Seq::empty());
    }
}

/// A script function and the table that it is called with, each by the key `K` under which the
/// script engine keeps it, and the names under which its result is read.
pub struct LuauScriptContext<K> {
    pub snapshot_key: K,
    pub func_key: K,
    pub output_schema: Vec<StrKey>,
}

impl<K> LuauScriptContext<K> {
    /// A context that reads nothing of what the function returns.
    pub fn new(snapshot_key: K, func_key: K) -> (context: Self)
        ensures
            context.snapshot_key == snapshot_key,
            context.func_key == func_key,
            context.output_schema@.len() == 0,
    {
        LuauScriptContext { snapshot_key, func_key, output_schema: Vec::new() }
    }

    /// Calls the function with a frame and reads the frame that it returns. `run` is handed the
    /// keys of the table and of the function and what is set in the table; it sets that, calls the
    /// function and returns the table that comes back. The names under which that table is read
    /// need handles only where there is one.
    pub fn call<
        'a,
        L,
        E,
        G: Fn(&L) -> Result<LuaValue, E>,
        R: FnOnce(&K, &K, Vec<FrameEntry<'a, L>>) -> Result<G, E>,
        C: Fn(i64) -> u64,
    >(
        &self,
        input: &LuauFrameIrLayout,
        pool: &'a EngineStringPool<L>,
        run: R,
        to_number: &C,
    ) -> (result: Result<LuauFrameIrLayout, E>)
        requires
            all_have_handles(input@, pool.bridge@),
            forall|set: Vec<FrameEntry<'a, L>>|
                set@ == entries_of::<L>(input@, pool.bridge@) ==> run.requires(
                    (&self.snapshot_key, &self.func_key, set),
                ),
            forall|set: Vec<FrameEntry<'a, L>>, table: G| #[trigger]
                run.ensures((&self.snapshot_key, &self.func_key, set), Ok(table)) ==> readable(
                    self.output_schema@,
                    pool.bridge@,
                ) && forall|h: &L| table.requires((h,)),
            forall|i: i64| to_number.requires((i,)),
        ensures
            exists|set: Vec<FrameEntry<'a, L>>, returned: Result<G, E>|
                set@ == entries_of::<L>(input@, pool.bridge@) && #[trigger] run.ensures(
                    (&self.snapshot_key, &self.func_key, set),
                    returned,
                ) && match returned {
                    Err(e) => result == Err::<LuauFrameIrLayout, E>(e),
                    Ok(table) => match result {
                        Ok(frame) => frame_read(
                            table,
                            *to_number,
                            self.output_schema@,
                            *pool,
                            frame@,
                        ),
                        Err(e) => read_can_fail(table, self.output_schema@, pool.bridge@, e),
                    },
                },
    {
        let set = input.write_to_table(pool);
        let ghost sent = set;
        let returned = run(&self.snapshot_key, &self.func_key, set);
        assert(run.ensures((&self.snapshot_key, &self.func_key, sent), returned));
        match returned {
            Ok(table) => LuauFrameIrLayout::read_from_table(
                &table,
                self.output_schema.as_slice(),
                pool,
                to_number,
            ),
            Err(e) => Err(e),
        }
    }
}

/// A field is as large, and aligned, as what it stores: a boolean, a 64-bit integer or number,
/// three or four numbers of 32 bits, a key of 32 bits, or as many bytes as a buffer has.
pub proof fn law_frame_fields_are_laid_out_as_what_they_store(ft: LuauFieldType)
    ensures
        ft is Bool ==> ft.spec_size() == vstd::layout::size_of::<bool>() && ft.spec_align() == 1,
        ft is Integer || ft is Number || ft is LuauInt ==> ft.spec_size()
            == vstd::layout::size_of::<i64>() && ft.spec_align() == align_of::<i64>(),
        ft is Vector3 ==> ft.spec_size() == 3 * vstd::layout::size_of::<u32>() && ft.spec_align()
            == align_of::<u32>(),
        ft is Vector4 ==> ft.spec_size() == 4 * vstd::layout::size_of::<u32>() && ft.spec_align()
            == align_of::<u32>(),
        ft is String ==> ft.spec_size() == vstd::layout::size_of::<u32>() && ft.spec_align()
            == align_of::<u32>(),
        ft matches LuauFieldType::Buffer(n) ==> ft.spec_size() == n && ft.spec_align() == 1,
{
    broadcast use vstd::layout::layout_of_primitives;

}

/// Writing a frame sets one entry for each of its own, in order: under the handle of its name, the
/// number itself, or the handle of the string.
pub proof fn law_frames_are_set_entry_by_entry<L>(
    frame: Seq<(StrKey, LuauFrameIr)>,
    bridge: Map<u32, L>,
)
    ensures
        entries_of::<L>(frame, bridge).len() == frame.len(),
        forall|i: int|
            0 <= i < frame.len() ==> {
                let entry = entries_of::<L>(frame, bridge)[i];
                &&& *entry.key == bridge[(#[trigger] frame[i]).0.raw]
                &&& frame[i].1 matches LuauFrameIr::Number(n) ==> entry.value
                    == FrameValue::<L>::Number(n)
                &&& frame[i].1 matches LuauFrameIr::String(s) ==> (entry.value matches
                    FrameValue::String(handle) && *handle == bridge[s.raw])
            },
        all_have_handles(frame, bridge) <==> forall|i: int|
            0 <= i < frame.len() ==> bridge.contains_key((#[trigger] frame[i]).0.raw) && (
            frame[i].1 matches LuauFrameIr::String(s) ==> bridge.contains_key(s.raw)),
{
    if forall|i: int|
        0 <= i < frame.len() ==> bridge.contains_key((#[trigger] frame[i]).0.raw) && (
        frame[i].1 matches LuauFrameIr::String(s) ==> bridge.contains_key(s.raw)) {
        assert forall|i: int| 0 <= i < frame.len() implies has_handles(
            #[trigger] frame[i],
            bridge,
        ) by {}
    }
    if all_have_handles(frame, bridge) {
        assert forall|i: int| 0 <= i < frame.len() implies bridge.contains_key(
            (#[trigger] frame[i]).0.raw,
        ) && (frame[i].1 matches LuauFrameIr::String(s) ==> bridge.contains_key(s.raw)) by {
            assert(has_handles(frame[i], bridge));
        }
    }
}

/// What a value adds to a frame: a number itself, an integer the number that it was turned into, a
/// string its key where it is interned, and anything else nothing.
pub proof fn law_what_a_value_adds(
    key: StrKey,
    value: LuaValue,
    number: u64,
    strings: Seq<Seq<char>>,
)
    requires
        strings.len() <= u32::MAX,
    ensures
        value matches LuaValue::Number(n) ==> kept_entry(key, value, number, strings) == Some(
            (key, LuauFrameIr::Number(n)),
        ),
        value is Integer ==> kept_entry(key, value, number, strings) == Some(
            (key, LuauFrameIr::Number(number)),
        ),
        value matches LuaValue::String(s) ==> if valid_utf8(s@) && strings.contains(
            decode_utf8(s@),
        ) {
            &&& kept_entry(key, value, number, strings) matches Some(entry)
            &&& entry.0 == key
            &&& entry.1 matches LuauFrameIr::String(spur)
            &&& 1 <= spur.raw <= strings.len()
            &&& strings[spur.raw - 1] == decode_utf8(s@)
        } else {
            kept_entry(key, value, number, strings) is None
        },
        value is Nil || value is Boolean || value is Vector || value is Buffer || value is Other
            ==> kept_entry(key, value, number, strings) is None,
{
    if let LuaValue::String(s) = value {
        if valid_utf8(s@) && strings.contains(decode_utf8(s@)) {
            lemma_key_of(strings, decode_utf8(s@));
        }
    }
}

/// How many of the first `n` values add an entry to a frame.
pub open spec fn entries_among(
    schema: Seq<StrKey>,
    values: Seq<LuaValue>,
    numbers: Seq<u64>,
    strings: Seq<Seq<char>>,
    n: int,
) -> nat
    decreases n,
{
    if n <= 0 {
        0
    } else {
        entries_among(schema, values, numbers, strings, n - 1) + if kept_entry(
            schema[n - 1],
            values[n - 1],
            numbers[n - 1],
            strings,
        ) is Some {
            1nat
        } else {
            0nat
        }
    }
}

/// A frame that is read holds, in the order of the names, what each value adds, and nothing else.
pub proof fn law_frames_hold_what_values_add(
    schema: Seq<StrKey>,
    values: Seq<LuaValue>,
    numbers: Seq<u64>,
    strings: Seq<Seq<char>>,
    n: int,
)
    requires
        0 <= n,
    ensures
        kept_entries(schema, values, numbers, strings, n).len() == entries_among(
            schema,
            values,
            numbers,
            strings,
            n,
        ),
        forall|i: int|
            0 <= i < n ==> (#[trigger] kept_entry(
                schema[i],
                values[i],
                numbers[i],
                strings,
            ) matches Some(entry) ==> entries_among(schema, values, numbers, strings, i)
                < entries_among(schema, values, numbers, strings, n) && kept_entries(
                schema,
                values,
                numbers,
                strings,
                n,
            )[entries_among(schema, values, numbers, strings, i) as int] == entry),
    decreases n,
{
    if n > 0 {
        law_frames_hold_what_values_add(schema, values, numbers, strings, n - 1);
        let before = kept_entries(schema, values, numbers, strings, n - 1);
        let all = kept_entries(schema, values, numbers, strings, n);
        assert forall|k: int| 0 <= k < before.len() implies all[k] == before[k] by {}
    }
}

/// What is read from a table: for each name, in order, a value that the table gives under the
/// handle of that name; for integers among them, the number that they are turned into.
pub proof fn law_values_are_read_under_their_names<
    L,
    E,
    G: Fn(&L) -> Result<LuaValue, E>,
    C: Fn(i64) -> u64,
>(
    table: G,
    to_number: C,
    schema: Seq<StrKey>,
    bridge: Map<u32, L>,
    values: Seq<LuaValue>,
    numbers: Seq<u64>,
    n: int,
)
    requires
        values_read(table, to_number, schema, bridge, values, numbers, n),
        0 <= n,
    ensures
        values.len() == n,
        forall|i: int|
            0 <= i < n ==> table.ensures((&bridge[schema[i].raw],), Ok(#[trigger] values[i])),
        forall|i: int|
            0 <= i < n ==> (#[trigger] values[i] matches LuaValue::Integer(k) ==> to_number.ensures(
                (k,),
                numbers[i],
            )),
{
}

/// A field takes as many bytes, aligned as such, as what it stores.
pub proof fn law_laying_out_a_frame_field(ft: LuauFieldType, layout: Layout)
    requires
        call_ensures(LuauFieldType::layout, (ft,), layout),
    ensures
        ft is Bool ==> layout.size == vstd::layout::size_of::<bool>() && layout.align == 1,
        ft is Integer || ft is Number || ft is LuauInt ==> layout.size
            == vstd::layout::size_of::<i64>() && layout.align == align_of::<i64>(),
        ft is Vector3 ==> layout.size == 3 * vstd::layout::size_of::<u32>() && layout.align
            == align_of::<u32>(),
        ft is Vector4 ==> layout.size == 4 * vstd::layout::size_of::<u32>() && layout.align
            == align_of::<u32>(),
        ft is String ==> layout.size == vstd::layout::size_of::<u32>() && layout.align
            == align_of::<u32>(),
        ft matches LuauFieldType::Buffer(n) ==> layout.size == n && layout.align == 1,
{
    law_frame_fields_are_laid_out_as_what_they_store(ft);
}

/// A string that was registered is found again by its bytes, under the key that it was registered
/// under, and has a handle; registering keeps the strings that were held, in place, and all handles,
/// and adds no string but this one.
pub proof fn law_registering_a_string<L, E, F: FnOnce(&str) -> Result<L, E>>(
    pool: &mut EngineStringPool<L>,
    make: F,
    text: &str,
    spur: StrKey,
    after: EngineStringPool<L>,
    bytes: Vec<u8>,
    found: Option<StrKey>,
)
    requires
        old(pool).wf(),
        interned(old(pool).strings(), text@).len() <= u32::MAX,
        call_ensures(
            EngineStringPool::<L>::register_string::<E, F>,
            (pool, make, text),
            Ok::<StrKey, E>(spur),
        ),
        after == *final(pool),
        valid_utf8(bytes@),
        decode_utf8(bytes@) == text@,
        call_ensures(EngineStringPool::<L>::spur_from_lua_str, (&after, &bytes), found),
    ensures
        found == Some(spur),
        1 <= spur.raw <= after.strings().len(),
        after.strings()[spur.raw - 1] == text@,
        after.bridge@.contains_key(spur.raw),
        old(pool).strings().is_prefix_of(after.strings()),
        after.strings().len() <= old(pool).strings().len() + 1,
        old(pool).strings().contains(text@) ==> after.strings() == old(pool).strings(),
        forall|k: u32| #[trigger]
            old(pool).bridge@.contains_key(k) ==> after.bridge@.contains_key(k) && after.bridge@[k]
                == old(pool).bridge@[k],
        old(pool).bridge@.contains_key(spur.raw) ==> after.bridge@ == old(pool).bridge@,
        !old(pool).bridge@.contains_key(spur.raw) ==> make.ensures(
            (text,),
            Ok(after.bridge@[spur.raw]),
        ),
{
    crate::pool::lemma_interned(old(pool).strings(), text@);
    lemma_key_of(after.strings(), text@);
}

/// Bytes that are not UTF-8, or spell no string that is held, stand for no key.
pub proof fn law_unknown_strings_have_no_key<L>(
    pool: EngineStringPool<L>,
    bytes: Vec<u8>,
    found: Option<StrKey>,
)
    requires
        pool.wf(),
        call_ensures(EngineStringPool::<L>::spur_from_lua_str, (&pool, &bytes), found),
    ensures
        !valid_utf8(bytes@) ==> found is None,
        valid_utf8(bytes@) && !pool.strings().contains(decode_utf8(bytes@)) ==> found is None,
        valid_utf8(bytes@) && pool.strings().contains(decode_utf8(bytes@)) ==> (found matches Some(
            spur,
        ) && 1 <= spur.raw <= pool.strings().len() && pool.strings()[spur.raw - 1]
            == decode_utf8(bytes@)),
{
    if valid_utf8(bytes@) && pool.strings().contains(decode_utf8(bytes@)) {
        lemma_key_of(pool.strings(), decode_utf8(bytes@));
    }
}

/// Writing a frame sets one entry for each of its own, in order: under the handle of its name, the
/// number itself, or the handle of the string. A frame holds the entries that it was made from.
pub proof fn law_writing_a_frame<'a, L>(
    entries: Vec<(StrKey, LuauFrameIr)>,
    frame: LuauFrameIrLayout,
    pool: &'a EngineStringPool<L>,
    set: Vec<FrameEntry<'a, L>>,
)
    requires
        call_ensures(LuauFrameIrLayout::from_entries, (&entries,), frame),
        call_ensures(LuauFrameIrLayout::write_to_table::<L>, (&frame, pool), set),
    ensures
        set@.len() == entries@.len(),
        forall|i: int|
            0 <= i < entries@.len() ==> {
                let entry = #[trigger] set@[i];
                &&& *entry.key == pool.bridge@[entries@[i].0.raw]
                &&& entries@[i].1 matches LuauFrameIr::Number(n) ==> entry.value
                    == FrameValue::<L>::Number(n)
                &&& entries@[i].1 matches LuauFrameIr::String(s) ==> (entry.value matches
                    FrameValue::String(handle) && *handle == pool.bridge@[s.raw])
            },
{
    law_frames_are_set_entry_by_entry::<L>(entries@, pool.bridge@);
}

/// What a frame that is read holds: there are values that the table gave under the names, one for
/// each, and the frame holds, in their order, what each of them adds, and nothing else.
pub proof fn law_reading_a_frame<L, E, G: Fn(&L) -> Result<LuaValue, E>, C: Fn(i64) -> u64>(
    table: G,
    schema: &[StrKey],
    pool: EngineStringPool<L>,
    to_number: C,
    result: Result<LuauFrameIrLayout, E>,
)
    requires
        call_ensures(
            LuauFrameIrLayout::read_from_table::<L, E, G, C>,
            (&table, schema, &pool, &to_number),
            result,
        ),
    ensures
        result matches Ok(frame) ==> exists|values: Seq<LuaValue>, numbers: Seq<u64>|
            values.len() == schema@.len() && numbers.len() == schema@.len() && (forall|i: int|
                0 <= i < schema@.len() ==> table.ensures(
                    (&pool.bridge@[schema@[i].raw],),
                    Ok(#[trigger] values[i]),
                ) && (values[i] matches LuaValue::Integer(k) ==> to_number.ensures(
                    (k,),
                    numbers[i],
                ))) && frame@.len() == #[trigger] entries_among(
                schema@,
                values,
                numbers,
                pool.strings(),
                schema@.len() as int,
            ) && (forall|i: int|
                0 <= i < schema@.len() ==> (#[trigger] kept_entry(
                    schema@[i],
                    values[i],
                    numbers[i],
                    pool.strings(),
                ) matches Some(entry) ==> frame@[entries_among(
                    schema@,
                    values,
                    numbers,
                    pool.strings(),
                    i,
                ) as int] == entry)),
        result matches Err(e) ==> exists|i: int|
            0 <= i < schema@.len() && table.ensures(
                (&pool.bridge@[(#[trigger] schema@[i]).raw],),
                Err::<LuaValue, E>(e),
            ),
{
    if let Ok(frame) = result {
        let n = schema@.len() as int;
        let (values, numbers) = choose|values: Seq<LuaValue>, numbers: Seq<u64>| #[trigger]
            values_read(table, to_number, schema@, pool.bridge@, values, numbers, n) && frame@
                == kept_entries(schema@, values, numbers, pool.strings(), n);
        law_frames_hold_what_values_add(schema@, values, numbers, pool.strings(), n);
        law_values_are_read_under_their_names(
            table,
            to_number,
            schema@,
            pool.bridge@,
            values,
            numbers,
            n,
        );
        assert(frame@.len() == entries_among(schema@, values, numbers, pool.strings(), n));
    }
}

/// A frame can be read where each name has a handle, and written where each name and each string
/// does; the number of names that can be read at once is bounded by memory alone.
pub proof fn law_what_frames_need<L>(
    schema: &[StrKey],
    frame: LuauFrameIrLayout,
    pool: EngineStringPool<L>,
    can_read: bool,
    can_write: bool,
)
    requires
        call_ensures(LuauFrameIrLayout::can_read::<L>, (schema, &pool), can_read),
        call_ensures(LuauFrameIrLayout::can_write::<L>, (&frame, &pool), can_write),
    ensures
        can_read <==> schema@.len() <= isize::MAX / 64 && forall|i: int|
            0 <= i < schema@.len() ==> pool.bridge@.contains_key((#[trigger] schema@[i]).raw),
        can_write <==> forall|i: int|
            0 <= i < frame@.len() ==> pool.bridge@.contains_key((#[trigger] frame@[i]).0.raw) && (
            frame@[i].1 matches LuauFrameIr::String(s) ==> pool.bridge@.contains_key(s.raw)),
{
    law_frames_are_set_entry_by_entry::<L>(frame@, pool.bridge@);
}

/// Calling a script function: it is handed the keys of its table and of itself, and what the frame
/// sets in the table; an error of it is the error of the call; and what it returns is read under the
/// names of the context.
pub proof fn law_calling_a_function<
    'a,
    K,
    L,
    E,
    G: Fn(&L) -> Result<LuaValue, E>,
    R: FnOnce(&K, &K, Vec<FrameEntry<'a, L>>) -> Result<G, E>,
    C: Fn(i64) -> u64,
>(
    context: LuauScriptContext<K>,
    input: LuauFrameIrLayout,
    pool: &'a EngineStringPool<L>,
    run: R,
    to_number: C,
    result: Result<LuauFrameIrLayout, E>,
)
    requires
        call_ensures(
            LuauScriptContext::<K>::call::<L, E, G, R, C>,
            (&context, &input, pool, run, &to_number),
            result,
        ),
    ensures
        exists|set: Vec<FrameEntry<'a, L>>, returned: Result<G, E>|
            set@.len() == input@.len() && (forall|i: int|
                0 <= i < input@.len() ==> *(#[trigger] set@[i]).key
                    == pool.bridge@[input@[i].0.raw] && (match input@[i].1 {
                    LuauFrameIr::Number(n) => set@[i].value == FrameValue::<L>::Number(n),
                    LuauFrameIr::String(s) => set@[i].value matches FrameValue::String(handle)
                        && *handle == pool.bridge@[s.raw],
                })) && #[trigger] run.ensures(
                (&context.snapshot_key, &context.func_key, set),
                returned,
            ) && (match returned {
                Err(e) => result == Err::<LuauFrameIrLayout, E>(e),
                Ok(table) => match result {
                    Ok(frame) => frame_read(
                        table,
                        to_number,
                        context.output_schema@,
                        *pool,
                        frame@,
                    ),
                    Err(e) => read_can_fail(table, context.output_schema@, pool.bridge@, e),
                },
            }),
{
    law_frames_are_set_entry_by_entry::<L>(input@, pool.bridge@);
}

/// A new context keeps the keys that it was made with, and reads nothing of what its function
/// returns; a frame lists the entries that it was made from.
pub proof fn law_new_contexts_and_frames<K>(
    snapshot_key: K,
    func_key: K,
    context: LuauScriptContext<K>,
    entries: Vec<(StrKey, LuauFrameIr)>,
    frame: LuauFrameIrLayout,
    listed: &[(StrKey, LuauFrameIr)],
)
    requires
        call_ensures(LuauScriptContext::<K>::new, (snapshot_key, func_key), context),
        call_ensures(LuauFrameIrLayout::from_entries, (&entries,), frame),
        call_ensures(LuauFrameIrLayout::entries, (&frame,), listed),
    ensures
        context.snapshot_key == snapshot_key,
        context.func_key == func_key,
        context.output_schema@.len() == 0,
        listed@ == entries@,
{
}

} // verus!
