//! Components in and out of script tables.

use std::collections::HashMap;

use vstd::prelude::*;
use vstd::utf8::{decode_utf8, valid_utf8};

use crate::bytes::{bytes32, bytes64, law_bytes32_inverse, number32, zeroed, ByteOrder};
use crate::layout::LuauFieldType;
use crate::pool::{
    interned, key_of, lemma_interned, lemma_key_of, lemma_key_stable, EngineStringPool, StrKey,
};
use crate::schema::{fields_fit, ComponentId, SchemaRegistry};
use crate::value::{
    decoded, grown, has_handle, kept_data, law_field_round_trip, law_saying_the_same,
    law_what_bytes_say, law_what_values_store, lemma_same_data_same_bytes, lemma_zeros_decode,
    made_for, of_kind, padded, read_field, says, storable, stored_bytes, text_of, write_field,
    zero_data, FieldData, FieldValue, LuaValue,
};

verus! {

/// Offset and kind of each field, by the key of its name.
pub type FieldMap = Map<u32, (usize, LuauFieldType)>;

/// Why a component could not be made from a table: reading the table failed, or a string in it is
/// not UTF-8.
#[derive(Debug, PartialEq, Eq)]
pub enum TableError<E> {
    Lua(E),
    NotUtf8,
}

/// Whether byte `p` of a component belongs to field `k`.
pub open spec fn in_field(fields: FieldMap, k: u32, p: int) -> bool {
    fields.contains_key(k) && fields[k].0 <= p < fields[k].0 + fields[k].1.spec_size()
}

/// The bytes of field `k`.
pub open spec fn field_bytes(data: Seq<u8>, fields: FieldMap, k: u32) -> Seq<u8> {
    data.subrange(fields[k].0 as int, fields[k].0 + fields[k].1.spec_size())
}

/// Whether `data` is a component of zeros in which each field's value was stored, with the strings
/// among the values interned.
pub open spec fn holds_values(
    data: Seq<u8>,
    fields: FieldMap,
    values: Map<u32, LuaValue>,
    strings: Seq<Seq<char>>,
    order: ByteOrder,
) -> bool {
    &&& forall|k: u32| #[trigger]
        fields.contains_key(k) ==> field_bytes(data, fields, k) == padded(
            stored_bytes(values[k], fields[k].1, strings, order),
            fields[k].1.spec_size(),
        )
    &&& forall|k: u32| #[trigger]
        fields.contains_key(k) ==> storable(values[k], fields[k].1) && (text_of(
            values[k],
            fields[k].1,
        ) matches Some(t) ==> strings.contains(t))
    &&& forall|p: int|
        0 <= p < data.len() && (forall|k: u32| !in_field(fields, k, p)) ==> #[trigger] data[p] == 0
}

/// Whether `values` are results of reading `table` at the handle of each field's name.
pub open spec fn read_from<L, E, G: Fn(&L) -> Result<LuaValue, E>>(
    table: G,
    bridge: Map<u32, L>,
    fields: FieldMap,
    values: Map<u32, LuaValue>,
) -> bool {
    forall|k: u32| #[trigger]
        fields.contains_key(k) ==> values.contains_key(k) && table.ensures(
            (&bridge[k],),
            Ok(values[k]),
        )
}

/// Whether `s` is the text of a value that reading `table` at the name of a string field can give.
pub open spec fn table_text<L, E, G: Fn(&L) -> Result<LuaValue, E>>(
    table: G,
    bridge: Map<u32, L>,
    fields: FieldMap,
    s: Seq<char>,
) -> bool {
    exists|k: u32, v: LuaValue|
        fields.contains_key(k) && #[trigger] table.ensures((&bridge[k],), Ok(v)) && text_of(
            v,
            fields[k].1,
        ) == Some(s) && storable(v, fields[k].1)
}

/// Whether `texts` are different texts that are not interned and that reading `table` can give, no
/// more of them than there are fields.
pub open spec fn new_texts<L, E, G: Fn(&L) -> Result<LuaValue, E>>(
    texts: Seq<Seq<char>>,
    table: G,
    bridge: Map<u32, L>,
    fields: FieldMap,
    strings: Seq<Seq<char>>,
) -> bool {
    &&& texts.no_duplicates()
    &&& texts.len() <= fields.dom().len()
    &&& forall|i: int|
        0 <= i < texts.len() ==> !strings.contains(#[trigger] texts[i]) && table_text(
            table,
            bridge,
            fields,
            texts[i],
        )
}

/// Whether there are keys for all the texts that reading `table` can add to the pool.
pub open spec fn room_for_texts<L, E, G: Fn(&L) -> Result<LuaValue, E>>(
    table: G,
    bridge: Map<u32, L>,
    fields: FieldMap,
    strings: Seq<Seq<char>>,
) -> bool {
    forall|texts: Seq<Seq<char>>| #[trigger]
        new_texts(texts, table, bridge, fields, strings) ==> strings.len() + texts.len()
            <= u32::MAX
}

/// Whether the strings among the values of the fields are interned and have handles.
pub open spec fn strings_have_handles<L>(
    fields: FieldMap,
    values: Map<u32, LuaValue>,
    pool: EngineStringPool<L>,
) -> bool {
    forall|k: u32| #[trigger]
        fields.contains_key(k) ==> has_handle(values[k], fields[k].1, pool)
}

/// Whether reading `table` at the name of a field can fail with `e`.
pub open spec fn can_fail<L, E, G: Fn(&L) -> Result<LuaValue, E>>(
    table: G,
    bridge: Map<u32, L>,
    fields: FieldMap,
    e: E,
) -> bool {
    exists|k: u32| #[trigger]
        fields.contains_key(k) && table.ensures((&bridge[k],), Err(e))
}

/// Whether reading `table` at the name of a string field can give a string that is not UTF-8.
pub open spec fn can_read_non_utf8<L, E, G: Fn(&L) -> Result<LuaValue, E>>(
    table: G,
    bridge: Map<u32, L>,
    fields: FieldMap,
) -> bool {
    exists|k: u32, v: LuaValue|
        fields.contains_key(k) && #[trigger] table.ensures((&bridge[k],), Ok(v)) && !storable(
            v,
            fields[k].1,
        )
}

/// Stored bytes do not change while further strings are interned.
proof fn lemma_stored_stable(
    value: LuaValue,
    ft: LuauFieldType,
    before: Seq<Seq<char>>,
    after: Seq<Seq<char>>,
    order: ByteOrder,
)
    requires
        before.is_prefix_of(after),
        after.no_duplicates(),
        text_of(value, ft) matches Some(t) ==> before.contains(t),
    ensures
        stored_bytes(value, ft, after, order) == stored_bytes(value, ft, before, order),
        text_of(value, ft) matches Some(t) ==> after.contains(t),
{
    if let Some(t) = text_of(value, ft) {
        lemma_key_stable(before, after, t);
    }
}

/// Growth of a pool adds up.
pub proof fn lemma_grown_twice<L, F: Fn(&str) -> L>(
    first: EngineStringPool<L>,
    second: EngineStringPool<L>,
    third: EngineStringPool<L>,
    make: F,
)
    requires
        grown(first, second, make),
        grown(second, third, make),
    ensures
        grown(first, third, make),
{
    assert forall|k: u32| #[trigger]
        third.bridge@.contains_key(k) && !first.bridge@.contains_key(
            k,
        ) implies made_for(third, k, make) by {
        if second.bridge@.contains_key(k) {
            assert(made_for(second, k, make));
            assert(third.bridge@[k] == second.bridge@[k]);
            assert(third.strings()[k - 1] == second.strings()[k - 1]);
        }
    }
    assert forall|k: u32| #[trigger] first.bridge@.dom().contains(k) implies third.bridge@.dom().contains(
        k,
    ) && first.bridge@[k] == third.bridge@[k] by {
        assert(second.bridge@.dom().contains(k));
    }
}

/// To intern one string is to grow the pool.
pub proof fn law_interning_grows<L, F: Fn(&str) -> L>(
    before: EngineStringPool<L>,
    after: EngineStringPool<L>,
    make: F,
    s: &str,
)
    requires
        before.wf(),
        after.wf(),
        after.strings() == interned(before.strings(), s@),
        before.bridge@.contains_key(key_of(after.strings(), s@)) ==> after.bridge@
            == before.bridge@,
        !before.bridge@.contains_key(key_of(after.strings(), s@)) ==> make.ensures(
            (s,),
            after.bridge@[key_of(after.strings(), s@)],
        ) && after.bridge@ == before.bridge@.insert(
            key_of(after.strings(), s@),
            after.bridge@[key_of(after.strings(), s@)],
        ),
        before.complete() ==> after.complete(),
    ensures
        grown(before, after, make),
{
    lemma_interned(before.strings(), s@);
    lemma_key_of(after.strings(), s@);
}

/// Once a string is interned and has a handle, it keeps its key and its handle, which reads as the
/// string, while further strings are interned.
pub proof fn law_interned_strings_stay<L, F: Fn(&str) -> L>(
    before: EngineStringPool<L>,
    after: EngineStringPool<L>,
    make: F,
    text: spec_fn(L) -> Seq<char>,
    s: Seq<char>,
)
    requires
        before.wf(),
        after.wf(),
        before.reads_as(text),
        before.strings().contains(s),
        before.bridge@.contains_key(key_of(before.strings(), s)),
        grown(before, after, make),
        forall|t: &str, h: L| #[trigger] make.ensures((t,), h) ==> text(h) == t@,
    ensures
        after.reads_as(text),
        key_of(after.strings(), s) == key_of(before.strings(), s),
        after.bridge@.contains_key(key_of(before.strings(), s)),
        text(after.bridge@[key_of(before.strings(), s)]) == s,
{
    assert forall|k: u32| #[trigger] after.bridge@.contains_key(k) implies 1 <= k
        <= after.strings().len() && text(after.bridge@[k]) == after.strings()[k - 1] by {
        if before.bridge@.contains_key(k) {
            assert(before.bridge@.dom().contains(k) && after.bridge@.dom().contains(k));
            assert(after.strings()[k - 1] == before.strings()[k - 1]);
        } else {
            assert(made_for(after, k, make));
        }
    }
    let key = key_of(before.strings(), s);
    lemma_key_of(before.strings(), s);
    lemma_key_stable(before.strings(), after.strings(), s);
    assert(before.bridge@.dom().contains(key) && after.bridge@.dom().contains(key));
}


/// Whether `entries` are the entries of `map`, each once.
pub open spec fn lists_map<V>(entries: Seq<(&u32, &V)>, map: Map<u32, V>) -> bool {
    &&& map.dom().finite()
    &&& entries.len() == map.dom().len()
    &&& forall|j: int|
        #![trigger entries[j]]
        0 <= j < entries.len() ==> map.contains_key(*entries[j].0) && map[*entries[j].0]
            == *entries[j].1
    &&& forall|k: u32| #[trigger] map.contains_key(k) ==> entries.contains((&k, &map[k]))
}

/// No key is listed twice.
pub proof fn lemma_listed_once<V>(entries: Seq<(&u32, &V)>, map: Map<u32, V>)
    requires
        lists_map(entries, map),
    ensures
        forall|i: int, j: int|
            #![trigger entries[i], entries[j]]
            0 <= i < j < entries.len() ==> *entries[i].0 != *entries[j].0,
{
    let keys = entries.map_values(|e: (&u32, &V)| *e.0);
    assert(keys.to_set() =~= map.dom()) by {
        assert forall|k: u32| map.dom().contains(k) implies keys.to_set().contains(k) by {
            assert(map.contains_key(k));
            let j = choose|j: int| 0 <= j < entries.len() && entries[j] == (&k, &map[k]);
            assert(keys[j] == k);
        }
        assert forall|k: u32| keys.to_set().contains(k) implies map.dom().contains(k) by {
            let j = choose|j: int| 0 <= j < keys.len() && keys[j] == k;
            assert(map.contains_key(*entries[j].0));
        }
    }
    keys.lemma_no_dup_set_cardinality();
    assert forall|i: int, j: int|
        #![trigger entries[i], entries[j]]
        0 <= i < j < entries.len() implies *entries[i].0 != *entries[j].0 by {
        assert(keys[i] == *entries[i].0 && keys[j] == *entries[j].0);
    }
}

/// Where the strings that were added to a pool are new texts, so are they with one more.
proof fn lemma_new_texts<L, E, G: Fn(&L) -> Result<LuaValue, E>>(
    before: Seq<Seq<char>>,
    after: Seq<Seq<char>>,
    t: Seq<char>,
    table: G,
    bridge: Map<u32, L>,
    fields: FieldMap,
)
    requires
        before.is_prefix_of(after),
        after.no_duplicates(),
        !after.contains(t),
        table_text(table, bridge, fields, t),
        after.len() < before.len() + fields.dom().len(),
        forall|i: int|
            before.len() <= i < after.len() ==> table_text(
                table,
                bridge,
                fields,
                #[trigger] after[i],
            ),
    ensures
        new_texts(after.skip(before.len() as int).push(t), table, bridge, fields, before),
{
    let n = before.len() as int;
    let added = after.skip(n).push(t);
    assert forall|i: int| 0 <= i < added.len() implies !before.contains(#[trigger] added[i])
        && table_text(table, bridge, fields, added[i]) by {
        if i < added.len() - 1 {
            assert(added[i] == after[n + i]);
            if before.contains(added[i]) {
                let j = choose|j: int| 0 <= j < before.len() && before[j] == added[i];
                assert(after[j] == before[j]);
            }
        } else if before.contains(t) {
            let j = choose|j: int| 0 <= j < before.len() && before[j] == t;
            assert(after[j] == t);
        }
    }
    assert forall|i: int, j: int|
        0 <= i < added.len() && 0 <= j < added.len() && i != j implies added[i] != added[j] by {
        if i < added.len() - 1 {
            assert(added[i] == after[n + i]);
        }
        if j < added.len() - 1 {
            assert(added[j] == after[n + j]);
        }
    }
}

/// Turns script tables into components and back.
pub struct DynamicComponentBridge;

impl DynamicComponentBridge {
    /// The bytes of a new component, from a table: `table` reads the value under a handle, and
    /// `make` makes handles for strings that were not interned before. A field that the table has
    /// no value of its kind for stays zero.
    pub fn insert_from_table<L, E, G: Fn(&L) -> Result<LuaValue, E>, F: Fn(&str) -> L + Copy>(
        component_id: ComponentId,
        registry: &SchemaRegistry,
        pool: &mut EngineStringPool<L>,
        table: G,
        make: F,
    ) -> (result: Result<Vec<u8>, TableError<E>>)
        requires
            registry.wf(),
            registry.id_to_schema@.contains_key(component_id),
            old(pool).wf(),
            room_for_texts(
                table,
                old(pool).bridge@,
                registry.id_to_schema@[component_id].fields@,
                old(pool).strings(),
            ),
            forall|k: u32| #[trigger]
                registry.id_to_schema@[component_id].fields@.contains_key(k) ==> old(
                    pool,
                ).bridge@.contains_key(k),
            forall|handle: &L| table.requires((handle,)),
            forall|t: &str| make.requires((t,)),
        ensures
            final(pool).wf(),
            grown(*old(pool), *final(pool), make),
            forall|i: int|
                old(pool).strings().len() <= i < final(pool).strings().len() ==> table_text(
                    table,
                    old(pool).bridge@,
                    registry.id_to_schema@[component_id].fields@,
                    #[trigger] final(pool).strings()[i],
                ),
            result matches Ok(data) ==> data@.len()
                == registry.id_to_schema@[component_id].layout.size && exists|
                values: Map<u32, LuaValue>,
            | #[trigger]
                read_from(
                    table,
                    old(pool).bridge@,
                    registry.id_to_schema@[component_id].fields@,
                    values,
                ) && holds_values(
                    data@,
                    registry.id_to_schema@[component_id].fields@,
                    values,
                    final(pool).strings(),
                    registry.order,
                ) && strings_have_handles(
                    registry.id_to_schema@[component_id].fields@,
                    values,
                    *final(pool),
                ),
            result matches Err(TableError::Lua(e)) ==> can_fail(
                table,
                old(pool).bridge@,
                registry.id_to_schema@[component_id].fields@,
                e,
            ),
            result matches Err(TableError::NotUtf8) ==> can_read_non_utf8(
                table,
                old(pool).bridge@,
                registry.id_to_schema@[component_id].fields@,
            ),
    {
        let schema = registry.id_to_schema.get(&component_id).unwrap();
        let mut scratch = zeroed(schema.layout.size);
        let ghost fields = schema.fields@;
        let ghost start = *pool;
        let ghost mut values: Map<u32, LuaValue> = Map::empty();
        for (k, field) in it: schema.fields.iter()
            invariant
                schema.wf(),
                fields == schema.fields@,
                fields == registry.id_to_schema@[component_id].fields@,
                start == *old(pool),
                lists_map(it.seq(), fields),
                room_for_texts(table, start.bridge@, fields, start.strings()),
                forall|j: u32| #[trigger]
                    fields.contains_key(j) ==> start.bridge@.contains_key(j),
                forall|handle: &L| table.requires((handle,)),
                forall|t: &str| make.requires((t,)),
                scratch@.len() == schema.layout.size,
                pool.wf(),
                grown(start, *pool, make),
                pool.strings().len() <= start.strings().len() + it.index(),
                forall|i: int|
                    start.strings().len() <= i < pool.strings().len() ==> table_text(
                        table,
                        start.bridge@,
                        fields,
                        #[trigger] pool.strings()[i],
                    ),
                forall|j: int|
                    #![trigger it.seq()[j]]
                    0 <= j < it.index() ==> {
                        let key = *it.seq()[j].0;
                        let ft = fields[key].1;
                        &&& values.contains_key(key)
                        &&& storable(values[key], ft)
                        &&& table.ensures((&start.bridge@[key],), Ok(values[key]))
                        &&& has_handle(values[key], ft, *pool)
                        &&& field_bytes(scratch@, fields, key) == padded(
                            stored_bytes(values[key], ft, pool.strings(), registry.order),
                            ft.spec_size(),
                        )
                    },
                forall|p: int|
                    0 <= p < scratch@.len() && (forall|j: int|
                        0 <= j < it.index() ==> !in_field(fields, *(#[trigger] it.seq()[j]).0, p))
                        ==> #[trigger] scratch@[p] == 0,
        {
            proof {
                lemma_listed_once(it.seq(), fields);
            }
            let (offset, ft) = *field;
            let spur = StrKey { raw: *k };
            assert(fields.contains_key(*k));
            let ghost before = *pool;
            let ghost old_scratch = scratch@;
            let ghost old_values = values;
            assert(start.bridge@.dom().contains(*k) && pool.bridge@.dom().contains(*k));
            let handle = pool.get_lua_str(spur);
            assert(*handle == start.bridge@[*k]);
            match table(handle) {
                Ok(value) => {
                    assert(table.ensures((&start.bridge@[*k],), Ok(value)));
                    proof {
                        if let Some(t) = text_of(value, ft) {
                            lemma_interned(pool.strings(), t);
                            if storable(value, ft) && !pool.strings().contains(t) {
                                let added = pool.strings().skip(start.strings().len() as int);
                                assert(table_text(table, start.bridge@, fields, t));
                                lemma_new_texts(
                                    start.strings(),
                                    pool.strings(),
                                    t,
                                    table,
                                    start.bridge@,
                                    fields,
                                );
                                assert(new_texts(
                                    added.push(t),
                                    table,
                                    start.bridge@,
                                    fields,
                                    start.strings(),
                                ));
                            }
                        }
                        values = values.insert(*k, value);
                    }
                    let written = write_field(
                        &mut scratch,
                        offset,
                        ft,
                        &value,
                        pool,
                        make,
                        registry.order,
                    );
                    match written {
                        Ok(()) => {},
                        Err(_) => {
                            return Err(TableError::NotUtf8);
                        },
                    }
                    proof {
                        lemma_grown_twice(start, before, *pool, make);
                        law_field_round_trip(value, ft, pool.strings(), registry.order);
                        if let Some(t) = text_of(value, ft) {
                            assert(table_text(table, start.bridge@, fields, t));
                        }
                        assert(field_bytes(scratch@, fields, *k) =~= padded(
                            stored_bytes(value, ft, pool.strings(), registry.order),
                            ft.spec_size(),
                        )) by {
                            assert forall|p: int|
                                offset <= p < offset + ft.spec_size() implies old_scratch[p]
                                == 0 by {
                                assert forall|j: int| 0 <= j < it.index() implies !in_field(
                                    fields,
                                    *(#[trigger] it.seq()[j]).0,
                                    p,
                                ) by {
                                    assert(fields.contains_key(*it.seq()[j].0));
                                }
                            }
                        }
                        assert forall|j: int|
                            #![trigger it.seq()[j]]
                            0 <= j < it.index() implies {
                            let key = *it.seq()[j].0;
                            let kind = fields[key].1;
                            &&& values.contains_key(key)
                            &&& values[key] == old_values[key]
                            &&& has_handle(values[key], kind, *pool)
                            &&& field_bytes(scratch@, fields, key) == padded(
                                stored_bytes(values[key], kind, pool.strings(), registry.order),
                                kind.spec_size(),
                            )
                        } by {
                            let key = *it.seq()[j].0;
                            let kind = fields[key].1;
                            assert(fields.contains_key(key));
                            if let Some(t) = text_of(old_values[key], kind) {
                                lemma_key_stable(before.strings(), pool.strings(), t);
                                assert(before.bridge@.dom().contains(
                                    key_of(before.strings(), t),
                                ));
                            }
                            lemma_stored_stable(
                                old_values[key],
                                kind,
                                before.strings(),
                                pool.strings(),
                                registry.order,
                            );
                            assert(field_bytes(scratch@, fields, key) =~= field_bytes(
                                old_scratch,
                                fields,
                                key,
                            ));
                        }
                    }
                },
                Err(e) => {
                    assert(fields.contains_key(*k) && table.ensures((&start.bridge@[*k],), Err(e)));
                    return Err(TableError::Lua(e));
                },
            }
        }
        proof {
            assert(read_from(table, start.bridge@, fields, values));
        }
        Ok(scratch)
    }

    /// The bytes of a new component whose fields are all zero.
    pub fn insert_default(component_id: ComponentId, registry: &SchemaRegistry) -> (data: Vec<u8>)
        requires
            registry.id_to_schema@.contains_key(component_id),
        ensures
            data@ == Seq::new(
                registry.id_to_schema@[component_id].layout.size as nat,
                |i: int| 0u8,
            ),
    {
        let schema = registry.id_to_schema.get(&component_id).unwrap();
        zeroed(schema.layout.size)
    }

    /// The entries of a table for a component, from its bytes: for each field, in no particular
    /// order, the handle of its name and its value. There is no table where the component type is
    /// not known, or where the entity has no such component.
    pub fn extract_to_table<'a, L>(
        component: Option<&[u8]>,
        component_id: ComponentId,
        registry: &SchemaRegistry,
        pool: &'a EngineStringPool<L>,
    ) -> (entries: Option<Vec<TableEntry<'a, L>>>)
        requires
            registry.wf(),
            registry.id_to_schema@.contains_key(component_id) ==> (component matches Some(data)
                ==> data.len() >= registry.id_to_schema@[component_id].layout.size && handles_known(
                data@,
                registry.id_to_schema@[component_id].fields@,
                pool.bridge@,
                registry.order,
            )),
        ensures
            entries is Some <==> registry.id_to_schema@.contains_key(component_id)
                && component is Some,
            entries matches Some(list) ==> table_of(
                list@,
                component->0@,
                registry.id_to_schema@[component_id].fields@,
                pool.bridge@,
                registry.order,
            ),
    {
        match registry.id_to_schema.get(&component_id) {
            None => None,
            Some(schema) => match component {
                None => None,
                Some(data) => Some(table_entries(data, &schema.fields, pool, registry.order)),
            },
        }
    }
}

/// One entry of a table made from a component: the key of a field's name, the handle of that name,
/// and the field's value, with handles in place of strings.
#[derive(Debug, PartialEq, Eq)]
pub struct TableEntry<'a, L> {
    pub spur: StrKey,
    pub key: &'a L,
    pub value: FieldValue<&'a L>,
}

/// Whether the fields' names, and the strings that the fields store, all have handles.
pub open spec fn handles_known<L>(
    data: Seq<u8>,
    fields: FieldMap,
    bridge: Map<u32, L>,
    order: ByteOrder,
) -> bool {
    forall|k: u32| #[trigger]
        fields.contains_key(k) ==> bridge.contains_key(k) && (decoded(
            field_bytes(data, fields, k),
            fields[k].1,
            order,
        ) matches FieldData::String(s) ==> bridge.contains_key(s.raw))
}

/// `data` with the handle of a string in place of its key.
pub open spec fn with_handle<'a, L>(data: FieldData<StrKey>, bridge: Map<u32, L>) -> FieldData<
    &'a L,
> {
    match data {
        FieldData::Bool(b) => FieldData::Bool(b),
        FieldData::Integer(i) => FieldData::Integer(i),
        FieldData::Number(n) => FieldData::Number(n),
        FieldData::Vector4(x, y, z, w) => FieldData::Vector4(x, y, z, w),
        FieldData::String(s) => FieldData::String(&bridge[s.raw]),
        FieldData::Buffer(b) => FieldData::Buffer(b),
    }
}

/// Whether `entries` hold each field of `data` once, with its name and its value.
pub open spec fn table_of<L>(
    entries: Seq<TableEntry<'_, L>>,
    data: Seq<u8>,
    fields: FieldMap,
    bridge: Map<u32, L>,
    order: ByteOrder,
) -> bool {
    &&& entries.len() == fields.dom().len()
    &&& forall|j: int|
        #![trigger entries[j]]
        0 <= j < entries.len() ==> {
            let k = entries[j].spur.raw;
            &&& fields.contains_key(k)
            &&& *entries[j].key == bridge[k]
            &&& entries[j].value@ == with_handle(
                decoded(field_bytes(data, fields, k), fields[k].1, order),
                bridge,
            )
        }
    &&& forall|k: u32| #[trigger]
        fields.contains_key(k) ==> exists|j: int|
            0 <= j < entries.len() && (#[trigger] entries[j]).spur.raw == k
}

/// The entries of a table for the fields of `data`.
pub fn table_entries<'a, L>(
    data: &[u8],
    fields: &HashMap<u32, (usize, LuauFieldType)>,
    pool: &'a EngineStringPool<L>,
    order: ByteOrder,
) -> (entries: Vec<TableEntry<'a, L>>)
    requires
        fields_fit(fields@, data@.len() as int),
        handles_known(data@, fields@, pool.bridge@, order),
    ensures
        table_of(entries@, data@, fields@, pool.bridge@, order),
{
    let mut entries: Vec<TableEntry<'a, L>> = Vec::new();
    for (k, field) in it: fields.iter()
        invariant
            fields_fit(fields@, data@.len() as int),
            handles_known(data@, fields@, pool.bridge@, order),
            lists_map(it.seq(), fields@),
            entries@.len() == it.index(),
            forall|k: u32| #[trigger]
                fields@.contains_key(k) ==> (exists|j: int|
                    0 <= j < entries@.len() && (#[trigger] entries@[j]).spur.raw == k) || (exists|
                    j: int,
                |
                    it.index() <= j < it.seq().len() && *(#[trigger] it.seq()[j]).0 == k),
            forall|j: int|
                #![trigger entries@[j]]
                0 <= j < entries@.len() ==> {
                    let k = entries@[j].spur.raw;
                    &&& k == *it.seq()[j].0
                    &&& fields@.contains_key(k)
                    &&& *entries@[j].key == pool.bridge@[k]
                    &&& entries@[j].value@ == with_handle(
                        decoded(field_bytes(data@, fields@, k), fields@[k].1, order),
                        pool.bridge@,
                    )
                },
    {
        let (offset, ft) = *field;
        assert(fields@.contains_key(*k));
        let spur = StrKey { raw: *k };
        let key = pool.get_lua_str(spur);
        let value = match read_field(data, offset, ft, order) {
            FieldValue::Bool(b) => FieldValue::Bool(b),
            FieldValue::Integer(i) => FieldValue::Integer(i),
            FieldValue::Number(n) => FieldValue::Number(n),
            FieldValue::Vector4(x, y, z, w) => FieldValue::Vector4(x, y, z, w),
            FieldValue::String(s) => FieldValue::String(pool.get_lua_str(s)),
            FieldValue::Buffer(b) => FieldValue::Buffer(b),
        };
        let ghost before = entries@;
        entries.push(TableEntry { spur, key, value });
        proof {
            assert forall|j: u32| #[trigger] fields@.contains_key(j) implies (exists|i: int|
                0 <= i < entries@.len() && (#[trigger] entries@[i]).spur.raw == j) || (exists|
                i: int,
            |
                it.index() < i < it.seq().len() && *(#[trigger] it.seq()[i]).0 == j) by {
                if j == *k {
                    assert(entries@[before.len() as int].spur.raw == j);
                } else if exists|i: int|
                    0 <= i < before.len() && (#[trigger] before[i]).spur.raw == j {
                    let i = choose|i: int|
                        0 <= i < before.len() && (#[trigger] before[i]).spur.raw == j;
                    assert(entries@[i].spur.raw == j);
                }
            }
        }
    }
    entries
}

/// Whether each handle that a table needs for `data` is known. A table can be made only then.
pub fn can_extract<L>(
    data: &[u8],
    component_id: ComponentId,
    registry: &SchemaRegistry,
    pool: &EngineStringPool<L>,
) -> (known: bool)
    requires
        registry.wf(),
        registry.id_to_schema@.contains_key(component_id),
        data.len() >= registry.id_to_schema@[component_id].layout.size,
    ensures
        known == handles_known(
            data@,
            registry.id_to_schema@[component_id].fields@,
            pool.bridge@,
            registry.order,
        ),
{
    let schema = registry.id_to_schema.get(&component_id).unwrap();
    let ghost fields = schema.fields@;
    let ghost mut checked: Set<u32> = Set::empty();
    for (k, field) in it: schema.fields.iter()
        invariant
            fields == schema.fields@,
            fields == registry.id_to_schema@[component_id].fields@,
            fields_fit(fields, data@.len() as int),
            lists_map(it.seq(), fields),
            forall|j: u32| #[trigger]
                fields.contains_key(j) ==> checked.contains(j) || (exists|i: int|
                    it.index() <= i < it.seq().len() && *(#[trigger] it.seq()[i]).0 == j),
            forall|j: u32| #[trigger]
                checked.contains(j) ==> pool.bridge@.contains_key(j) && (decoded(
                    field_bytes(data@, fields, j),
                    fields[j].1,
                    registry.order,
                ) matches FieldData::String(s) ==> pool.bridge@.contains_key(s.raw)),
    {
        let (offset, ft) = *field;
        assert(fields.contains_key(*k));
        if !pool.bridge.contains_key(k) {
            return false;
        }
        if let FieldValue::String(s) = read_field(data, offset, ft, registry.order) {
            if !pool.bridge.contains_key(&s.raw) {
                return false;
            }
        }
        proof {
            checked = checked.insert(*k);
        }
    }
    true
}

/// A component made from a table gives each field's value back: the value itself where it is of
/// the field's kind, and zero where it is not.
pub proof fn law_component_round_trip(
    data: Seq<u8>,
    fields: FieldMap,
    values: Map<u32, LuaValue>,
    strings: Seq<Seq<char>>,
    k: u32,
    order: ByteOrder,
)
    requires
        holds_values(data, fields, values, strings, order),
        fields.contains_key(k),
    ensures
        decoded(field_bytes(data, fields, k), fields[k].1, order) == kept_data(
            values[k],
            fields[k].1,
            strings,
        ),
{
    law_field_round_trip(values[k], fields[k].1, strings, order);
}

/// The table made from a component that was made from a table holds each value that was of its
/// field's kind, and zeros for the others.
pub proof fn law_table_round_trip<L>(
    data: Seq<u8>,
    fields: FieldMap,
    values: Map<u32, LuaValue>,
    strings: Seq<Seq<char>>,
    bridge: Map<u32, L>,
    entries: Seq<TableEntry<'_, L>>,
    order: ByteOrder,
)
    requires
        holds_values(data, fields, values, strings, order),
        table_of(entries, data, fields, bridge, order),
    ensures
        forall|k: u32| #[trigger]
            fields.contains_key(k) ==> exists|j: int|
                0 <= j < entries.len() && (#[trigger] entries[j]).spur.raw == k && *entries[j].key
                    == bridge[k] && entries[j].value@ == with_handle(
                    kept_data(values[k], fields[k].1, strings),
                    bridge,
                ),
{
    assert forall|k: u32| #[trigger] fields.contains_key(k) implies exists|j: int|
        0 <= j < entries.len() && (#[trigger] entries[j]).spur.raw == k && *entries[j].key
            == bridge[k] && entries[j].value@ == with_handle(
            kept_data(values[k], fields[k].1, strings),
            bridge,
        ) by {
        law_component_round_trip(data, fields, values, strings, k, order);
        let j = choose|j: int| 0 <= j < entries.len() && (#[trigger] entries[j]).spur.raw == k;
        assert(entries[j].spur.raw == k);
    }
}

/// A table can be made from a component that was made from a table with a string for each string
/// field, and each such field's handle reads as the string that was stored.
pub proof fn law_strings_come_back<L>(
    data: Seq<u8>,
    fields: FieldMap,
    values: Map<u32, LuaValue>,
    pool: EngineStringPool<L>,
    text: spec_fn(L) -> Seq<char>,
    order: ByteOrder,
)
    requires
        pool.wf(),
        pool.reads_as(text),
        holds_values(data, fields, values, pool.strings(), order),
        strings_have_handles(fields, values, pool),
        forall|k: u32| #[trigger]
            fields.contains_key(k) ==> pool.bridge@.contains_key(k) && (fields[k].1 is String
                ==> values[k] is String),
    ensures
        handles_known(data, fields, pool.bridge@, order),
        forall|k: u32| #[trigger]
            fields.contains_key(k) && fields[k].1 is String ==> (with_handle(
                decoded(field_bytes(data, fields, k), fields[k].1, order),
                pool.bridge@,
            ) matches FieldData::String(handle) && text_of(values[k], fields[k].1) == Some(
                text(*handle),
            )),
{
    assert forall|k: u32| #[trigger] fields.contains_key(k) && fields[k].1 is String implies (
    decoded(field_bytes(data, fields, k), fields[k].1, order) matches FieldData::String(s)
        && pool.bridge@.contains_key(s.raw) && text_of(values[k], fields[k].1) == Some(
        text(pool.bridge@[s.raw]),
    )) by {
        law_component_round_trip(data, fields, values, pool.strings(), k, order);
        let t = text_of(values[k], fields[k].1)->0;
        lemma_key_of(pool.strings(), t);
    }
}

/// A component of zeros reads as false, zero, zero vectors and zero bytes, and its string fields
/// as key zero, which no string has.
pub proof fn law_default_component(data: Seq<u8>, fields: FieldMap, k: u32, order: ByteOrder)
    requires
        data == Seq::new(data.len(), |i: int| 0u8),
        fields_fit(fields, data.len() as int),
        fields.contains_key(k),
    ensures
        decoded(field_bytes(data, fields, k), fields[k].1, order) == zero_data(fields[k].1),
        fields[k].1 is String ==> forall|strings: Seq<Seq<char>>, s: Seq<char>|
            strings.contains(s) && strings.len() <= u32::MAX ==> zero_data(fields[k].1)
                != FieldData::String(StrKey { raw: #[trigger] key_of(strings, s) }),
{
    assert forall|strings: Seq<Seq<char>>, s: Seq<char>|
        strings.contains(s) && strings.len() <= u32::MAX implies #[trigger] key_of(strings, s)
        >= 1 by {
        lemma_key_of(strings, s);
    }
    lemma_zeros_decode(fields[k].1, order);
    assert(field_bytes(data, fields, k) =~= Seq::new(fields[k].1.spec_size(), |i: int| 0u8));
}

/// Bytes that agree in all fields, and are zero outside them, agree.
proof fn lemma_same_fields_same_bytes(a: Seq<u8>, b: Seq<u8>, fields: FieldMap)
    requires
        a.len() == b.len(),
        fields_fit(fields, a.len() as int),
        forall|k: u32| #[trigger]
            fields.contains_key(k) ==> field_bytes(a, fields, k) == field_bytes(b, fields, k),
        forall|p: int|
            0 <= p < a.len() && (forall|k: u32| !in_field(fields, k, p)) ==> #[trigger] a[p] == 0,
        forall|p: int|
            0 <= p < b.len() && (forall|k: u32| !in_field(fields, k, p)) ==> #[trigger] b[p] == 0,
    ensures
        a == b,
{
    assert forall|p: int| 0 <= p < a.len() implies a[p] == b[p] by {
        if exists|k: u32| in_field(fields, k, p) {
            let k = choose|k: u32| in_field(fields, k, p);
            let i = p - fields[k].0;
            assert(field_bytes(a, fields, k)[i] == a[p]);
            assert(field_bytes(b, fields, k)[i] == b[p]);
        }
    }
    assert(a =~= b);
}

/// The values of the fields determine the bytes of a component: tables that agree on the fields
/// make the same component, where their strings have the same keys.
pub proof fn law_values_determine_bytes(
    a: Seq<u8>,
    b: Seq<u8>,
    fields: FieldMap,
    values_a: Map<u32, LuaValue>,
    values_b: Map<u32, LuaValue>,
    strings_a: Seq<Seq<char>>,
    strings_b: Seq<Seq<char>>,
    order: ByteOrder,
)
    requires
        a.len() == b.len(),
        fields_fit(fields, a.len() as int),
        holds_values(a, fields, values_a, strings_a, order),
        holds_values(b, fields, values_b, strings_b, order),
        forall|k: u32| #[trigger] fields.contains_key(k) ==> values_a[k] == values_b[k],
        forall|k: u32| #[trigger]
            fields.contains_key(k) ==> (text_of(values_a[k], fields[k].1) matches Some(t) ==> key_of(
                strings_a,
                t,
            ) == key_of(strings_b, t)),
    ensures
        a == b,
{
    assert forall|k: u32| #[trigger] fields.contains_key(k) implies field_bytes(a, fields, k)
        == field_bytes(b, fields, k) by {
        assert(stored_bytes(values_a[k], fields[k].1, strings_a, order) == stored_bytes(
            values_b[k],
            fields[k].1,
            strings_b,
            order,
        ));
    }
    lemma_same_fields_same_bytes(a, b, fields);
}

/// Two tables that agree on the fields, and whose strings were interned before, make the same
/// component.
pub proof fn law_known_strings_same_bytes(
    a: Seq<u8>,
    b: Seq<u8>,
    fields: FieldMap,
    values_a: Map<u32, LuaValue>,
    values_b: Map<u32, LuaValue>,
    before: Seq<Seq<char>>,
    strings_a: Seq<Seq<char>>,
    strings_b: Seq<Seq<char>>,
    order: ByteOrder,
)
    requires
        a.len() == b.len(),
        fields_fit(fields, a.len() as int),
        holds_values(a, fields, values_a, strings_a, order),
        holds_values(b, fields, values_b, strings_b, order),
        forall|k: u32| #[trigger] fields.contains_key(k) ==> values_a[k] == values_b[k],
        before.is_prefix_of(strings_a) && strings_a.no_duplicates(),
        before.is_prefix_of(strings_b) && strings_b.no_duplicates(),
        forall|k: u32| #[trigger]
            fields.contains_key(k) ==> (text_of(values_a[k], fields[k].1) matches Some(t)
                ==> before.contains(t)),
    ensures
        a == b,
{
    assert forall|k: u32| #[trigger] fields.contains_key(k) implies (text_of(
        values_a[k],
        fields[k].1,
    ) matches Some(t) ==> key_of(strings_a, t) == key_of(strings_b, t)) by {
        if let Some(t) = text_of(values_a[k], fields[k].1) {
            lemma_key_stable(before, strings_a, t);
            lemma_key_stable(before, strings_b, t);
        }
    }
    law_values_determine_bytes(
        a,
        b,
        fields,
        values_a,
        values_b,
        strings_a,
        strings_b,
        order,
    );
}

/// A table that has no value of its kind for any field, such as an empty one, makes the default
/// component.
pub proof fn law_empty_table_is_default(
    data: Seq<u8>,
    fields: FieldMap,
    values: Map<u32, LuaValue>,
    strings: Seq<Seq<char>>,
    order: ByteOrder,
)
    requires
        fields_fit(fields, data.len() as int),
        holds_values(data, fields, values, strings, order),
        forall|k: u32| #[trigger] fields.contains_key(k) ==> !of_kind(values[k], fields[k].1),
    ensures
        data == Seq::new(data.len(), |i: int| 0u8),
{
    let zeros = Seq::new(data.len(), |i: int| 0u8);
    assert forall|k: u32| #[trigger] fields.contains_key(k) implies field_bytes(data, fields, k)
        == field_bytes(zeros, fields, k) by {
        assert(stored_bytes(values[k], fields[k].1, strings, order).len() == 0);
        assert(field_bytes(data, fields, k) =~= field_bytes(zeros, fields, k));
    }
    lemma_same_fields_same_bytes(data, zeros, fields);
}

/// A component whose table was read and is written back unedited reads as before.
pub proof fn law_unedited_component_reads_as_before(
    before: Seq<u8>,
    after: Seq<u8>,
    fields: FieldMap,
    values: Map<u32, LuaValue>,
    strings: Seq<Seq<char>>,
    k: u32,
    order: ByteOrder,
)
    requires
        strings.no_duplicates(),
        strings.len() <= u32::MAX,
        fields_fit(fields, before.len() as int),
        holds_values(after, fields, values, strings, order),
        fields.contains_key(k),
        says(values[k], decoded(field_bytes(before, fields, k), fields[k].1, order), strings),
    ensures
        decoded(field_bytes(after, fields, k), fields[k].1, order) == decoded(
            field_bytes(before, fields, k),
            fields[k].1,
            order,
        ),
{
    law_component_round_trip(after, fields, values, strings, k, order);
    law_saying_the_same(
        values[k],
        field_bytes(before, fields, k),
        fields[k].1,
        strings,
        order,
    );
}

/// A component that was made from a table, then read, and is written back unedited stays as it is,
/// byte for byte.
pub proof fn law_unedited_component_stays(
    before: Seq<u8>,
    after: Seq<u8>,
    fields: FieldMap,
    values_before: Map<u32, LuaValue>,
    values: Map<u32, LuaValue>,
    strings_before: Seq<Seq<char>>,
    strings: Seq<Seq<char>>,
    order: ByteOrder,
)
    requires
        strings.no_duplicates(),
        strings.len() <= u32::MAX,
        after.len() == before.len(),
        fields_fit(fields, before.len() as int),
        holds_values(before, fields, values_before, strings_before, order),
        holds_values(after, fields, values, strings, order),
        forall|k: u32| #[trigger]
            fields.contains_key(k) ==> says(
                values[k],
                decoded(field_bytes(before, fields, k), fields[k].1, order),
                strings,
            ),
    ensures
        after == before,
{
    assert forall|k: u32| #[trigger] fields.contains_key(k) implies field_bytes(after, fields, k)
        == field_bytes(before, fields, k) by {
        law_unedited_component_reads_as_before(before, after, fields, values, strings, k, order);
        lemma_same_data_same_bytes(
            field_bytes(after, fields, k),
            field_bytes(before, fields, k),
            fields[k].1,
            order,
        );
    }
    lemma_same_fields_same_bytes(after, before, fields);
}

/// Whether a value in a table is the value that was read, where `text` is what a handle reads as.
pub open spec fn shows<L>(
    data: FieldData<&L>,
    value: LuaValue,
    text: spec_fn(L) -> Seq<char>,
) -> bool {
    match data {
        FieldData::Bool(b) => value == LuaValue::Boolean(b),
        FieldData::Integer(i) => value == LuaValue::Integer(i),
        FieldData::Number(n) => value == LuaValue::Number(n),
        FieldData::Vector4(x, y, z, w) => value == LuaValue::Vector(x, y, z, w),
        FieldData::String(handle) => value matches LuaValue::String(bytes) && decode_utf8(bytes@)
            == text(*handle),
        FieldData::Buffer(bytes) => value matches LuaValue::Buffer(b) && b@ == bytes,
    }
}

/// A table with a value of its kind for each field, buffers being as long as their fields, comes
/// back: the table made from the component has the same value for each field, and nothing else.
pub proof fn law_table_comes_back<L>(
    data: Seq<u8>,
    fields: FieldMap,
    values: Map<u32, LuaValue>,
    pool: EngineStringPool<L>,
    text: spec_fn(L) -> Seq<char>,
    entries: Seq<TableEntry<'_, L>>,
    order: ByteOrder,
)
    requires
        pool.wf(),
        pool.reads_as(text),
        holds_values(data, fields, values, pool.strings(), order),
        strings_have_handles(fields, values, pool),
        forall|k: u32| #[trigger]
            fields.contains_key(k) ==> of_kind(values[k], fields[k].1) && (values[k] matches
                LuaValue::Buffer(b) ==> b@.len() == fields[k].1.spec_size()),
        table_of(entries, data, fields, pool.bridge@, order),
    ensures
        entries.len() == fields.dom().len(),
        forall|j: int|
            0 <= j < entries.len() ==> {
                let k = (#[trigger] entries[j]).spur.raw;
                &&& fields.contains_key(k)
                &&& *entries[j].key == pool.bridge@[k]
                &&& shows(entries[j].value@, values[k], text)
            },
        forall|k: u32| #[trigger]
            fields.contains_key(k) ==> exists|j: int|
                0 <= j < entries.len() && (#[trigger] entries[j]).spur.raw == k,
{
    assert forall|j: int| 0 <= j < entries.len() implies shows(
        (#[trigger] entries[j]).value@,
        values[entries[j].spur.raw],
        text,
    ) by {
        let k = entries[j].spur.raw;
        assert(fields.contains_key(k));
        law_component_round_trip(data, fields, values, pool.strings(), k, order);
        if let Some(t) = text_of(values[k], fields[k].1) {
            assert(has_handle(values[k], fields[k].1, pool));
            lemma_key_of(pool.strings(), t);
        }
        if let LuaValue::Buffer(b) = values[k] {
            assert(padded(b@, fields[k].1.spec_size()) =~= b@);
        }
    }
}

/// The bytes of a component that was made from a table: a field holds the value that the table has
/// under its name, where that is of its kind, and zeros where it is not; a buffer is cut off or
/// followed by zeros; a string is valid UTF-8, and its key is held; and bytes between fields are
/// zero.
pub proof fn law_components_hold_what_was_read(
    data: Seq<u8>,
    fields: FieldMap,
    values: Map<u32, LuaValue>,
    strings: Seq<Seq<char>>,
    k: u32,
    order: ByteOrder,
)
    requires
        holds_values(data, fields, values, strings, order),
        fields_fit(fields, data.len() as int),
        fields.contains_key(k),
    ensures
        ({
            let at = fields[k].0 as int;
            let value = values[k];
            match fields[k].1 {
                LuauFieldType::Bool => data[at] == if value == LuaValue::Boolean(true) {
                    1u8
                } else {
                    0u8
                },
                LuauFieldType::Integer => data.subrange(at, at + 8) == (match value {
                    LuaValue::Integer(i) => bytes64(i as u64, order),
                    _ => Seq::new(8, |i: int| 0u8),
                }),
                LuauFieldType::Number => data.subrange(at, at + 8) == (match value {
                    LuaValue::Number(n) => bytes64(n, order),
                    _ => Seq::new(8, |i: int| 0u8),
                }),
                LuauFieldType::Vector4 => match value {
                    LuaValue::Vector(x, y, z, w) => {
                        &&& data.subrange(at, at + 4) == bytes32(x, order)
                        &&& data.subrange(at + 4, at + 8) == bytes32(y, order)
                        &&& data.subrange(at + 8, at + 12) == bytes32(z, order)
                        &&& data.subrange(at + 12, at + 16) == bytes32(w, order)
                    },
                    _ => data.subrange(at, at + 16) == Seq::new(16, |i: int| 0u8),
                },
                LuauFieldType::String => match value {
                    LuaValue::String(s) => {
                        &&& valid_utf8(s@)
                        &&& strings.contains(decode_utf8(s@))
                        &&& data.subrange(at, at + 4) == bytes32(
                            key_of(strings, decode_utf8(s@)),
                            order,
                        )
                    },
                    _ => data.subrange(at, at + 4) == Seq::new(4, |i: int| 0u8),
                },
                LuauFieldType::Buffer(len) => forall|i: int|
                    0 <= i < len ==> #[trigger] data.subrange(at, at + len)[i] == (match value {
                        LuaValue::Buffer(b) => if i < b@.len() {
                            b@[i]
                        } else {
                            0u8
                        },
                        _ => 0u8,
                    }),
            }
        }),
        forall|p: int|
            0 <= p < data.len() && (forall|j: u32| #[trigger]
                fields.contains_key(j) ==> p < fields[j].0 || p >= fields[j].0
                    + fields[j].1.spec_size()) ==> #[trigger] data[p] == 0,
{
    let at = fields[k].0 as int;
    let ft = fields[k].1;
    let size = ft.spec_size();
    let stored = stored_bytes(values[k], ft, strings, order);
    law_what_values_store(values[k], ft, strings, order);
    law_field_round_trip(values[k], ft, strings, order);
    let bytes = field_bytes(data, fields, k);
    assert(bytes == padded(stored, size));
    assert(storable(values[k], ft));
    assert(bytes == data.subrange(at, at + size));
    match ft {
        LuauFieldType::Bool => {
            assert(bytes[0] == data[at]);
        },
        LuauFieldType::Vector4 => {
            assert(bytes.subrange(0, 4) =~= data.subrange(at, at + 4));
            assert(bytes.subrange(4, 8) =~= data.subrange(at + 4, at + 8));
            assert(bytes.subrange(8, 12) =~= data.subrange(at + 8, at + 12));
            assert(bytes.subrange(12, 16) =~= data.subrange(at + 12, at + 16));
            if values[k] is Vector {
                assert(bytes =~= stored);
            } else {
                assert(bytes =~= Seq::new(16, |i: int| 0u8));
            }
        },
        LuauFieldType::Buffer(_) => {},
        _ => {
            if stored.len() == 0 {
                assert(bytes =~= Seq::new(size, |i: int| 0u8));
            } else {
                assert(bytes =~= stored);
            }
        },
    }
    assert forall|p: int|
        0 <= p < data.len() && (forall|j: u32| #[trigger]
            fields.contains_key(j) ==> p < fields[j].0 || p >= fields[j].0
                + fields[j].1.spec_size()) implies #[trigger] data[p] == 0 by {
        assert forall|j: u32| !in_field(fields, j, p) by {
            if fields.contains_key(j) {
            }
        }
    }
}

/// The table made from a component names each field once, by the handle of its name, and nothing
/// else; and the value under a name is what the bytes of the field say.
pub proof fn law_tables_show_what_bytes_say<L>(
    entries: Seq<TableEntry<'_, L>>,
    data: Seq<u8>,
    fields: FieldMap,
    bridge: Map<u32, L>,
    order: ByteOrder,
)
    requires
        fields.dom().finite(),
        fields_fit(fields, data.len() as int),
        handles_known(data, fields, bridge, order),
        table_of(entries, data, fields, bridge, order),
    ensures
        forall|k: u32| #[trigger]
            fields.contains_key(k) <==> exists|j: int|
                0 <= j < entries.len() && (#[trigger] entries[j]).spur.raw == k,
        forall|i: int, j: int|
            0 <= i < j < entries.len() ==> (#[trigger] entries[i]).spur.raw != (
            #[trigger] entries[j]).spur.raw,
        forall|j: int|
            0 <= j < entries.len() ==> *(#[trigger] entries[j]).key == bridge[entries[j].spur.raw],
        forall|j: int|
            0 <= j < entries.len() ==> {
                let k = (#[trigger] entries[j]).spur.raw;
                let at = fields[k].0 as int;
                match fields[k].1 {
                    LuauFieldType::Bool => entries[j].value@ matches FieldData::Bool(b) && b == (
                    data[at] != 0),
                    LuauFieldType::Integer => entries[j].value@ matches FieldData::Integer(i)
                        && bytes64(i as u64, order) == data.subrange(at, at + 8),
                    LuauFieldType::Number => entries[j].value@ matches FieldData::Number(n)
                        && bytes64(n, order) == data.subrange(at, at + 8),
                    LuauFieldType::Vector4 => entries[j].value@ matches FieldData::Vector4(
                        x,
                        y,
                        z,
                        w,
                    ) && bytes32(x, order) == data.subrange(at, at + 4) && bytes32(y, order)
                        == data.subrange(at + 4, at + 8) && bytes32(z, order) == data.subrange(
                        at + 8,
                        at + 12,
                    ) && bytes32(w, order) == data.subrange(at + 12, at + 16),
                    LuauFieldType::String => entries[j].value@ matches FieldData::String(handle)
                        && exists|raw: u32| #[trigger]
                        bytes32(raw, order) == data.subrange(at, at + 4) && bridge.contains_key(raw)
                            && *handle == bridge[raw],
                    LuauFieldType::Buffer(len) => entries[j].value@ matches FieldData::Buffer(bytes)
                        && bytes == data.subrange(at, at + len),
                }
            },
{
    let keys = entries.map_values(|e: TableEntry<'_, L>| e.spur.raw);
    assert(keys.to_set() =~= fields.dom()) by {
        assert forall|k: u32| fields.dom().contains(k) implies keys.to_set().contains(k) by {
            assert(fields.contains_key(k));
            let j = choose|j: int| 0 <= j < entries.len() && (#[trigger] entries[j]).spur.raw == k;
            assert(keys[j] == k);
        }
        assert forall|k: u32| keys.to_set().contains(k) implies fields.dom().contains(k) by {
            let j = choose|j: int| 0 <= j < keys.len() && keys[j] == k;
            assert(fields.contains_key(entries[j].spur.raw));
        }
    }
    keys.lemma_no_dup_set_cardinality();
    assert forall|i: int, j: int| 0 <= i < j < entries.len() implies (
    #[trigger] entries[i]).spur.raw != (#[trigger] entries[j]).spur.raw by {
        assert(keys[i] == entries[i].spur.raw && keys[j] == entries[j].spur.raw);
    }
    assert forall|j: int| 0 <= j < entries.len() implies {
        let k = (#[trigger] entries[j]).spur.raw;
        let at = fields[k].0 as int;
        match fields[k].1 {
            LuauFieldType::Bool => entries[j].value@ matches FieldData::Bool(b) && b == (data[at]
                != 0),
            LuauFieldType::Integer => entries[j].value@ matches FieldData::Integer(i) && bytes64(
                i as u64,
                order,
            ) == data.subrange(at, at + 8),
            LuauFieldType::Number => entries[j].value@ matches FieldData::Number(n) && bytes64(
                n,
                order,
            ) == data.subrange(at, at + 8),
            LuauFieldType::Vector4 => entries[j].value@ matches FieldData::Vector4(x, y, z, w)
                && bytes32(x, order) == data.subrange(at, at + 4) && bytes32(y, order)
                == data.subrange(at + 4, at + 8) && bytes32(z, order) == data.subrange(
                at + 8,
                at + 12,
            ) && bytes32(w, order) == data.subrange(at + 12, at + 16),
            LuauFieldType::String => entries[j].value@ matches FieldData::String(handle)
                && exists|raw: u32| #[trigger]
                bytes32(raw, order) == data.subrange(at, at + 4) && bridge.contains_key(raw)
                    && *handle == bridge[raw],
            LuauFieldType::Buffer(len) => entries[j].value@ matches FieldData::Buffer(bytes)
                && bytes == data.subrange(at, at + len),
        }
    } by {
        let k = entries[j].spur.raw;
        let at = fields[k].0 as int;
        let bytes = field_bytes(data, fields, k);
        assert(fields.contains_key(k));
        assert(bytes =~= data.subrange(at, at + fields[k].1.spec_size()));
        law_what_bytes_say(bytes, fields[k].1, order);
        if fields[k].1 is Vector4 {
            assert(bytes.subrange(0, 4) =~= data.subrange(at, at + 4));
            assert(bytes.subrange(4, 8) =~= data.subrange(at + 4, at + 8));
            assert(bytes.subrange(8, 12) =~= data.subrange(at + 8, at + 12));
            assert(bytes.subrange(12, 16) =~= data.subrange(at + 12, at + 16));
        }
        if fields[k].1 is Bool {
            assert(bytes[0] == data[at]);
        }
    }
}

/// A table can be made where each field's name has a handle, and so does the string whose key each
/// string field holds; and only there.
pub proof fn law_what_tables_need<L>(
    data: Seq<u8>,
    fields: FieldMap,
    bridge: Map<u32, L>,
    order: ByteOrder,
)
    requires
        fields_fit(fields, data.len() as int),
    ensures
        handles_known(data, fields, bridge, order) <==> (forall|k: u32| #[trigger]
            fields.contains_key(k) ==> bridge.contains_key(k) && (fields[k].1 is String
                ==> exists|raw: u32|
                bridge.contains_key(raw) && #[trigger] bytes32(raw, order) == data.subrange(
                    fields[k].0 as int,
                    fields[k].0 + 4,
                ))),
{
    let known = handles_known(data, fields, bridge, order);
    if known {
        assert forall|k: u32| #[trigger] fields.contains_key(k) && fields[k].1 is String implies (
        exists|raw: u32|
            bridge.contains_key(raw) && #[trigger] bytes32(raw, order) == data.subrange(
                fields[k].0 as int,
                fields[k].0 + 4,
            )) by {
            let bytes = field_bytes(data, fields, k);
            law_what_bytes_say(bytes, fields[k].1, order);
            let key = decoded(bytes, fields[k].1, order)->String_0;
            assert(bridge.contains_key(key.raw) && bytes32(key.raw, order) == bytes);
        }
    }
    if forall|k: u32| #[trigger]
        fields.contains_key(k) ==> bridge.contains_key(k) && (fields[k].1 is String ==> exists|
            raw: u32,
        |
            bridge.contains_key(raw) && #[trigger] bytes32(raw, order) == data.subrange(
                fields[k].0 as int,
                fields[k].0 + 4,
            )) {
        assert forall|k: u32| #[trigger] fields.contains_key(k) implies bridge.contains_key(k) && (
        decoded(field_bytes(data, fields, k), fields[k].1, order) matches FieldData::String(key)
            ==> bridge.contains_key(key.raw)) by {
            let bytes = field_bytes(data, fields, k);
            if fields[k].1 is String {
                law_what_bytes_say(bytes, fields[k].1, order);
                let raw = choose|raw: u32|
                    bridge.contains_key(raw) && #[trigger] bytes32(raw, order) == data.subrange(
                        fields[k].0 as int,
                        fields[k].0 + 4,
                    );
                law_bytes32_inverse(raw, bytes, order);
                law_bytes32_inverse(number32(bytes, order), bytes, order);
            }
        }
        assert(known);
    }
}

/// A value that was read was given by the table for the handle of a field's name; so was the error
/// where reading failed; and where a string was not UTF-8, it was given for a string field.
pub proof fn law_what_comes_from_a_table<L, E, G: Fn(&L) -> Result<LuaValue, E>>(
    table: G,
    bridge: Map<u32, L>,
    fields: FieldMap,
    values: Map<u32, LuaValue>,
    e: E,
    s: Seq<char>,
)
    ensures
        read_from(table, bridge, fields, values) ==> forall|k: u32| #[trigger]
            fields.contains_key(k) ==> table.ensures((&bridge[k],), Ok(values[k])),
        can_fail(table, bridge, fields, e) <==> exists|k: u32| #[trigger]
            fields.contains_key(k) && table.ensures((&bridge[k],), Err(e)),
        can_read_non_utf8(table, bridge, fields) <==> exists|k: u32, b: Vec<u8>|
            fields.contains_key(k) && fields[k].1 is String && #[trigger] table.ensures(
                (&bridge[k],),
                Ok(LuaValue::String(b)),
            ) && !valid_utf8(b@),
        table_text(table, bridge, fields, s) <==> exists|k: u32, b: Vec<u8>|
            fields.contains_key(k) && fields[k].1 is String && #[trigger] table.ensures(
                (&bridge[k],),
                Ok(LuaValue::String(b)),
            ) && valid_utf8(b@) && decode_utf8(b@) == s,
{
    if can_read_non_utf8(table, bridge, fields) {
        let (k, v) = choose|k: u32, v: LuaValue|
            fields.contains_key(k) && #[trigger] table.ensures((&bridge[k],), Ok(v)) && !storable(
                v,
                fields[k].1,
            );
        assert(table.ensures((&bridge[k],), Ok(LuaValue::String(v->String_0))));
    }
    if table_text(table, bridge, fields, s) {
        let (k, v) = choose|k: u32, v: LuaValue|
            fields.contains_key(k) && #[trigger] table.ensures((&bridge[k],), Ok(v)) && text_of(
                v,
                fields[k].1,
            ) == Some(s) && storable(v, fields[k].1);
        assert(table.ensures((&bridge[k],), Ok(LuaValue::String(v->String_0))));
    }
}

/// There are keys for the texts of a table where there is one for each field.
pub proof fn law_room_for_each_field_is_enough<L, E, G: Fn(&L) -> Result<LuaValue, E>>(
    table: G,
    bridge: Map<u32, L>,
    fields: FieldMap,
    strings: Seq<Seq<char>>,
)
    requires
        strings.len() + fields.dom().len() <= u32::MAX,
    ensures
        room_for_texts(table, bridge, fields, strings),
{
}

/// A string that was stored is read back: the table made from a component has, for a string field
/// whose value was a string, a handle that reads as the text of that string.
pub proof fn law_strings_are_read_back<L>(
    data: Seq<u8>,
    fields: FieldMap,
    values: Map<u32, LuaValue>,
    pool: EngineStringPool<L>,
    text: spec_fn(L) -> Seq<char>,
    entries: Seq<TableEntry<'_, L>>,
    j: int,
    order: ByteOrder,
)
    requires
        pool.wf(),
        pool.reads_as(text),
        holds_values(data, fields, values, pool.strings(), order),
        strings_have_handles(fields, values, pool),
        table_of(entries, data, fields, pool.bridge@, order),
        0 <= j < entries.len(),
        fields[entries[j].spur.raw].1 is String,
    ensures
        values[entries[j].spur.raw] matches LuaValue::String(s) ==> (entries[j].value@ matches
            FieldData::String(handle) && text(*handle) == decode_utf8(s@)),
{
    let k = entries[j].spur.raw;
    assert(fields.contains_key(k));
    if let LuaValue::String(s) = values[k] {
        law_component_round_trip(data, fields, values, pool.strings(), k, order);
        assert(has_handle(values[k], fields[k].1, pool));
        lemma_key_of(pool.strings(), decode_utf8(s@));
    }
}

/// A component that was made from a table gives, as a table, what the first table held: each field
/// once, under the handle of its name, with the value that the first table gave under that name
/// where it was of the field's kind, and with zero otherwise; a buffer is cut off or followed by
/// zeros; a string reads as the same text.
pub proof fn law_tables_come_back_from_components<
    'a,
    L,
    E,
    G: Fn(&L) -> Result<LuaValue, E>,
    F: Fn(&str) -> L + Copy,
>(
    component_id: ComponentId,
    registry: SchemaRegistry,
    pool: &mut EngineStringPool<L>,
    table: G,
    make: F,
    data: Vec<u8>,
    after: &'a EngineStringPool<L>,
    component: &[u8],
    entries: Option<Vec<TableEntry<'a, L>>>,
    text: spec_fn(L) -> Seq<char>,
)
    requires
        registry.wf(),
        registry.id_to_schema@.contains_key(component_id),
        call_ensures(
            DynamicComponentBridge::insert_from_table::<L, E, G, F>,
            (component_id, &registry, pool, table, make),
            Ok::<Vec<u8>, TableError<E>>(data),
        ),
        *after == *final(pool),
        after.reads_as(text),
        component@ == data@,
        call_ensures(
            DynamicComponentBridge::extract_to_table::<L>,
            (Some(component), component_id, &registry, after),
            entries,
        ),
    ensures
        data@.len() == registry.id_to_schema@[component_id].layout.size,
        entries is Some,
        ({
            let fields = registry.id_to_schema@[component_id].fields@;
            let list = entries->0@;
            &&& list.len() == fields.dom().len()
            &&& forall|k: u32| #[trigger]
                fields.contains_key(k) ==> exists|j: int|
                    0 <= j < list.len() && (#[trigger] list[j]).spur.raw == k
            &&& exists|values: Map<u32, LuaValue>| #[trigger]
                read_from(table, old(pool).bridge@, fields, values) && (forall|k: u32| #[trigger]
                    fields.contains_key(k) ==> table.ensures(
                        (&old(pool).bridge@[k],),
                        Ok(values[k]),
                    )) && forall|j: int|
                    0 <= j < list.len() ==> {
                        let k = (#[trigger] list[j]).spur.raw;
                        &&& fields.contains_key(k)
                        &&& *list[j].key == after.bridge@[k]
                        &&& gives_value(list[j].value@, values[k], fields[k].1, text)
                    }
        }),
{
    let fields = registry.id_to_schema@[component_id].fields@;
    let list = entries->0@;
    let strings = after.strings();
    let order = registry.order;
    let values = choose|values: Map<u32, LuaValue>| #[trigger]
        read_from(table, old(pool).bridge@, fields, values) && holds_values(
            data@,
            fields,
            values,
            strings,
            order,
        ) && strings_have_handles(fields, values, *after);
    assert(read_from(table, old(pool).bridge@, fields, values));
    assert(table_of(list, data@, fields, after.bridge@, order));
    assert forall|j: int| 0 <= j < list.len() implies {
        let k = (#[trigger] list[j]).spur.raw;
        &&& fields.contains_key(k)
        &&& *list[j].key == after.bridge@[k]
        &&& gives_value(list[j].value@, values[k], fields[k].1, text)
    } by {
        let k = list[j].spur.raw;
        assert(fields.contains_key(k));
        law_component_round_trip(data@, fields, values, strings, k, order);
        crate::value::law_what_fields_say_of_values(values[k], fields[k].1, strings);
        if fields[k].1 is String && values[k] is String {
            law_strings_are_read_back(data@, fields, values, *after, text, list, j, order);
        }
    }
}

/// Whether an entry of a table gives the value that was stored in a field: the value itself where it
/// is of the field's kind, a buffer cut off or followed by zeros, a string by a handle that reads as
/// its text; and zero where it is of another kind.
pub open spec fn gives_value<L>(
    data: FieldData<&L>,
    value: LuaValue,
    ft: LuauFieldType,
    text: spec_fn(L) -> Seq<char>,
) -> bool {
    match (ft, data) {
        (LuauFieldType::Bool, FieldData::Bool(b)) => b == (value == LuaValue::Boolean(true)),
        (LuauFieldType::Integer, FieldData::Integer(i)) => if value is Integer {
            value == LuaValue::Integer(i)
        } else {
            i == 0
        },
        (LuauFieldType::Number, FieldData::Number(n)) => if value is Number {
            value == LuaValue::Number(n)
        } else {
            n == 0
        },
        (LuauFieldType::Vector4, FieldData::Vector4(x, y, z, w)) => if value is Vector {
            value == LuaValue::Vector(x, y, z, w)
        } else {
            x == 0 && y == 0 && z == 0 && w == 0
        },
        (LuauFieldType::String, FieldData::String(handle)) => value matches LuaValue::String(s)
            ==> text(*handle) == decode_utf8(s@),
        (LuauFieldType::Buffer(len), FieldData::Buffer(bytes)) => bytes.len() == len && forall|
            i: int,
        |
            0 <= i < len ==> #[trigger] bytes[i] == (match value {
                LuaValue::Buffer(b) => if i < b@.len() {
                    b@[i]
                } else {
                    0u8
                },
                _ => 0u8,
            }),
        _ => false,
    }
}

/// There is a table for a component exactly where its type is known and the entity has it; a
/// component at its default is as long as its layout says, and zero throughout.
pub proof fn law_when_there_is_a_table<'a, L>(
    component: Option<&[u8]>,
    component_id: ComponentId,
    registry: SchemaRegistry,
    pool: &'a EngineStringPool<L>,
    entries: Option<Vec<TableEntry<'a, L>>>,
    zeros: Vec<u8>,
)
    requires
        call_ensures(
            DynamicComponentBridge::extract_to_table::<L>,
            (component, component_id, &registry, pool),
            entries,
        ),
        call_ensures(DynamicComponentBridge::insert_default, (component_id, &registry), zeros),
    ensures
        entries is Some <==> component is Some && registry.id_to_schema@.contains_key(component_id),
        zeros@.len() == registry.id_to_schema@[component_id].layout.size,
        forall|p: int| 0 <= p < zeros@.len() ==> #[trigger] zeros@[p] == 0,
{
}

/// A component can be made from a table whenever the table gives, under each field's name, a value
/// that is no string of bytes that are not UTF-8 where the field is a string; an error of the table
/// is passed on. What was interned and had a handle keeps its place and its handle.
pub proof fn law_what_stops_a_component<
    L,
    E,
    G: Fn(&L) -> Result<LuaValue, E>,
    F: Fn(&str) -> L + Copy,
>(
    component_id: ComponentId,
    registry: SchemaRegistry,
    pool: &mut EngineStringPool<L>,
    table: G,
    make: F,
    result: Result<Vec<u8>, TableError<E>>,
)
    requires
        registry.id_to_schema@.contains_key(component_id),
        call_ensures(
            DynamicComponentBridge::insert_from_table::<L, E, G, F>,
            (component_id, &registry, pool, table, make),
            result,
        ),
    ensures
        old(pool).strings().is_prefix_of(final(pool).strings()),
        forall|k: u32| #[trigger]
            old(pool).bridge@.contains_key(k) ==> final(pool).bridge@.contains_key(k)
                && final(pool).bridge@[k] == old(pool).bridge@[k],
        match result {
            Ok(_) => true,
            Err(TableError::Lua(e)) => exists|k: u32| #[trigger]
                registry.id_to_schema@[component_id].fields@.contains_key(k) && table.ensures(
                    (&old(pool).bridge@[k],),
                    Err(e),
                ),
            Err(TableError::NotUtf8) => exists|k: u32, b: Vec<u8>|
                registry.id_to_schema@[component_id].fields@.contains_key(k)
                    && registry.id_to_schema@[component_id].fields@[k].1 is String
                    && #[trigger] table.ensures(
                    (&old(pool).bridge@[k],),
                    Ok(LuaValue::String(b)),
                ) && !valid_utf8(b@),
        },
{
    let fields = registry.id_to_schema@[component_id].fields@;
    crate::value::law_what_growing_keeps(*old(pool), *final(pool), make);
    if let Err(TableError::Lua(e)) = result {
        law_what_comes_from_a_table(table, old(pool).bridge@, fields, Map::empty(), e, Seq::empty());
    }
    if let Err(TableError::NotUtf8) = result {
        law_what_comes_from_a_table(
            table,
            old(pool).bridge@,
            fields,
            Map::empty(),
            arbitrary(),
            Seq::empty(),
        );
    }
}

/// Whether a table can be made is whether each field's name has a handle, and so does each string
/// whose key a field holds.
pub proof fn law_when_a_table_can_be_made<L>(
    data: &[u8],
    component_id: ComponentId,
    registry: SchemaRegistry,
    pool: EngineStringPool<L>,
    known: bool,
)
    requires
        registry.wf(),
        registry.id_to_schema@.contains_key(component_id),
        data@.len() >= registry.id_to_schema@[component_id].layout.size,
        call_ensures(can_extract::<L>, (data, component_id, &registry, &pool), known),
    ensures
        known <==> (forall|k: u32| #[trigger]
            registry.id_to_schema@[component_id].fields@.contains_key(k)
                ==> pool.bridge@.contains_key(k) && (
            registry.id_to_schema@[component_id].fields@[k].1 is String ==> exists|raw: u32|
                pool.bridge@.contains_key(raw) && #[trigger] bytes32(raw, registry.order)
                    == data@.subrange(
                    registry.id_to_schema@[component_id].fields@[k].0 as int,
                    registry.id_to_schema@[component_id].fields@[k].0 + 4,
                ))),
{
    let fields = registry.id_to_schema@[component_id].fields@;
    assert(registry.id_to_schema@[component_id].wf());
    assert(fields_fit(fields, data@.len() as int));
    law_what_tables_need(data@, fields, pool.bridge@, registry.order);
}

} // verus!
