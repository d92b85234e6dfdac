//! Resources in and out of script tables.

use std::collections::HashMap;

use vstd::prelude::*;

use crate::bridge::{
    can_fail, field_bytes, handles_known, in_field, lemma_listed_once, lists_map, read_from,
    table_entries, table_of, FieldMap, TableEntry,
};
use crate::bytes::{bytes32, bytes64, splice, ByteOrder};
use crate::layout::LuauFieldType;
use crate::pool::{EngineStringPool, StrKey};
use crate::schema::{fields_fit, ComponentId, SchemaRegistry};
use crate::value::{
    decoded, law_field_round_trip, law_what_scalars_store, law_what_values_store,
    lemma_same_data_same_bytes, padded, scalar_bytes, write_scalar, FieldData, LuaValue,
};

verus! {

/// Whether the bytes outside the fields are the same before and after.
pub open spec fn same_outside(before: Seq<u8>, after: Seq<u8>, fields: FieldMap) -> bool {
    &&& after.len() == before.len()
    &&& forall|p: int|
        0 <= p < after.len() && (forall|k: u32| !in_field(fields, k, p)) ==> #[trigger] after[p]
            == before[p]
}

/// Whether field `k` was overwritten with `value`, where that is of the field's kind and neither a
/// string nor a buffer, and is as it was otherwise.
pub open spec fn scalar_stored(
    before: Seq<u8>,
    after: Seq<u8>,
    fields: FieldMap,
    k: u32,
    value: LuaValue,
    order: ByteOrder,
) -> bool {
    field_bytes(after, fields, k) == splice(
        field_bytes(before, fields, k),
        0,
        scalar_bytes(value, fields[k].1, order),
    )
}

/// Whether each field was overwritten with its value.
pub open spec fn scalars_stored(
    before: Seq<u8>,
    after: Seq<u8>,
    fields: FieldMap,
    values: Map<u32, LuaValue>,
    order: ByteOrder,
) -> bool {
    &&& same_outside(before, after, fields)
    &&& forall|k: u32| #[trigger]
        fields.contains_key(k) ==> scalar_stored(before, after, fields, k, values[k], order)
}

/// Whether each field is as it was, or was overwritten with a value that reading `table` can give.
pub open spec fn scalars_stored_in_part<L, E, G: Fn(&L) -> Result<LuaValue, E>>(
    before: Seq<u8>,
    after: Seq<u8>,
    fields: FieldMap,
    table: G,
    bridge: Map<u32, L>,
    order: ByteOrder,
) -> bool {
    &&& same_outside(before, after, fields)
    &&& forall|k: u32| #[trigger]
        fields.contains_key(k) ==> field_bytes(after, fields, k) == field_bytes(before, fields, k)
            || stored_from(before, after, fields, k, table, bridge, order)
}

/// Whether field `k` was overwritten with a value that reading `table` can give.
pub open spec fn stored_from<L, E, G: Fn(&L) -> Result<LuaValue, E>>(
    before: Seq<u8>,
    after: Seq<u8>,
    fields: FieldMap,
    k: u32,
    table: G,
    bridge: Map<u32, L>,
    order: ByteOrder,
) -> bool {
    exists|v: LuaValue| #[trigger]
        table.ensures((&bridge[k],), Ok(v)) && scalar_stored(before, after, fields, k, v, order)
}

/// Overwrites the fields of `data` with the booleans, numbers and vectors of a table.
pub fn write_scalars<L, E, G: Fn(&L) -> Result<LuaValue, E>>(
    data: &mut Vec<u8>,
    fields: &HashMap<u32, (usize, LuauFieldType)>,
    pool: &EngineStringPool<L>,
    table: G,
    order: ByteOrder,
) -> (result: Result<(), E>)
    requires
        fields_fit(fields@, old(data)@.len() as int),
        forall|k: u32| #[trigger] fields@.contains_key(k) ==> pool.bridge@.contains_key(k),
        forall|handle: &L| table.requires((handle,)),
    ensures
        scalars_stored_in_part(old(data)@, final(data)@, fields@, table, pool.bridge@, order),
        result is Ok ==> exists|values: Map<u32, LuaValue>| #[trigger]
            read_from(table, pool.bridge@, fields@, values) && scalars_stored(
                old(data)@,
                final(data)@,
                fields@,
                values,
                order,
            ),
        result matches Err(e) ==> can_fail(table, pool.bridge@, fields@, e),
{
    let ghost before = data@;
    let ghost mut values: Map<u32, LuaValue> = Map::empty();
    for (k, field) in it: fields.iter()
        invariant
            before == old(data)@,
            fields_fit(fields@, before.len() as int),
            forall|j: u32| #[trigger] fields@.contains_key(j) ==> pool.bridge@.contains_key(j),
            forall|handle: &L| table.requires((handle,)),
            lists_map(it.seq(), fields@),
            same_outside(before, data@, fields@),
            forall|j: int|
                #![trigger it.seq()[j]]
                0 <= j < it.index() ==> {
                    let key = *it.seq()[j].0;
                    &&& values.contains_key(key)
                    &&& table.ensures((&pool.bridge@[key],), Ok(values[key]))
                    &&& scalar_stored(before, data@, fields@, key, values[key], order)
                },
            forall|j: int|
                #![trigger it.seq()[j]]
                it.index() <= j < it.seq().len() ==> field_bytes(data@, fields@, *it.seq()[j].0)
                    == field_bytes(before, fields@, *it.seq()[j].0),
    {
        proof {
            lemma_listed_once(it.seq(), fields@);
        }
        let (offset, ft) = *field;
        assert(fields@.contains_key(*k));
        let ghost old_data = data@;
        let handle = pool.get_lua_str(StrKey { raw: *k });
        match table(handle) {
            Ok(value) => {
                proof {
                    assert(table.ensures((&pool.bridge@[*k],), Ok(value)));
                    values = values.insert(*k, value);
                }
                write_scalar(data, offset, ft, &value, order);
                proof {
                    assert(scalar_bytes(value, ft, order).len() <= ft.spec_size());
                    assert forall|p: int|
                        0 <= p < data@.len() && (forall|j: u32|
                            !in_field(fields@, j, p)) implies #[trigger] data@[p]
                        == before[p] by {
                        assert(!in_field(fields@, *k, p));
                        assert(old_data[p] == before[p]);
                    }
                    assert(field_bytes(old_data, fields@, *k) == field_bytes(before, fields@, *k));
                    assert(field_bytes(data@, fields@, *k) =~= splice(
                        field_bytes(before, fields@, *k),
                        0,
                        scalar_bytes(value, ft, order),
                    ));
                    assert forall|j: int|
                        #![trigger it.seq()[j]]
                        0 <= j < it.seq().len() && j != it.index() implies field_bytes(
                        data@,
                        fields@,
                        *it.seq()[j].0,
                    ) == field_bytes(old_data, fields@, *it.seq()[j].0) by {
                        let key = *it.seq()[j].0;
                        assert(fields@.contains_key(key) && key != *k);
                        assert(field_bytes(data@, fields@, key) =~= field_bytes(
                            old_data,
                            fields@,
                            key,
                        ));
                    }
                }
            },
            Err(e) => {
                assert(fields@.contains_key(*k) && table.ensures((&pool.bridge@[*k],), Err(e)));
                proof {
                    assert forall|j: u32| #[trigger] fields@.contains_key(j) implies field_bytes(
                        data@,
                        fields@,
                        j,
                    ) == field_bytes(before, fields@, j) || stored_from(
                        before,
                        data@,
                        fields@,
                        j,
                        table,
                        pool.bridge@,
                        order,
                    ) by {
                        let i = choose|i: int|
                            0 <= i < it.seq().len() && it.seq()[i] == (&j, &fields@[j]);
                        assert(*it.seq()[i].0 == j);
                    }
                }
                return Err(e);
            },
        }
    }
    proof {
        assert(read_from(table, pool.bridge@, fields@, values));
    }
    Ok(())
}

/// The entries of a table for a resource, from its bytes. There is no table for a component type
/// that is not known or not a resource.
pub fn extract_resource_table<'a, L>(
    registry: &SchemaRegistry,
    pool: &'a EngineStringPool<L>,
    id: ComponentId,
) -> (entries: Option<Vec<TableEntry<'a, L>>>)
    requires
        registry.wf(),
        registry.resource_data@.contains_key(id) && registry.id_to_schema@.contains_key(id)
            ==> handles_known(
            registry.resource_data@[id]@,
            registry.id_to_schema@[id].fields@,
            pool.bridge@,
            registry.order,
        ),
    ensures
        entries is Some <==> registry.resource_data@.contains_key(id)
            && registry.id_to_schema@.contains_key(id),
        entries matches Some(list) ==> table_of(
            list@,
            registry.resource_data@[id]@,
            registry.id_to_schema@[id].fields@,
            pool.bridge@,
            registry.order,
        ),
{
    match registry.resource_data.get(&id) {
        None => None,
        Some(data) => match registry.id_to_schema.get(&id) {
            None => None,
            Some(schema) => Some(
                table_entries(data.as_slice(), &schema.fields, pool, registry.order),
            ),
        },
    }
}

/// Overwrites a resource with the booleans, numbers and vectors of a table. Strings and buffers
/// are left as they are. Nothing happens for a component type that is not known or not a resource.
pub fn writeback_resource_table<L, E, G: Fn(&L) -> Result<LuaValue, E>>(
    registry: &mut SchemaRegistry,
    pool: &EngineStringPool<L>,
    id: ComponentId,
    table: G,
) -> (result: Result<(), E>)
    requires
        old(registry).wf(),
        old(registry).resource_data@.contains_key(id) && old(registry).id_to_schema@.contains_key(
            id,
        ) ==> (forall|k: u32| #[trigger]
            old(registry).id_to_schema@[id].fields@.contains_key(k) ==> pool.bridge@.contains_key(
                k,
            )),
        forall|handle: &L| table.requires((handle,)),
    ensures
        final(registry).wf(),
        final(registry).name_to_id@ == old(registry).name_to_id@,
        final(registry).id_to_schema@ == old(registry).id_to_schema@,
        final(registry).resource_ids@ == old(registry).resource_ids@,
        final(registry).order == old(registry).order,
        !(old(registry).resource_data@.contains_key(id) && old(
            registry,
        ).id_to_schema@.contains_key(id)) ==> result is Ok && final(registry).resource_data@
            == old(registry).resource_data@,
        old(registry).resource_data@.contains_key(id) && old(registry).id_to_schema@.contains_key(
            id,
        ) ==> {
            let fields = old(registry).id_to_schema@[id].fields@;
            let before = old(registry).resource_data@[id]@;
            let after = final(registry).resource_data@[id]@;
            &&& final(registry).resource_data@.dom() == old(registry).resource_data@.dom()
            &&& forall|other: ComponentId|
                other != id && #[trigger] final(registry).resource_data@.contains_key(other)
                    ==> final(registry).resource_data@[other] == old(
                    registry,
                ).resource_data@[other]
            &&& scalars_stored_in_part(
                before,
                after,
                fields,
                table,
                pool.bridge@,
                old(registry).order,
            )
            &&& result is Ok ==> exists|values: Map<u32, LuaValue>| #[trigger]
                read_from(table, pool.bridge@, fields, values) && scalars_stored(
                    before,
                    after,
                    fields,
                    values,
                    old(registry).order,
                )
            &&& result matches Err(e) ==> can_fail(table, pool.bridge@, fields, e)
        },
{
    if !registry.id_to_schema.contains_key(&id) {
        return Ok(());
    }
    match registry.resource_data.remove(&id) {
        None => {
            assert(registry.resource_data@ =~= old(registry).resource_data@);
            Ok(())
        },
        Some(mut data) => {
            let schema = registry.id_to_schema.get(&id).unwrap();
            let result = write_scalars(&mut data, &schema.fields, pool, table, registry.order);
            registry.resource_data.insert(id, data);
            assert(registry.resource_data@.dom() =~= old(registry).resource_data@.dom());
            result
        },
    }
}

/// What a field says once `value` was written back to it: the value where it is a boolean, a
/// number or a vector of the field's kind, and what the field said before otherwise.
pub open spec fn written_back(value: LuaValue, before: FieldData<StrKey>) -> FieldData<StrKey> {
    match (value, before) {
        (LuaValue::Boolean(b), FieldData::Bool(_)) => FieldData::Bool(b),
        (LuaValue::Integer(i), FieldData::Integer(_)) => FieldData::Integer(i),
        (LuaValue::Number(n), FieldData::Number(_)) => FieldData::Number(n),
        (LuaValue::Vector(x, y, z, w), FieldData::Vector4(..)) => FieldData::Vector4(x, y, z, w),
        _ => before,
    }
}

/// A resource gives back each boolean, number and vector that was written to a field of its kind;
/// any other field reads as before.
pub proof fn law_resource_round_trip(
    before: Seq<u8>,
    after: Seq<u8>,
    fields: FieldMap,
    values: Map<u32, LuaValue>,
    k: u32,
    order: ByteOrder,
)
    requires
        scalars_stored(before, after, fields, values, order),
        fields_fit(fields, before.len() as int),
        fields.contains_key(k),
    ensures
        decoded(field_bytes(after, fields, k), fields[k].1, order) == written_back(
            values[k],
            decoded(field_bytes(before, fields, k), fields[k].1, order),
        ),
{
    let ft = fields[k].1;
    let bytes = field_bytes(after, fields, k);
    let stored = scalar_bytes(values[k], ft, order);
    if stored.len() == 0 {
        assert(bytes =~= field_bytes(before, fields, k));
    } else {
        law_field_round_trip(values[k], ft, Seq::empty(), order);
        assert(bytes =~= padded(stored, ft.spec_size()));
    }
}

/// Writing back the values that were read leaves a resource as it is. (A boolean is stored as zero
/// or one.)
pub proof fn law_writeback_of_read_is_identity(
    before: Seq<u8>,
    after: Seq<u8>,
    fields: FieldMap,
    values: Map<u32, LuaValue>,
    order: ByteOrder,
)
    requires
        scalars_stored(before, after, fields, values, order),
        fields_fit(fields, before.len() as int),
        forall|k: u32| #[trigger]
            fields.contains_key(k) ==> {
                &&& fields[k].1 is Bool ==> before[fields[k].0 as int] <= 1
                &&& written_back(
                    values[k],
                    decoded(field_bytes(before, fields, k), fields[k].1, order),
                ) == decoded(field_bytes(before, fields, k), fields[k].1, order)
            },
    ensures
        after == before,
{
    assert forall|k: u32| #[trigger] fields.contains_key(k) implies field_bytes(after, fields, k)
        == field_bytes(before, fields, k) by {
        law_resource_round_trip(before, after, fields, values, k, order);
        let (a, b) = (field_bytes(after, fields, k), field_bytes(before, fields, k));
        if fields[k].1 is Bool {
            assert(b[0] == before[fields[k].0 as int]);
        }
        lemma_same_data_same_bytes(a, b, fields[k].1, order);
    }
    assert forall|p: int| 0 <= p < before.len() implies after[p] == before[p] by {
        if exists|k: u32| in_field(fields, k, p) {
            let k = choose|k: u32| in_field(fields, k, p);
            let i = p - fields[k].0;
            assert(field_bytes(after, fields, k)[i] == field_bytes(before, fields, k)[i]);
        }
    }
    assert(after =~= before);
}

/// The bytes of a field of a resource once `value` was written back to it: those of the value where
/// it is a boolean, a number or a vector and the field is of its kind; the bytes that were there
/// otherwise, and always where the field is a string or a buffer.
pub proof fn law_what_is_written_back(
    before: Seq<u8>,
    after: Seq<u8>,
    fields: FieldMap,
    k: u32,
    value: LuaValue,
    order: ByteOrder,
)
    requires
        after.len() == before.len(),
        fields_fit(fields, before.len() as int),
        fields.contains_key(k),
        scalar_stored(before, after, fields, k, value, order),
    ensures
        ({
            let at = fields[k].0 as int;
            let end = at + fields[k].1.spec_size();
            match (fields[k].1, value) {
                (LuauFieldType::Bool, LuaValue::Boolean(b)) => after[at] == if b {
                    1u8
                } else {
                    0u8
                },
                (LuauFieldType::Integer, LuaValue::Integer(i)) => after.subrange(at, at + 8)
                    == bytes64(i as u64, order),
                (LuauFieldType::Number, LuaValue::Number(n)) => after.subrange(at, at + 8)
                    == bytes64(n, order),
                (LuauFieldType::Vector4, LuaValue::Vector(x, y, z, w)) => {
                    &&& after.subrange(at, at + 4) == bytes32(x, order)
                    &&& after.subrange(at + 4, at + 8) == bytes32(y, order)
                    &&& after.subrange(at + 8, at + 12) == bytes32(z, order)
                    &&& after.subrange(at + 12, at + 16) == bytes32(w, order)
                },
                _ => after.subrange(at, end) == before.subrange(at, end),
            }
        }),
{
    let at = fields[k].0 as int;
    let ft = fields[k].1;
    let stored = scalar_bytes(value, ft, order);
    let bytes = field_bytes(after, fields, k);
    law_what_scalars_store(value, ft, Seq::empty(), order);
    law_what_values_store(value, ft, Seq::empty(), order);
    law_field_round_trip(value, ft, Seq::empty(), order);
    assert(bytes == after.subrange(at, at + ft.spec_size()));
    if stored.len() == 0 {
        assert(bytes =~= field_bytes(before, fields, k));
    } else {
        assert(bytes =~= stored);
        if ft is Bool {
            assert(bytes[0] == after[at]);
        }
        if ft is Vector4 {
            assert(bytes.subrange(0, 4) =~= after.subrange(at, at + 4));
            assert(bytes.subrange(4, 8) =~= after.subrange(at + 4, at + 8));
            assert(bytes.subrange(8, 12) =~= after.subrange(at + 8, at + 12));
            assert(bytes.subrange(12, 16) =~= after.subrange(at + 12, at + 16));
        }
    }
}

/// Writing back, whether it went through or stopped half way, changes no byte outside the fields,
/// and changes a field only to what the table gives under its name. Where it went through, each
/// field was written.
pub proof fn law_write_backs_touch_fields_alone<L, E, G: Fn(&L) -> Result<LuaValue, E>>(
    before: Seq<u8>,
    after: Seq<u8>,
    fields: FieldMap,
    table: G,
    bridge: Map<u32, L>,
    values: Map<u32, LuaValue>,
    k: u32,
    order: ByteOrder,
)
    requires
        fields_fit(fields, before.len() as int),
        scalars_stored_in_part(before, after, fields, table, bridge, order) || scalars_stored(
            before,
            after,
            fields,
            values,
            order,
        ),
        fields.contains_key(k),
    ensures
        after.len() == before.len(),
        forall|p: int|
            0 <= p < before.len() && (forall|j: u32| #[trigger]
                fields.contains_key(j) ==> p < fields[j].0 || p >= fields[j].0
                    + fields[j].1.spec_size()) ==> #[trigger] after[p] == before[p],
        fields[k].1 is String || fields[k].1 is Buffer ==> field_bytes(after, fields, k)
            == field_bytes(before, fields, k),
        scalars_stored(before, after, fields, values, order) ==> scalar_stored(
            before,
            after,
            fields,
            k,
            values[k],
            order,
        ),
        scalars_stored_in_part(before, after, fields, table, bridge, order) && after.subrange(
            fields[k].0 as int,
            fields[k].0 + fields[k].1.spec_size(),
        ) != before.subrange(fields[k].0 as int, fields[k].0 + fields[k].1.spec_size()) ==> exists|
            v: LuaValue,
        | #[trigger]
            table.ensures((&bridge[k],), Ok(v)) && scalar_stored(
                before,
                after,
                fields,
                k,
                v,
                order,
            ),
{
    assert forall|p: int|
        0 <= p < before.len() && (forall|j: u32| #[trigger]
            fields.contains_key(j) ==> p < fields[j].0 || p >= fields[j].0
                + fields[j].1.spec_size()) implies #[trigger] after[p] == before[p] by {
        assert forall|j: u32| !in_field(fields, j, p) by {
            if fields.contains_key(j) {
            }
        }
    }
    let ft = fields[k].1;
    if ft is String || ft is Buffer {
        assert forall|v: LuaValue| #[trigger]
            scalar_stored(before, after, fields, k, v, order) implies field_bytes(after, fields, k)
            == field_bytes(before, fields, k) by {
            law_what_is_written_back(before, after, fields, k, v, order);
        }
    }
}

/// What a field says once a value was written back to it is the value, where that is a boolean, a
/// number or a vector of the field's kind, and what it said before otherwise.
pub proof fn law_what_written_fields_say(value: LuaValue, before: FieldData<StrKey>)
    ensures
        before is Bool ==> (written_back(value, before) matches FieldData::Bool(b) && (if value
            is Boolean {
            value == LuaValue::Boolean(b)
        } else {
            before == FieldData::<StrKey>::Bool(b)
        })),
        before is Integer ==> (written_back(value, before) matches FieldData::Integer(i) && (
        if value is Integer {
            value == LuaValue::Integer(i)
        } else {
            before == FieldData::<StrKey>::Integer(i)
        })),
        before is Number ==> (written_back(value, before) matches FieldData::Number(n) && (if value
            is Number {
            value == LuaValue::Number(n)
        } else {
            before == FieldData::<StrKey>::Number(n)
        })),
        before is Vector4 ==> (written_back(value, before) matches FieldData::Vector4(x, y, z, w)
            && (if value is Vector {
            value == LuaValue::Vector(x, y, z, w)
        } else {
            before == FieldData::<StrKey>::Vector4(x, y, z, w)
        })),
        before is String || before is Buffer ==> written_back(value, before) == before,
{
}

/// A resource that was written back from a table and is then read has, for each field, the boolean,
/// number or vector that the table gave under its name where that was of the field's kind, and what
/// it had before otherwise; strings and buffers stay as they were, and so do other resources.
pub proof fn law_writing_a_resource_back<L, E, G: Fn(&L) -> Result<LuaValue, E>>(
    registry: &mut SchemaRegistry,
    pool: EngineStringPool<L>,
    id: ComponentId,
    table: G,
    result: Result<(), E>,
    other: ComponentId,
)
    requires
        old(registry).wf(),
        call_ensures(
            writeback_resource_table::<L, E, G>,
            (registry, &pool, id, table),
            result,
        ),
        other != id,
    ensures
        final(registry).id_to_schema@ == old(registry).id_to_schema@,
        final(registry).name_to_id@ == old(registry).name_to_id@,
        final(registry).resource_ids@ == old(registry).resource_ids@,
        final(registry).order == old(registry).order,
        final(registry).resource_data@.contains_key(other) <==> old(
            registry,
        ).resource_data@.contains_key(other),
        old(registry).resource_data@.contains_key(other) ==> final(registry).resource_data@[other]
            == old(registry).resource_data@[other],
        final(registry).resource_data@.contains_key(id) <==> old(
            registry,
        ).resource_data@.contains_key(id),
        !(old(registry).resource_data@.contains_key(id) && old(
            registry,
        ).id_to_schema@.contains_key(id)) ==> result is Ok && final(registry).resource_data@
            == old(registry).resource_data@,
        old(registry).resource_data@.contains_key(id) && old(registry).id_to_schema@.contains_key(
            id,
        ) && result is Ok ==> {
            let fields = old(registry).id_to_schema@[id].fields@;
            let before = old(registry).resource_data@[id]@;
            let after = final(registry).resource_data@[id]@;
            &&& after.len() == before.len()
            &&& exists|values: Map<u32, LuaValue>| #[trigger]
                read_from(table, pool.bridge@, fields, values) && forall|k: u32| #[trigger]
                    fields.contains_key(k) ==> table.ensures((&pool.bridge@[k],), Ok(values[k]))
                        && takes_value(
                        values[k],
                        fields[k].1,
                        decoded(field_bytes(before, fields, k), fields[k].1, old(registry).order),
                        decoded(field_bytes(after, fields, k), fields[k].1, old(registry).order),
                    )
        },
{
    let known = old(registry).resource_data@.contains_key(id) && old(
        registry,
    ).id_to_schema@.contains_key(id);
    let (data_before, data_after) = (old(registry).resource_data@, final(registry).resource_data@);
    if known {
        assert(data_after.dom() == data_before.dom());
        assert(data_after.dom().contains(other) <==> data_before.dom().contains(other));
        assert(data_after.dom().contains(id) <==> data_before.dom().contains(id));
    }
    if known && result is Ok {
        let fields = old(registry).id_to_schema@[id].fields@;
        let before = data_before[id]@;
        let after = data_after[id]@;
        let order = old(registry).order;
        let values = choose|values: Map<u32, LuaValue>| #[trigger]
            read_from(table, pool.bridge@, fields, values) && scalars_stored(
                before,
                after,
                fields,
                values,
                order,
            );
        assert(old(registry).id_to_schema@[id].wf());
        assert(read_from(table, pool.bridge@, fields, values));
        assert forall|k: u32| #[trigger] fields.contains_key(k) implies takes_value(
            values[k],
            fields[k].1,
            decoded(field_bytes(before, fields, k), fields[k].1, order),
            decoded(field_bytes(after, fields, k), fields[k].1, order),
        ) by {
            law_resource_round_trip(before, after, fields, values, k, order);
            law_what_written_fields_say(
                values[k],
                decoded(field_bytes(before, fields, k), fields[k].1, order),
            );
        }
    }
}

/// Whether a field that said `before` says `after` once `value` was written back to it: the value
/// where it is a boolean, a number or a vector and the field is of its kind, and as before otherwise.
pub open spec fn takes_value(
    value: LuaValue,
    ft: LuauFieldType,
    before: FieldData<StrKey>,
    after: FieldData<StrKey>,
) -> bool {
    match (ft, value) {
        (LuauFieldType::Bool, LuaValue::Boolean(b)) => after == FieldData::<StrKey>::Bool(b),
        (LuauFieldType::Integer, LuaValue::Integer(i)) => after == FieldData::<StrKey>::Integer(i),
        (LuauFieldType::Number, LuaValue::Number(n)) => after == FieldData::<StrKey>::Number(n),
        (LuauFieldType::Vector4, LuaValue::Vector(x, y, z, w)) => after == FieldData::<
            StrKey,
        >::Vector4(x, y, z, w),
        _ => after == before,
    }
}

/// There is a table for a resource exactly where its type is known and it has bytes.
pub proof fn law_when_there_is_a_resource_table<'a, L>(
    registry: SchemaRegistry,
    pool: &'a EngineStringPool<L>,
    id: ComponentId,
    entries: Option<Vec<TableEntry<'a, L>>>,
)
    requires
        call_ensures(extract_resource_table::<L>, (&registry, pool, id), entries),
    ensures
        entries is Some <==> registry.resource_data@.contains_key(id)
            && registry.id_to_schema@.contains_key(id),
        entries matches Some(list) ==> list@.len() == registry.id_to_schema@[id].fields@.dom().len()
            && forall|j: int|
            0 <= j < list@.len() ==> {
                let fields = registry.id_to_schema@[id].fields@;
                let k = (#[trigger] list@[j]).spur.raw;
                &&& fields.contains_key(k)
                &&& *list@[j].key == pool.bridge@[k]
            },
{
}

} // verus!
