//! What scripts declare while they load, before component types have their numbers.

use vstd::prelude::*;
use vstd::utf8::{decode_utf8, valid_utf8};

use crate::bridge::lemma_grown_twice;
use crate::layout::LuauFieldType;
use crate::pool::{
    interned, key_of, law_keys_are_unique, lemma_interned, lemma_key_of, lemma_key_stable,
    EngineStringPool, StrKey,
};
use crate::schema::{field_map, ComponentId};
use crate::text::{
    decimal, decimal_text, error_quoting, law_decimal_is_injective, quoting, utf8_text,
    RuntimeError,
};
use crate::value::{grown, kept_data, of_kind, says, storable, text_of, LuaValue};

verus! {

/// Why a call from a script fails: the script engine failed, the call is wrong, or a string is not
/// UTF-8.
#[derive(Debug, PartialEq, Eq)]
pub enum LuaError<E> {
    External(E),
    Runtime(RuntimeError),
    NotUtf8,
}

/// What a value tells of the field that it is the model for.
pub open spec fn inferred(value: LuaValue) -> Option<LuauFieldType> {
    match value {
        LuaValue::Boolean(_) => Some(LuauFieldType::Bool),
        LuaValue::Integer(_) => Some(LuauFieldType::Integer),
        LuaValue::Number(_) => Some(LuauFieldType::Number),
        LuaValue::Vector(..) => Some(LuauFieldType::Vector4),
        LuaValue::String(_) => Some(LuauFieldType::String),
        LuaValue::Buffer(b) => Some(LuauFieldType::Buffer(b@.len() as usize)),
        LuaValue::Nil | LuaValue::Other => None,
    }
}

/// The kind of field that `value` is the model for; `kind_name` is what the script engine calls
/// the value's type.
pub fn infer_field_type(value: &LuaValue, kind_name: &str) -> (result: Result<
    LuauFieldType,
    RuntimeError,
>)
    ensures
        result is Ok <==> inferred(*value) is Some,
        result matches Ok(ft) ==> inferred(*value) == Some(ft),
        result is Err <==> *value is Nil || *value is Other,
        result matches Ok(ft) ==> of_kind(*value, ft) && (*value matches LuaValue::Buffer(b)
            ==> ft.spec_size() == b@.len()),
        result matches Err(e) ==> e.message@ == quoting(
            "cannot infer field type from "@,
            kind_name@,
        ),
{
    proof {
        law_models_are_of_their_kind(*value);
    }
    match value {
        LuaValue::Boolean(_) => Ok(LuauFieldType::Bool),
        LuaValue::Integer(_) => Ok(LuauFieldType::Integer),
        LuaValue::Number(_) => Ok(LuauFieldType::Number),
        LuaValue::Vector(..) => Ok(LuauFieldType::Vector4),
        LuaValue::String(_) => Ok(LuauFieldType::String),
        LuaValue::Buffer(b) => Ok(LuauFieldType::Buffer(b.len())),
        LuaValue::Nil | LuaValue::Other => Err(
            error_quoting("cannot infer field type from ", kind_name),
        ),
    }
}

/// A field of a schema table: the bytes of its name, its model value, and what the script engine
/// calls that value's type.
#[derive(Debug, PartialEq, Eq)]
pub struct FieldModel {
    pub key: Vec<u8>,
    pub value: LuaValue,
    pub kind_name: String,
}

/// Whether an entry of a schema table declares a field.
pub open spec fn declares<E>(item: Result<FieldModel, E>) -> bool {
    item matches Ok(model) && inferred(model.value) is Some && valid_utf8(model.key@)
}

/// Whether `error` is what an entry that declares no field is refused with.
pub open spec fn refused_with<E>(item: Result<FieldModel, E>, error: LuaError<E>) -> bool {
    match item {
        Err(e) => error == LuaError::<E>::External(e),
        Ok(model) => if inferred(model.value) is None {
            error matches LuaError::Runtime(e) && e.message@ == quoting(
                "cannot infer field type from "@,
                model.kind_name@,
            )
        } else {
            error == LuaError::<E>::NotUtf8
        },
    }
}

/// The name of the field that an entry declares.
pub open spec fn field_name<E>(item: Result<FieldModel, E>) -> Seq<char> {
    decode_utf8(item->Ok_0.key@)
}

/// The strings held once the names of the first `n` entries were interned, one after the other.
pub open spec fn names_interned<E>(
    strings: Seq<Seq<char>>,
    items: Seq<Result<FieldModel, E>>,
    n: int,
) -> Seq<Seq<char>>
    decreases n,
{
    if n <= 0 {
        strings
    } else {
        interned(names_interned(strings, items, n - 1), field_name(items[n - 1]))
    }
}

/// Whether there are keys for the names of all entries before the first that declares no field.
pub open spec fn names_fit<E>(strings: Seq<Seq<char>>, items: Seq<Result<FieldModel, E>>) -> bool {
    forall|n: int|
        0 <= n <= items.len() && (forall|j: int| 0 <= j < n ==> declares(#[trigger] items[j]))
            ==> (#[trigger] names_interned(strings, items, n)).len() <= u32::MAX
}

/// The fields that the entries of a schema table declare.
pub open spec fn declared_fields<E>(
    items: Seq<Result<FieldModel, E>>,
    strings: Seq<Seq<char>>,
) -> Seq<(StrKey, LuauFieldType)> {
    items.map_values(
        |item: Result<FieldModel, E>|
            (
                StrKey { raw: key_of(strings, field_name(item)) },
                inferred(item->Ok_0.value)->0,
            ),
    )
}

/// Whether the names of all entries are interned and have handles.
pub open spec fn names_known<L, E>(
    items: Seq<Result<FieldModel, E>>,
    pool: EngineStringPool<L>,
) -> bool {
    forall|i: int|
        0 <= i < items.len() ==> pool.strings().contains(field_name(#[trigger] items[i]))
            && pool.bridge@.contains_key(key_of(pool.strings(), field_name(items[i])))
}

/// Whether entry `i` is the first that declares no field, and `error` is what it is refused with.
pub open spec fn first_refusal<E>(
    items: Seq<Result<FieldModel, E>>,
    i: int,
    error: LuaError<E>,
) -> bool {
    &&& 0 <= i < items.len()
    &&& !declares(items[i])
    &&& refused_with(items[i], error)
    &&& forall|j: int| 0 <= j < i ==> declares(#[trigger] items[j])
}

/// The fields that a schema table declares, in the order of its entries. The first entry that
/// declares none ends it; the names before that entry are interned all the same.
pub fn collect_fields<L, E, F: Fn(&str) -> L + Copy>(
    pool: &mut EngineStringPool<L>,
    items: Vec<Result<FieldModel, E>>,
    make: F,
) -> (result: Result<Vec<(StrKey, LuauFieldType)>, LuaError<E>>)
    requires
        old(pool).wf(),
        names_fit(old(pool).strings(), items@),
        forall|t: &str| make.requires((t,)),
    ensures
        final(pool).wf(),
        grown(*old(pool), *final(pool), make),
        result is Ok <==> forall|i: int| 0 <= i < items@.len() ==> declares(#[trigger] items@[i]),
        result matches Ok(fields) ==> {
            &&& final(pool).strings() == names_interned(
                old(pool).strings(),
                items@,
                items@.len() as int,
            )
            &&& fields@ == declared_fields(items@, final(pool).strings())
            &&& names_known(items@, *final(pool))
        },
        result matches Err(error) ==> exists|i: int| #[trigger]
            first_refusal(items@, i, error) && final(pool).strings() == names_interned(
                old(pool).strings(),
                items@,
                i,
            ),
{
    let ghost start = *pool;
    let ghost all = items@;
    let mut fields: Vec<(StrKey, LuauFieldType)> = Vec::new();
    for item in it: items
        invariant
            start == *old(pool),
            all == items@,
            it.seq() == all,
            names_fit(start.strings(), all),
            forall|t: &str| make.requires((t,)),
            pool.wf(),
            grown(start, *pool, make),
            pool.strings() == names_interned(start.strings(), all, it.index() as int),
            fields@.len() == it.index(),
            forall|j: int| 0 <= j < it.index() ==> declares(#[trigger] all[j]),
            forall|j: int|
                0 <= j < it.index() ==> (#[trigger] fields@[j]).0.raw == key_of(
                    pool.strings(),
                    field_name(all[j]),
                ) && pool.strings().contains(field_name(all[j])) && pool.bridge@.contains_key(
                    fields@[j].0.raw,
                ) && Some(fields@[j].1) == inferred(all[j]->Ok_0.value),
    {
        let ghost n = it.index() as int;
        assert(item == all[n]);
        let model = match item {
            Ok(model) => model,
            Err(e) => {
                let error = LuaError::External(e);
                assert(first_refusal(all, n, error));
                return Err(error);
            },
        };
        let ft = match infer_field_type(&model.value, model.kind_name.as_str()) {
            Ok(ft) => ft,
            Err(e) => {
                let error = LuaError::Runtime(e);
                assert(first_refusal(all, n, error));
                return Err(error);
            },
        };
        match utf8_text(&model.key) {
            Some(name) => {
                let ghost before = *pool;
                proof {
                    lemma_interned(pool.strings(), name@);
                    assert(declares(all[n]));
                    assert(names_interned(start.strings(), all, n + 1).len() <= u32::MAX);
                }
                let spur = pool.intern(make, name);
                proof {
                    assert(grown(before, *pool, make));
                    lemma_grown_twice(start, before, *pool, make);
                    assert forall|j: int| 0 <= j < n implies (#[trigger] fields@[j]).0.raw
                        == key_of(pool.strings(), field_name(all[j])) && pool.strings().contains(
                        field_name(all[j]),
                    ) && pool.bridge@.contains_key(fields@[j].0.raw) by {
                        assert(fields@[j].0.raw == key_of(before.strings(), field_name(all[j])));
                        lemma_key_stable(before.strings(), pool.strings(), field_name(all[j]));
                        assert(before.bridge@.dom().contains(fields@[j].0.raw));
                    }
                }
                let ghost listed = fields@;
                fields.push((spur, ft));
                assert forall|j: int| 0 <= j < n + 1 implies (#[trigger] fields@[j]).0.raw
                    == key_of(pool.strings(), field_name(all[j])) && pool.strings().contains(
                    field_name(all[j]),
                ) && pool.bridge@.contains_key(fields@[j].0.raw) && Some(fields@[j].1) == inferred(
                    all[j]->Ok_0.value,
                ) by {
                    if j < n {
                        assert(fields@[j] == listed[j]);
                    }
                }
            },
            None => {
                let error = LuaError::NotUtf8;
                assert(first_refusal(all, n, error));
                return Err(error);
            },
        }
    }
    proof {
        assert(fields@ =~= declared_fields(all, pool.strings()));
        assert forall|i: int| 0 <= i < all.len() implies pool.strings().contains(
            field_name(#[trigger] all[i]),
        ) && pool.bridge@.contains_key(key_of(pool.strings(), field_name(all[i]))) by {
            assert(fields@[i].0.raw == key_of(pool.strings(), field_name(all[i])));
        }
    }
    Ok(fields)
}

/// Fields with different names have different keys, so that none hides another.
pub proof fn law_collected_keys_differ<L, E>(
    items: Seq<Result<FieldModel, E>>,
    pool: EngineStringPool<L>,
    i: int,
    j: int,
)
    requires
        pool.wf(),
        names_known(items, pool),
        0 <= i < items.len(),
        0 <= j < items.len(),
    ensures
        declared_fields(items, pool.strings())[i].0 == declared_fields(items, pool.strings())[j].0
            <==> field_name(items[i]) == field_name(items[j]),
{
    law_keys_are_unique(pool.strings(), field_name(items[i]), field_name(items[j]));
}

/// The names of the first `n` fields that were declared all have handles.
proof fn lemma_declared_fields_have_handles<L, E>(
    items: Seq<Result<FieldModel, E>>,
    pool: EngineStringPool<L>,
    n: int,
)
    requires
        names_known(items, pool),
        n <= items.len(),
    ensures
        forall|k: u32| #[trigger]
            field_map(declared_fields(items, pool.strings()), n).contains_key(k)
                ==> pool.bridge@.contains_key(k),
    decreases n,
{
    if n > 0 {
        lemma_declared_fields_have_handles(items, pool, n - 1);
        let fields = declared_fields(items, pool.strings());
        assert(fields[n - 1].0.raw == key_of(pool.strings(), field_name(items[n - 1])));
        assert forall|k: u32| #[trigger] field_map(fields, n).contains_key(
            k,
        ) implies pool.bridge@.contains_key(k) by {
            if k != fields[n - 1].0.raw {
                assert(field_map(fields, n - 1).contains_key(k));
            }
        }
    }
}

/// The names of the fields of a declared component type have handles, then and whenever further
/// strings were interned: tables can always be read and made for it.
pub proof fn law_declared_fields_have_handles<L, E, F: Fn(&str) -> L>(
    items: Seq<Result<FieldModel, E>>,
    pool: EngineStringPool<L>,
    later: EngineStringPool<L>,
    make: F,
    k: u32,
)
    requires
        names_known(items, pool),
        grown(pool, later, make),
        field_map(declared_fields(items, pool.strings()), items.len() as int).contains_key(k),
    ensures
        pool.bridge@.contains_key(k),
        later.bridge@.contains_key(k),
        later.bridge@[k] == pool.bridge@[k],
{
    lemma_declared_fields_have_handles(items, pool, items.len() as int);
    assert(pool.bridge@.dom().contains(k) && later.bridge@.dom().contains(k));
}

/// Stands for a declared component type in a script: its position among those declared, and its
/// number once it has one.
#[derive(Clone, Copy, Debug, PartialEq, Eq, Structural)]
pub struct LuaComponentMarker {
    pub staging_idx: usize,
    pub resolved_id: Option<ComponentId>,
}

impl LuaComponentMarker {
    /// The number of the component type.
    pub fn component_id(&self) -> (result: Result<ComponentId, RuntimeError>)
        ensures
            result is Ok <==> self.resolved_id is Some,
            result matches Ok(id) ==> self.resolved_id == Some(id),
            result matches Err(e) ==> e.message@ == "component marker not yet resolved"@,
    {
        match self.resolved_id {
            Some(id) => Ok(id),
            None => Err(RuntimeError { message: "component marker not yet resolved".to_owned() }),
        }
    }

    /// Gives the marker at `position` among all markers the number at that position.
    pub fn resolve(&mut self, position: usize, real_ids: &[ComponentId])
        requires
            position < real_ids@.len(),
        ensures
            final(self).staging_idx == old(self).staging_idx,
            final(self).resolved_id == Some(real_ids@[position as int]),
    {
        self.resolved_id = Some(real_ids[position]);
    }
}

/// When a system runs.
#[derive(Clone, Copy, Debug, PartialEq, Eq, Structural)]
pub enum LuaSchedule {
    Startup,
    Update,
}

/// The component types that a query asks for, by their positions among those declared.
#[derive(Clone, Debug, PartialEq, Eq)]
pub struct StagedQuery {
    pub mutable: Vec<usize>,
    pub immutable: Vec<usize>,
    pub with: Vec<usize>,
    pub without: Vec<usize>,
}

/// What a system or an observer is called with.
#[derive(Clone, Debug, PartialEq, Eq)]
pub enum StagedParam {
    Commands,
    Time,
    Query(StagedQuery),
    Resource(usize),
}

/// Whether positions are all below `n`.
pub open spec fn ids_below(ids: Seq<usize>, n: nat) -> bool {
    forall|i: int| 0 <= i < ids.len() ==> #[trigger] ids[i] < n
}

/// Whether a parameter speaks of the first `n` component types alone.
pub open spec fn param_below(param: StagedParam, n: nat) -> bool {
    match param {
        StagedParam::Commands | StagedParam::Time => true,
        StagedParam::Query(q) => ids_below(q.mutable@, n) && ids_below(q.immutable@, n)
            && ids_below(q.with@, n) && ids_below(q.without@, n),
        StagedParam::Resource(idx) => idx < n,
    }
}

/// Whether all parameters speak of the first `n` component types alone.
pub open spec fn params_below(params: Seq<StagedParam>, n: nat) -> bool {
    forall|i: int| 0 <= i < params.len() ==> param_below(#[trigger] params[i], n)
}

/// Whether positions are all below `n`.
pub fn check_ids(ids: &Vec<usize>, n: usize) -> (below: bool)
    ensures
        below == ids_below(ids@, n as nat),
{
    for i in 0..ids.len()
        invariant
            forall|j: int| 0 <= j < i ==> #[trigger] ids@[j] < n,
    {
        if ids[i] >= n {
            return false;
        }
    }
    true
}

/// Whether all parameters speak of the first `n` component types alone.
pub fn check_params(params: &Vec<StagedParam>, n: usize) -> (below: bool)
    ensures
        below == params_below(params@, n as nat),
{
    for i in 0..params.len()
        invariant
            forall|j: int| 0 <= j < i ==> param_below(#[trigger] params@[j], n as nat),
    {
        let below = match &params[i] {
            StagedParam::Commands => true,
            StagedParam::Time => true,
            StagedParam::Query(q) => check_ids(&q.mutable, n) && check_ids(&q.immutable, n)
                && check_ids(&q.with, n) && check_ids(&q.without, n),
            StagedParam::Resource(idx) => *idx < n,
        };
        if !below {
            return false;
        }
    }
    true
}

/// A component type that a script declared.
#[derive(Debug, PartialEq, Eq)]
pub struct ComponentBlueprint {
    pub name: String,
    pub fields: Vec<(StrKey, LuauFieldType)>,
    pub is_resource: bool,
}

/// A system that a script declared, with `F` for the function that it runs.
#[derive(Debug, PartialEq, Eq)]
pub struct StagedSystem<F> {
    pub func: F,
    pub schedule: LuaSchedule,
    pub params: Vec<StagedParam>,
}

/// An observer that a script declared, with `F` for the function that it runs.
#[derive(Debug, PartialEq, Eq)]
pub struct StagedObserver<F> {
    pub event_idx: usize,
    pub func: F,
    pub params: Vec<StagedParam>,
}

/// What the script engine says of an entry of a parameter list; for an entry that is no parameter,
/// the name of its type.
#[derive(Debug, PartialEq, Eq)]
pub enum ParamValue {
    Commands,
    Time,
    Query(StagedQuery),
    Resource(usize),
    Other(String),
}

/// Whether an entry of a parameter list is a parameter.
pub open spec fn is_param<E>(item: Result<ParamValue, E>) -> bool {
    item matches Ok(value) && value !is Other
}

/// The parameter that an entry stands for.
pub open spec fn param_of(value: ParamValue) -> StagedParam {
    match value {
        ParamValue::Commands => StagedParam::Commands,
        ParamValue::Time => StagedParam::Time,
        ParamValue::Query(q) => StagedParam::Query(q),
        ParamValue::Resource(idx) => StagedParam::Resource(idx),
        ParamValue::Other(_) => arbitrary(),
    }
}

/// The parameters in a list, up to the first entry that is none.
pub fn parse_staged_params<E>(items: Vec<Result<ParamValue, E>>) -> (result: Result<
    Vec<StagedParam>,
    LuaError<E>,
>)
    ensures
        result is Ok <==> forall|i: int| 0 <= i < items@.len() ==> is_param(#[trigger] items@[i]),
        result matches Ok(params) ==> params@.len() == items@.len() && forall|i: int|
            0 <= i < items@.len() ==> #[trigger] params@[i] == param_of(items@[i]->Ok_0),
        result matches Ok(params) ==> forall|i: int|
            0 <= i < items@.len() ==> {
                let entry = (#[trigger] items@[i])->Ok_0;
                &&& items@[i] is Ok
                &&& params@[i] is Commands <==> entry is Commands
                &&& params@[i] is Time <==> entry is Time
                &&& params@[i] matches StagedParam::Query(q) ==> entry == ParamValue::Query(q)
                &&& params@[i] matches StagedParam::Resource(r) ==> entry == ParamValue::Resource(r)
                &&& params@[i] is Query <==> entry is Query
                &&& params@[i] is Resource <==> entry is Resource
            },
        result matches Err(error) ==> exists|i: int|
            0 <= i < items@.len() && !is_param(#[trigger] items@[i]) && (forall|j: int|
                0 <= j < i ==> is_param(#[trigger] items@[j])) && match items@[i] {
                Err(e) => error == LuaError::<E>::External(e),
                Ok(value) => error matches LuaError::Runtime(e) && e.message@ == quoting(
                    "invalid param type "@,
                    value->Other_0@,
                ),
            },
{
    let ghost all = items@;
    let mut params: Vec<StagedParam> = Vec::new();
    for item in it: items
        invariant
            all == items@,
            it.seq() == all,
            params@.len() == it.index(),
            forall|j: int| 0 <= j < it.index() ==> is_param(#[trigger] all[j]),
            forall|j: int|
                0 <= j < it.index() ==> #[trigger] params@[j] == param_of(all[j]->Ok_0),
    {
        assert(item == all[it.index() as int]);
        match item {
            Ok(value) => match value {
                ParamValue::Commands => {
                    params.push(StagedParam::Commands);
                },
                ParamValue::Time => {
                    params.push(StagedParam::Time);
                },
                ParamValue::Query(q) => {
                    params.push(StagedParam::Query(q));
                },
                ParamValue::Resource(idx) => {
                    params.push(StagedParam::Resource(idx));
                },
                ParamValue::Other(kind_name) => {
                    let e = error_quoting("invalid param type ", kind_name.as_str());
                    return Err(LuaError::Runtime(e));
                },
            },
            Err(e) => {
                return Err(LuaError::External(e));
            },
        }
    }
    Ok(params)
}

/// Whether each entry of a list, where there is one, is a marker.
pub open spec fn all_markers<E>(list: Option<Vec<Result<LuaComponentMarker, E>>>) -> bool {
    list matches Some(items) ==> forall|i: int|
        0 <= i < items@.len() ==> #[trigger] items@[i] is Ok
}

/// The positions that the markers in a list stand for; none where there is no list.
pub open spec fn staged_ids<E>(list: Option<Vec<Result<LuaComponentMarker, E>>>) -> Seq<usize> {
    match list {
        Some(items) => items@.map_values(
            |item: Result<LuaComponentMarker, E>| item->Ok_0.staging_idx,
        ),
        None => Seq::empty(),
    }
}

/// Whether `error` is that of the first entry that is no marker.
pub open spec fn first_error<E>(
    list: Option<Vec<Result<LuaComponentMarker, E>>>,
    error: E,
) -> bool {
    list matches Some(items) && exists|i: int|
        0 <= i < items@.len() && #[trigger] items@[i] == Err::<LuaComponentMarker, E>(error) && (
        forall|j: int| 0 <= j < i ==> #[trigger] items@[j] is Ok)
}

/// Whether the list under one key of a query was found, or is absent, and holds markers alone.
pub open spec fn list_is_good<E>(
    found: Result<Option<Vec<Result<LuaComponentMarker, E>>>, E>,
) -> bool {
    found matches Ok(list) && all_markers(list)
}

/// Whether `error` is what a list that is not good is refused with.
pub open spec fn list_refused_with<E>(
    found: Result<Option<Vec<Result<LuaComponentMarker, E>>>, E>,
    error: E,
) -> bool {
    match found {
        Ok(list) => first_error(list, error),
        Err(e) => error == e,
    }
}

/// The positions that the markers in one list of a query stand for.
pub fn read_staging_ids<E>(
    found: Result<Option<Vec<Result<LuaComponentMarker, E>>>, E>,
) -> (result: Result<Vec<usize>, E>)
    ensures
        result is Ok <==> list_is_good(found),
        result matches Ok(ids) ==> ids@ == staged_ids(found->Ok_0),
        result matches Err(e) ==> list_refused_with(found, e),
{
    let list = match found {
        Ok(list) => list,
        Err(e) => {
            return Err(e);
        },
    };
    let mut ids: Vec<usize> = Vec::new();
    match list {
        None => {
            assert(ids@ =~= staged_ids(list));
            Ok(ids)
        },
        Some(items) => {
            let ghost all = items@;
            for item in it: items
                invariant
                    all == items@,
                    list == Some(items),
                    found == Ok::<Option<Vec<Result<LuaComponentMarker, E>>>, E>(list),
                    it.seq() == all,
                    ids@.len() == it.index(),
                    forall|j: int|
                        0 <= j < it.index() ==> (#[trigger] all[j]) is Ok && ids@[j]
                            == all[j]->Ok_0.staging_idx,
            {
                assert(item == all[it.index() as int]);
                match item {
                    Ok(marker) => {
                        ids.push(marker.staging_idx);
                    },
                    Err(e) => {
                        assert(all[it.index() as int] == Err::<LuaComponentMarker, E>(e));
                        return Err(e);
                    },
                }
            }
            assert(ids@ =~= staged_ids(list));
            Ok(ids)
        },
    }
}

/// What a query is made from: what was found under each of its keys.
#[verifier::ext_equal]
pub ghost struct QueryLists<E> {
    pub mutable: Result<Option<Vec<Result<LuaComponentMarker, E>>>, E>,
    pub immutable: Result<Option<Vec<Result<LuaComponentMarker, E>>>, E>,
    pub with: Result<Option<Vec<Result<LuaComponentMarker, E>>>, E>,
    pub without: Result<Option<Vec<Result<LuaComponentMarker, E>>>, E>,
}

/// Whether `lists` is what `read` finds under the keys of a query. A key behind one whose list is
/// not good is not read.
pub open spec fn lists_read<
    E,
    R: Fn(&str) -> Result<Option<Vec<Result<LuaComponentMarker, E>>>, E>,
>(read: R, lists: QueryLists<E>) -> bool {
    &&& read.ensures(("Mutable",), lists.mutable)
    &&& list_is_good(lists.mutable) ==> {
        &&& read.ensures(("Immutable",), lists.immutable)
        &&& list_is_good(lists.immutable) ==> {
            &&& read.ensures(("With",), lists.with)
            &&& list_is_good(lists.with) ==> read.ensures(("Without",), lists.without)
        }
    }
}

/// Whether `result` is what the query made from `lists` is.
pub open spec fn query_of<E>(lists: QueryLists<E>, result: Result<StagedQuery, E>) -> bool {
    if !list_is_good(lists.mutable) {
        result matches Err(e) && list_refused_with(lists.mutable, e)
    } else if !list_is_good(lists.immutable) {
        result matches Err(e) && list_refused_with(lists.immutable, e)
    } else if !list_is_good(lists.with) {
        result matches Err(e) && list_refused_with(lists.with, e)
    } else if !list_is_good(lists.without) {
        result matches Err(e) && list_refused_with(lists.without, e)
    } else {
        &&& result matches Ok(query)
        &&& query.mutable@ == staged_ids(lists.mutable->Ok_0)
        &&& query.immutable@ == staged_ids(lists.immutable->Ok_0)
        &&& query.with@ == staged_ids(lists.with->Ok_0)
        &&& query.without@ == staged_ids(lists.without->Ok_0)
    }
}

/// The query that a table describes; `read` finds the list under a key of the table. The keys are
/// read in order, up to the first whose list is not good.
pub fn stage_query<E, R: Fn(&str) -> Result<Option<Vec<Result<LuaComponentMarker, E>>>, E>>(
    read: R,
) -> (result: Result<StagedQuery, E>)
    requires
        read.requires(("Mutable",)),
        read.requires(("Immutable",)),
        read.requires(("With",)),
        read.requires(("Without",)),
    ensures
        exists|lists: QueryLists<E>| #[trigger] lists_read(read, lists) && query_of(lists, result),
{
    let mutable_list = read("Mutable");
    let ghost mut lists = QueryLists {
        mutable: mutable_list,
        immutable: arbitrary(),
        with: arbitrary(),
        without: arbitrary(),
    };
    let mutable = match read_staging_ids(mutable_list) {
        Ok(ids) => ids,
        Err(e) => {
            assert(lists_read(read, lists));
            return Err(e);
        },
    };
    let immutable_list = read("Immutable");
    proof {
        lists.immutable = immutable_list;
    }
    let immutable = match read_staging_ids(immutable_list) {
        Ok(ids) => ids,
        Err(e) => {
            assert(lists_read(read, lists));
            return Err(e);
        },
    };
    let with_list = read("With");
    proof {
        lists.with = with_list;
    }
    let with = match read_staging_ids(with_list) {
        Ok(ids) => ids,
        Err(e) => {
            assert(lists_read(read, lists));
            return Err(e);
        },
    };
    let without_list = read("Without");
    proof {
        lists.without = without_list;
    }
    let without = match read_staging_ids(without_list) {
        Ok(ids) => ids,
        Err(e) => {
            assert(lists_read(read, lists));
            return Err(e);
        },
    };
    assert(lists_read(read, lists));
    Ok(StagedQuery { mutable, immutable, with, without })
}

/// The name of the component type at position `index`.
pub open spec fn component_name(is_resource: bool, index: nat) -> Seq<char> {
    (if is_resource {
        "__lua_res"@
    } else {
        "__lua_comp"@
    }) + "_"@ + decimal(index)
}

/// No two component types have the same name.
pub proof fn law_component_names_differ(
    is_resource: bool,
    index: nat,
    other_is_resource: bool,
    other_index: nat,
)
    requires
        component_name(is_resource, index) == component_name(other_is_resource, other_index),
    ensures
        is_resource == other_is_resource,
        index == other_index,
{
    reveal_strlit("__lua_res");
    reveal_strlit("__lua_comp");
    reveal_strlit("_");
    let a = component_name(is_resource, index);
    let b = component_name(other_is_resource, other_index);
    assert("__lua_res"@[6] == 'r' && "__lua_comp"@[6] == 'c');
    assert(a[6] == (if is_resource {
        'r'
    } else {
        'c'
    }));
    assert(b[6] == (if other_is_resource {
        'r'
    } else {
        'c'
    }));
    assert(is_resource == other_is_resource);
    let n: int = if is_resource {
        10
    } else {
        11
    };
    assert(a.skip(n) =~= decimal(index));
    assert(b.skip(n) =~= decimal(other_index));
    law_decimal_is_injective(index, other_index);
}

/// A component type is found by its name, also once another one has been recorded under its own.
pub proof fn law_types_are_found_by_name(
    name_to_id: Map<Seq<char>, ComponentId>,
    is_resource: bool,
    index: nat,
    id: ComponentId,
    other_is_resource: bool,
    other_index: nat,
    other_id: ComponentId,
)
    requires
        index != other_index,
    ensures
        name_to_id.insert(component_name(is_resource, index), id).insert(
            component_name(other_is_resource, other_index),
            other_id,
        )[component_name(is_resource, index)] == id,
{
    if component_name(is_resource, index) == component_name(other_is_resource, other_index) {
        law_component_names_differ(is_resource, index, other_is_resource, other_index);
    }
}

/// Whether component types are named by their positions.
pub open spec fn named_by_position(blueprints: Seq<ComponentBlueprint>) -> bool {
    forall|i: int|
        0 <= i < blueprints.len() ==> (#[trigger] blueprints[i]).name@ == component_name(
            blueprints[i].is_resource,
            i as nat,
        )
}

/// The component types of one load have different names.
pub proof fn law_names_of_a_load_differ(blueprints: Seq<ComponentBlueprint>, i: int, j: int)
    requires
        named_by_position(blueprints),
        0 <= i < blueprints.len(),
        0 <= j < blueprints.len(),
        blueprints[i].name@ == blueprints[j].name@,
    ensures
        i == j,
{
    law_component_names_differ(
        blueprints[i].is_resource,
        i as nat,
        blueprints[j].is_resource,
        j as nat,
    );
}

/// What scripts have declared so far, with `F` for functions and `M` for markers.
pub struct LoadContext<F, M> {
    pub pending_components: Vec<ComponentBlueprint>,
    pub pending_systems: Vec<StagedSystem<F>>,
    pub pending_observers: Vec<StagedObserver<F>>,
    pub component_markers: Vec<M>,
}

impl<F, M> Default for LoadContext<F, M> {
    fn default() -> (ctx: Self)
        ensures
            ctx.pending_components@.len() == 0,
            ctx.pending_systems@.len() == 0,
            ctx.pending_observers@.len() == 0,
            ctx.component_markers@.len() == 0,
            ctx.wf(),
            ctx.named(),
    {
        LoadContext {
            pending_components: Vec::new(),
            pending_systems: Vec::new(),
            pending_observers: Vec::new(),
            component_markers: Vec::new(),
        }
    }
}

impl<F, M> LoadContext<F, M> {
    /// Systems and observers speak of declared component types alone, and no marker is without
    /// its component type.
    pub open spec fn wf(self) -> bool {
        let n = self.pending_components@.len();
        &&& self.component_markers@.len() <= n
        &&& forall|i: int|
            0 <= i < self.pending_systems@.len() ==> params_below(
                (#[trigger] self.pending_systems@[i]).params@,
                n,
            )
        &&& forall|i: int|
            0 <= i < self.pending_observers@.len() ==> (
            #[trigger] self.pending_observers@[i]).event_idx < n && params_below(
                self.pending_observers@[i].params@,
                n,
            )
    }

    /// Component types are named by their positions.
    pub open spec fn named(self) -> bool {
        named_by_position(self.pending_components@)
    }

    /// Whether the context is well formed, which the end of a load asks for.
    pub fn is_wf(&self) -> (wf: bool)
        ensures
            wf == self.wf(),
    {
        let n: usize = self.pending_components.len();
        if self.component_markers.len() > n {
            return false;
        }
        for i in 0..self.pending_systems.len()
            invariant
                n == self.pending_components@.len(),
                forall|j: int|
                    0 <= j < i ==> params_below(
                        (#[trigger] self.pending_systems@[j]).params@,
                        n as nat,
                    ),
        {
            if !check_params(&self.pending_systems[i].params, n) {
                return false;
            }
        }
        for i in 0..self.pending_observers.len()
            invariant
                n == self.pending_components@.len(),
                forall|j: int|
                    0 <= j < i ==> (#[trigger] self.pending_observers@[j]).event_idx < n
                        && params_below(self.pending_observers@[j].params@, n as nat),
        {
            let observer = &self.pending_observers[i];
            if observer.event_idx >= n || !check_params(&observer.params, n) {
                return false;
            }
        }
        true
    }
}

/// The marker of the component type that is declared next.
pub open spec fn next_marker<F, M>(ctx: LoadContext<F, M>) -> LuaComponentMarker {
    LuaComponentMarker {
        staging_idx: ctx.pending_components@.len() as usize,
        resolved_id: None,
    }
}

/// Whether `after` is `before` with one more component type, and nothing else.
pub open spec fn declared_one<F, M>(
    before: LoadContext<F, M>,
    after: LoadContext<F, M>,
    fields: Seq<(StrKey, LuauFieldType)>,
    is_resource: bool,
) -> bool {
    &&& after.pending_components@.len() == before.pending_components@.len() + 1
    &&& after.pending_components@.drop_last() == before.pending_components@
    &&& after.pending_components@.last().name@ == component_name(
        is_resource,
        before.pending_components@.len(),
    )
    &&& after.pending_components@.last().fields@ == fields
    &&& after.pending_components@.last().is_resource == is_resource
    &&& after.pending_systems@ == before.pending_systems@
    &&& after.pending_observers@ == before.pending_observers@
}

impl<F, M: Clone> LoadContext<F, M> {
    /// Declares a component type from the entries of a schema table, and makes its marker with
    /// `create`. Where `create` fails, the type stays declared, without a marker.
    pub fn register_schema<
        L,
        E,
        N: Fn(&str) -> L + Copy,
        C: FnOnce(LuaComponentMarker) -> Result<M, E>,
    >(
        &mut self,
        pool: &mut EngineStringPool<L>,
        items: Vec<Result<FieldModel, E>>,
        is_resource: bool,
        make: N,
        create: C,
    ) -> (result: Result<M, LuaError<E>>)
        requires
            old(pool).wf(),
            names_fit(old(pool).strings(), items@),
            forall|t: &str| make.requires((t,)),
            create.requires((next_marker(*old(self)),)),
        ensures
            final(pool).wf(),
            grown(*old(pool), *final(pool), make),
            old(self).wf() ==> final(self).wf(),
            old(self).named() ==> final(self).named(),
            if forall|i: int| 0 <= i < items@.len() ==> declares(#[trigger] items@[i]) {
                &&& final(pool).strings() == names_interned(
                    old(pool).strings(),
                    items@,
                    items@.len() as int,
                )
                &&& names_known(items@, *final(pool))
                &&& declared_one(
                    *old(self),
                    *final(self),
                    declared_fields(items@, final(pool).strings()),
                    is_resource,
                )
                &&& match result {
                    Ok(marker) => {
                        &&& create.ensures((next_marker(*old(self)),), Ok(marker))
                        &&& final(self).component_markers@.len() == old(
                            self,
                        ).component_markers@.len() + 1
                        &&& final(self).component_markers@.drop_last() == old(
                            self,
                        ).component_markers@
                        &&& cloned(marker, final(self).component_markers@.last())
                    },
                    Err(error) => {
                        &&& error is External
                        &&& create.ensures((next_marker(*old(self)),), Err(error->External_0))
                        &&& final(self).component_markers@ == old(self).component_markers@
                    },
                }
            } else {
                &&& *final(self) == *old(self)
                &&& result is Err
                &&& exists|i: int| #[trigger]
                    first_refusal(items@, i, result->Err_0) && final(pool).strings()
                        == names_interned(old(pool).strings(), items@, i)
            },
    {
        let fields = match collect_fields(pool, items, make) {
            Ok(fields) => fields,
            Err(error) => {
                return Err(error);
            },
        };
        let index: usize = self.pending_components.len();
        let mut name = if is_resource {
            "__lua_res".to_owned()
        } else {
            "__lua_comp".to_owned()
        };
        name.append("_");
        let number = decimal_text(index as u64);
        name.append(number.as_str());
        self.pending_components.push(ComponentBlueprint { name, fields, is_resource });
        assert(self.pending_components@.drop_last() =~= old(self).pending_components@);
        assert forall|i: int| old(self).named() && 0 <= i < index implies (
        #[trigger] self.pending_components@[i]).name@ == component_name(
            self.pending_components@[i].is_resource,
            i as nat,
        ) by {
            assert(self.pending_components@[i] == old(self).pending_components@[i]);
        }
        match create(LuaComponentMarker { staging_idx: index, resolved_id: None }) {
            Ok(marker) => {
                self.component_markers.push(marker.clone());
                assert(self.component_markers@.drop_last() =~= old(self).component_markers@);
                Ok(marker)
            },
            Err(e) => Err(LuaError::External(e)),
        }
    }
}

impl<F, M> LoadContext<F, M> {
    /// Declares a system.
    pub fn register_system(&mut self, func: F, schedule: LuaSchedule, params: Vec<StagedParam>)
        ensures
            final(self).pending_systems@ == old(self).pending_systems@.push(
                (StagedSystem { func, schedule, params }),
            ),
            final(self).pending_components@ == old(self).pending_components@,
            final(self).pending_observers@ == old(self).pending_observers@,
            final(self).component_markers@ == old(self).component_markers@,
            old(self).wf() && params_below(params@, old(self).pending_components@.len())
                ==> final(self).wf(),
    {
        self.pending_systems.push(StagedSystem { func, schedule, params });
    }

    /// Declares an observer of the event that `event` stands for.
    pub fn observe(&mut self, event: &LuaComponentMarker, func: F, params: Vec<StagedParam>)
        ensures
            final(self).pending_observers@ == old(self).pending_observers@.push(
                (StagedObserver { event_idx: event.staging_idx, func, params }),
            ),
            final(self).pending_components@ == old(self).pending_components@,
            final(self).pending_systems@ == old(self).pending_systems@,
            final(self).component_markers@ == old(self).component_markers@,
            old(self).wf() && event.staging_idx < old(self).pending_components@.len()
                && params_below(params@, old(self).pending_components@.len()) ==> final(self).wf(),
    {
        self.pending_observers.push(
            StagedObserver { event_idx: event.staging_idx, func, params },
        );
    }
}

/// Whether each component type has its marker, at its own position; `position` is what a marker
/// holds.
pub open spec fn markers_aligned<F, M>(
    ctx: LoadContext<F, M>,
    position: spec_fn(M) -> int,
) -> bool {
    &&& ctx.component_markers@.len() == ctx.pending_components@.len()
    &&& forall|i: int|
        0 <= i < ctx.component_markers@.len() ==> position(#[trigger] ctx.component_markers@[i])
            == i
}

/// While no marker fails to be made, the marker at each position stands for the component type at
/// that position: declaring one more type keeps this.
pub proof fn law_markers_stay_aligned<F, M>(
    before: LoadContext<F, M>,
    after: LoadContext<F, M>,
    fields: Seq<(StrKey, LuauFieldType)>,
    is_resource: bool,
    position: spec_fn(M) -> int,
)
    requires
        markers_aligned(before, position),
        declared_one(before, after, fields, is_resource),
        after.component_markers@.len() == before.component_markers@.len() + 1,
        after.component_markers@.drop_last() == before.component_markers@,
        position(after.component_markers@.last()) == next_marker(before).staging_idx,
    ensures
        markers_aligned(after, position),
{
    let n = before.component_markers@.len() as int;
    assert(before.pending_components.len() == n);
    assert forall|i: int| 0 <= i < after.component_markers@.len() implies position(
        #[trigger] after.component_markers@[i],
    ) == i by {
        if i < n {
            assert(after.component_markers@.drop_last()[i] == after.component_markers@[i]);
            assert(position(before.component_markers@[i]) == i);
        }
    }
}

/// Calls `f` once with the context of the load that is under way, and returns what it returns;
/// without a load that is an error.
pub fn with_ctx<C, T, E, F: FnOnce(C) -> Result<T, LuaError<E>>>(ctx: Option<C>, f: F) -> (result:
    Result<T, LuaError<E>>)
    requires
        ctx matches Some(c) ==> f.requires((c,)),
    ensures
        match ctx {
            Some(c) => f.ensures((c,), result),
            None => result matches Err(LuaError::Runtime(e)) && e.message@
                == "Ecs API only available during script loading"@,
        },
{
    match ctx {
        Some(c) => f(c),
        None => Err(
            LuaError::Runtime(
                RuntimeError { message: "Ecs API only available during script loading".to_owned() },
            ),
        ),
    }
}

/// A model value is of the kind of the field that is inferred from it: a boolean, an integer, a
/// number, a vector or a string gives a field of just that kind, a buffer one of its length; only
/// nil and values that no field can hold give none.
pub proof fn law_models_are_of_their_kind(value: LuaValue)
    ensures
        inferred(value) is None <==> value is Nil || value is Other,
        inferred(value) matches Some(ft) ==> {
            &&& of_kind(value, ft)
            &&& ft is Bool <==> value is Boolean
            &&& ft is Integer <==> value is Integer
            &&& ft is Number <==> value is Number
            &&& ft is Vector4 <==> value is Vector
            &&& ft is String <==> value is String
            &&& ft is Buffer <==> value is Buffer
            &&& value matches LuaValue::Buffer(b) ==> ft.spec_size() == b@.len()
        },
{
    if let LuaValue::Buffer(b) = value {
        assert(b.len() == b@.len());
    }
}

/// A component made from its own model table gives every model value back.
pub proof fn law_models_come_back<E>(
    item: Result<FieldModel, E>,
    strings: Seq<Seq<char>>,
)
    requires
        declares(item),
        strings.no_duplicates(),
        strings.len() <= u32::MAX,
        text_of(item->Ok_0.value, inferred(item->Ok_0.value)->0) matches Some(t)
            ==> strings.contains(t),
        storable(item->Ok_0.value, inferred(item->Ok_0.value)->0),
    ensures
        says(
            item->Ok_0.value,
            kept_data(item->Ok_0.value, inferred(item->Ok_0.value)->0, strings),
            strings,
        ),
{
    let value = item->Ok_0.value;
    let ft = inferred(value)->0;
    law_models_are_of_their_kind(value);
    if let Some(t) = text_of(value, ft) {
        lemma_key_of(strings, t);
    }
    if let LuaValue::Buffer(b) = value {
        assert(crate::value::padded(b@, ft.spec_size()) =~= b@);
    }
}

/// What an entry of a schema table must be to declare a field: it could be read, its value is
/// neither nil nor one that no field can hold, and its name is UTF-8. An entry that could not be
/// read is refused with that error; a value that no field can hold with a message that ends in the
/// name of its type; otherwise the name is to blame.
pub proof fn law_what_declares_a_field<E>(item: Result<FieldModel, E>, error: LuaError<E>)
    ensures
        item is Err ==> !declares(item),
        item matches Ok(model) ==> (declares(item) <==> !(model.value is Nil) && !(
        model.value is Other) && valid_utf8(model.key@)),
        item matches Err(e) ==> (refused_with(item, error) <==> error
            == LuaError::<E>::External(e)),
        item matches Ok(model) ==> (model.value is Nil || model.value is Other) ==> (refused_with(
            item,
            error,
        ) <==> (error matches LuaError::Runtime(e) && e.message@ == quoting(
            "cannot infer field type from "@,
            model.kind_name@,
        ))),
        item matches Ok(model) ==> !(model.value is Nil) && !(model.value is Other) ==> (
        refused_with(item, error) <==> error == LuaError::<E>::NotUtf8),
{
}

/// The fields of a component type are those of its schema table, entry by entry: each has the key
/// of the name that the entry's bytes spell, and a kind that the entry's value is of.
pub proof fn law_declared_fields_are_those_of_the_table<L, E>(
    items: Seq<Result<FieldModel, E>>,
    pool: EngineStringPool<L>,
    i: int,
)
    requires
        pool.wf(),
        names_known(items, pool),
        forall|j: int| 0 <= j < items.len() ==> declares(#[trigger] items[j]),
        0 <= i < items.len(),
    ensures
        declared_fields(items, pool.strings()).len() == items.len(),
        ({
            let field = declared_fields(items, pool.strings())[i];
            &&& 1 <= field.0.raw <= pool.strings().len()
            &&& pool.strings()[field.0.raw - 1] == decode_utf8(items[i]->Ok_0.key@)
            &&& of_kind(items[i]->Ok_0.value, field.1)
            &&& items[i]->Ok_0.value matches LuaValue::Buffer(b) ==> field.1.spec_size() == b@.len()
        }),
{
    assert(declares(items[i]));
    assert(pool.strings().contains(field_name(items[i])));
    lemma_key_of(pool.strings(), field_name(items[i]));
    law_models_are_of_their_kind(items[i]->Ok_0.value);
}

/// Interning the names of entries keeps what was held in place and adds just those names that were
/// not held, each once.
pub proof fn law_names_are_added_once<E>(
    strings: Seq<Seq<char>>,
    items: Seq<Result<FieldModel, E>>,
    n: int,
)
    requires
        strings.no_duplicates(),
        0 <= n <= items.len(),
    ensures
        strings.is_prefix_of(names_interned(strings, items, n)),
        n > 0 ==> names_interned(strings, items, n - 1).is_prefix_of(
            names_interned(strings, items, n),
        ),
        names_interned(strings, items, n).no_duplicates(),
        forall|i: int|
            0 <= i < n ==> names_interned(strings, items, n).contains(
                decode_utf8((#[trigger] items[i])->Ok_0.key@),
            ),
        forall|k: int|
            strings.len() <= k < names_interned(strings, items, n).len() ==> exists|i: int|
                0 <= i < n && #[trigger] names_interned(strings, items, n)[k] == decode_utf8(
                    (#[trigger] items[i])->Ok_0.key@,
                ),
    decreases n,
{
    if n > 0 {
        law_names_are_added_once(strings, items, n - 1);
        let before = names_interned(strings, items, n - 1);
        let after = names_interned(strings, items, n);
        let name = field_name(items[n - 1]);
        lemma_interned(before, name);
        assert forall|i: int| 0 <= i < n implies after.contains(
            decode_utf8((#[trigger] items[i])->Ok_0.key@),
        ) by {
            if i < n - 1 {
                let t = decode_utf8(items[i]->Ok_0.key@);
                let k = choose|k: int| 0 <= k < before.len() && before[k] == t;
                assert(after[k] == t);
            }
        }
        assert forall|k: int| strings.len() <= k < after.len() implies exists|i: int|
            0 <= i < n && #[trigger] after[k] == decode_utf8((#[trigger] items[i])->Ok_0.key@) by {
            if k < before.len() {
                assert(after[k] == before[k]);
                let i = choose|i: int|
                    0 <= i < n - 1 && before[k] == decode_utf8((#[trigger] items[i])->Ok_0.key@);
                assert(after[k] == decode_utf8(items[i]->Ok_0.key@));
            } else {
                assert(after[k] == decode_utf8(items[n - 1]->Ok_0.key@));
            }
        }
    }
}

/// Each entry of a parameter list that is a parameter stands for the parameter of its own kind,
/// which holds what the entry holds; an entry is no parameter only where it could not be read or
/// is something else.
pub proof fn law_parameters_are_what_entries_say<E>(item: Result<ParamValue, E>)
    ensures
        is_param(item) <==> item is Ok && !(item->Ok_0 is Other),
        item matches Ok(ParamValue::Commands) ==> param_of(item->Ok_0) is Commands,
        item matches Ok(ParamValue::Time) ==> param_of(item->Ok_0) is Time,
        item matches Ok(ParamValue::Query(q)) ==> param_of(item->Ok_0) == StagedParam::Query(q),
        item matches Ok(ParamValue::Resource(r)) ==> param_of(item->Ok_0) == StagedParam::Resource(r),
{
}

/// Different parameter lists stay different.
pub proof fn law_parsing_is_injective<E>(a: Result<ParamValue, E>, b: Result<ParamValue, E>)
    requires
        a is Ok && !(a->Ok_0 is Other),
        b is Ok && !(b->Ok_0 is Other),
        param_of(a->Ok_0) == param_of(b->Ok_0),
    ensures
        a == b,
{
}

/// A query holds, for each of its lists and in the order of that list, the positions that its
/// markers hold, and nothing for a list that is absent.
pub proof fn law_queries_hold_the_positions_of_their_markers<E>(
    list: Option<Vec<Result<LuaComponentMarker, E>>>,
)
    ensures
        list is None ==> staged_ids(list).len() == 0,
        list matches Some(items) ==> {
            &&& staged_ids(list).len() == items@.len()
            &&& forall|i: int|
                0 <= i < items@.len() ==> (#[trigger] items@[i] matches Ok(marker) ==> staged_ids(
                    list,
                )[i] == marker.staging_idx)
            &&& all_markers(list) <==> forall|i: int|
                0 <= i < items@.len() ==> #[trigger] items@[i] is Ok
        },
        list is None ==> all_markers(list),
{
}

/// A query is refused exactly where one of the lists that were read is not good, and with the error
/// of the first such list, in the order of writing, reading, having and not having; otherwise each
/// of its lists is that found under its own key.
pub proof fn law_queries_are_those_of_their_lists<
    E,
    R: Fn(&str) -> Result<Option<Vec<Result<LuaComponentMarker, E>>>, E>,
>(read: R, lists: QueryLists<E>, result: Result<StagedQuery, E>)
    requires
        lists_read(read, lists),
        query_of(lists, result),
    ensures
        read.ensures(("Mutable",), lists.mutable),
        result is Ok ==> {
            &&& read.ensures(("Immutable",), lists.immutable)
            &&& read.ensures(("With",), lists.with)
            &&& read.ensures(("Without",), lists.without)
            &&& lists.mutable is Ok && result->Ok_0.mutable@ == staged_ids(lists.mutable->Ok_0)
            &&& lists.immutable is Ok && result->Ok_0.immutable@ == staged_ids(
                lists.immutable->Ok_0,
            )
            &&& lists.with is Ok && result->Ok_0.with@ == staged_ids(lists.with->Ok_0)
            &&& lists.without is Ok && result->Ok_0.without@ == staged_ids(lists.without->Ok_0)
            &&& all_markers(lists.mutable->Ok_0) && all_markers(lists.immutable->Ok_0)
            &&& all_markers(lists.with->Ok_0) && all_markers(lists.without->Ok_0)
        },
        result matches Err(e) ==> {
            ||| lists.mutable == Err::<Option<Vec<Result<LuaComponentMarker, E>>>, E>(e)
            ||| lists.immutable == Err::<Option<Vec<Result<LuaComponentMarker, E>>>, E>(e)
            ||| lists.with == Err::<Option<Vec<Result<LuaComponentMarker, E>>>, E>(e)
            ||| lists.without == Err::<Option<Vec<Result<LuaComponentMarker, E>>>, E>(e)
            ||| lists.mutable is Ok && first_error(lists.mutable->Ok_0, e)
            ||| lists.immutable is Ok && first_error(lists.immutable->Ok_0, e)
            ||| lists.with is Ok && first_error(lists.with->Ok_0, e)
            ||| lists.without is Ok && first_error(lists.without->Ok_0, e)
        },
        (lists.mutable is Err || lists.immutable is Err || lists.with is Err
            || lists.without is Err) ==> result is Err,
        lists.mutable matches Err(e) ==> result == Err::<StagedQuery, E>(e),
        lists.mutable is Ok && !all_markers(lists.mutable->Ok_0) ==> result is Err && first_error(
            lists.mutable->Ok_0,
            result->Err_0,
        ),
        lists.mutable is Ok && all_markers(lists.mutable->Ok_0) ==> {
            &&& read.ensures(("Immutable",), lists.immutable)
            &&& lists.immutable matches Err(e) ==> result == Err::<StagedQuery, E>(e)
            &&& lists.immutable is Ok && !all_markers(lists.immutable->Ok_0) ==> result is Err
                && first_error(lists.immutable->Ok_0, result->Err_0)
            &&& lists.immutable is Ok && all_markers(lists.immutable->Ok_0) ==> {
                &&& read.ensures(("With",), lists.with)
                &&& lists.with matches Err(e) ==> result == Err::<StagedQuery, E>(e)
                &&& lists.with is Ok && !all_markers(lists.with->Ok_0) ==> result is Err
                    && first_error(lists.with->Ok_0, result->Err_0)
                &&& lists.with is Ok && all_markers(lists.with->Ok_0) ==> {
                    &&& read.ensures(("Without",), lists.without)
                    &&& lists.without matches Err(e) ==> result == Err::<StagedQuery, E>(e)
                    &&& lists.without is Ok && !all_markers(lists.without->Ok_0) ==> result is Err
                        && first_error(lists.without->Ok_0, result->Err_0)
                    &&& lists.without is Ok && all_markers(lists.without->Ok_0) ==> result is Ok
                }
            }
        },
{
}

/// The error of a list is that of one of its entries, before which all are markers.
pub proof fn law_the_first_error_of_a_list<E>(
    list: Option<Vec<Result<LuaComponentMarker, E>>>,
    error: E,
)
    requires
        first_error(list, error),
    ensures
        list is Some,
        exists|i: int|
            0 <= i < list->0@.len() && #[trigger] list->0@[i] == Err::<LuaComponentMarker, E>(error)
                && forall|j: int| 0 <= j < i ==> (#[trigger] list->0@[j]) is Ok,
{
}

/// The name of a component type says whether it is a resource, and at which position it was
/// declared.
pub proof fn law_names_tell_kind_and_position(is_resource: bool, index: nat)
    ensures
        is_resource ==> component_name(is_resource, index) == "__lua_res_"@ + decimal(index),
        !is_resource ==> component_name(is_resource, index) == "__lua_comp_"@ + decimal(index),
{
    reveal_strlit("__lua_res");
    reveal_strlit("__lua_res_");
    reveal_strlit("__lua_comp");
    reveal_strlit("__lua_comp_");
    reveal_strlit("_");
    assert("__lua_res"@ + "_"@ =~= "__lua_res_"@);
    assert("__lua_comp"@ + "_"@ =~= "__lua_comp_"@);
}

/// Declaring a component type puts it behind those declared before, with its name, its fields and
/// what it is; and its marker holds its position and no number yet. Nothing else changes.
pub proof fn law_declaring_adds_one_type<F, M>(
    before: LoadContext<F, M>,
    after: LoadContext<F, M>,
    fields: Seq<(StrKey, LuauFieldType)>,
    is_resource: bool,
)
    requires
        declared_one(before, after, fields, is_resource),
    ensures
        after.pending_components@.len() == before.pending_components@.len() + 1,
        forall|i: int|
            0 <= i < before.pending_components@.len() ==> #[trigger] after.pending_components@[i]
                == before.pending_components@[i],
        after.pending_components@[before.pending_components@.len() as int].is_resource
            == is_resource,
        after.pending_components@[before.pending_components@.len() as int].fields@ == fields,
        after.pending_components@[before.pending_components@.len() as int].name@ == (
        if is_resource {
            "__lua_res_"@
        } else {
            "__lua_comp_"@
        }) + decimal(before.pending_components@.len()),
        after.pending_systems@ == before.pending_systems@,
        after.pending_observers@ == before.pending_observers@,
        next_marker(before).staging_idx == before.pending_components@.len(),
        next_marker(before).resolved_id is None,
{
    law_names_tell_kind_and_position(is_resource, before.pending_components@.len());
    assert(before.pending_components.len() == before.pending_components@.len());
    assert forall|i: int| 0 <= i < before.pending_components@.len() implies
        #[trigger] after.pending_components@[i] == before.pending_components@[i] by {
        assert(after.pending_components@.drop_last()[i] == after.pending_components@[i]);
    }
}

/// What is below a bound: parameters that name no component type at all are below any bound, and
/// the others where each position that they name is.
pub proof fn law_what_a_parameter_names(param: StagedParam, n: nat)
    ensures
        param is Commands || param is Time ==> param_below(param, n),
        param matches StagedParam::Resource(r) ==> (param_below(param, n) <==> r < n),
        param matches StagedParam::Query(q) ==> (param_below(param, n) <==> {
            &&& forall|i: int| 0 <= i < q.mutable@.len() ==> #[trigger] q.mutable@[i] < n
            &&& forall|i: int| 0 <= i < q.immutable@.len() ==> #[trigger] q.immutable@[i] < n
            &&& forall|i: int| 0 <= i < q.with@.len() ==> #[trigger] q.with@[i] < n
            &&& forall|i: int| 0 <= i < q.without@.len() ==> #[trigger] q.without@[i] < n
        }),
{
}

/// What is inferred from a model value: a field of its kind, as long as the value where that is a
/// buffer; nil, and values that no field can hold, are refused by the name of their type.
pub proof fn law_inferring_a_field(
    value: LuaValue,
    kind_name: &str,
    result: Result<LuauFieldType, RuntimeError>,
)
    requires
        call_ensures(infer_field_type, (&value, kind_name), result),
    ensures
        match value {
            LuaValue::Boolean(_) => result matches Ok(ft) && ft is Bool,
            LuaValue::Integer(_) => result matches Ok(ft) && ft is Integer,
            LuaValue::Number(_) => result matches Ok(ft) && ft is Number,
            LuaValue::Vector(..) => result matches Ok(ft) && ft is Vector4,
            LuaValue::String(_) => result matches Ok(ft) && ft is String,
            LuaValue::Buffer(b) => result matches Ok(LuauFieldType::Buffer(len)) && len == b@.len(),
            LuaValue::Nil | LuaValue::Other => result matches Err(e) && e.message@
                == "cannot infer field type from "@ + seq!['\''] + kind_name@ + seq!['\''],
        },
{
    law_models_are_of_their_kind(value);
    crate::text::law_names_are_quoted("cannot infer field type from "@, kind_name@);
}

/// What parsing a parameter list gives: for each entry a parameter of its own kind that holds what
/// the entry holds, at the entry's position. The first entry that could not be read, or is no
/// parameter, ends it, with its error or by the name of its type.
pub proof fn law_parsing_parameters<E>(
    items: Vec<Result<ParamValue, E>>,
    result: Result<Vec<StagedParam>, LuaError<E>>,
)
    requires
        call_ensures(parse_staged_params::<E>, (items,), result),
    ensures
        result matches Ok(params) ==> params@.len() == items@.len() && forall|i: int|
            0 <= i < items@.len() ==> (match #[trigger] items@[i] {
                Ok(ParamValue::Commands) => params@[i] is Commands,
                Ok(ParamValue::Time) => params@[i] is Time,
                Ok(ParamValue::Query(q)) => params@[i] == StagedParam::Query(q),
                Ok(ParamValue::Resource(idx)) => params@[i] == StagedParam::Resource(idx),
                _ => false,
            }),
        result matches Err(error) ==> exists|i: int|
            0 <= i < items@.len() && (forall|j: int|
                0 <= j < i ==> #[trigger] items@[j] is Ok && !(items@[j]->Ok_0 is Other)) && (
            match #[trigger] items@[i] {
                Err(e) => error == LuaError::<E>::External(e),
                Ok(ParamValue::Other(kind_name)) => error matches LuaError::Runtime(e) && e.message@
                    == "invalid param type "@ + seq!['\''] + kind_name@ + seq!['\''],
                _ => false,
            }),
{
    match result {
        Ok(params) => {
            assert forall|i: int| 0 <= i < items@.len() implies (match #[trigger] items@[i] {
                Ok(ParamValue::Commands) => params@[i] is Commands,
                Ok(ParamValue::Time) => params@[i] is Time,
                Ok(ParamValue::Query(q)) => params@[i] == StagedParam::Query(q),
                Ok(ParamValue::Resource(idx)) => params@[i] == StagedParam::Resource(idx),
                _ => false,
            }) by {
                assert(params@[i] == param_of(items@[i]->Ok_0));
            }
        },
        Err(error) => {
            let i = choose|i: int|
                0 <= i < items@.len() && !is_param(#[trigger] items@[i]) && (forall|j: int|
                    0 <= j < i ==> is_param(#[trigger] items@[j])) && match items@[i] {
                    Err(e) => error == LuaError::<E>::External(e),
                    Ok(value) => error matches LuaError::Runtime(e) && e.message@ == quoting(
                        "invalid param type "@,
                        value->Other_0@,
                    ),
                };
            assert(!is_param(items@[i]));
            if let Ok(ParamValue::Other(kind_name)) = items@[i] {
                crate::text::law_names_are_quoted("invalid param type "@, kind_name@);
            }
            assert forall|j: int| 0 <= j < i implies #[trigger] items@[j] is Ok && !(
            items@[j]->Ok_0 is Other) by {
                assert(is_param(items@[j]));
            }
        },
    }
}

/// Parameter lists that give the same parameters are the same.
pub proof fn law_parsing_tells_lists_apart<E>(
    a: Vec<Result<ParamValue, E>>,
    b: Vec<Result<ParamValue, E>>,
    params_a: Vec<StagedParam>,
    params_b: Vec<StagedParam>,
)
    requires
        call_ensures(parse_staged_params::<E>, (a,), Ok(params_a)),
        call_ensures(parse_staged_params::<E>, (b,), Ok(params_b)),
        params_a@ == params_b@,
    ensures
        a@ == b@,
{
    law_parsing_parameters(a, Ok(params_a));
    law_parsing_parameters(b, Ok(params_b));
    assert forall|i: int| 0 <= i < a@.len() implies a@[i] == b@[i] by {
        assert(params_a@[i] == params_b@[i]);
    }
    assert(a@ =~= b@);
}

/// A marker tells its number where it has one, and gets that at its position among all numbers; it
/// keeps its position.
pub proof fn law_markers_tell_their_numbers(
    marker: &mut LuaComponentMarker,
    position: usize,
    real_ids: &[ComponentId],
    before: LuaComponentMarker,
    after: LuaComponentMarker,
    result_before: Result<ComponentId, RuntimeError>,
    result_after: Result<ComponentId, RuntimeError>,
)
    requires
        position < real_ids@.len(),
        call_ensures(LuaComponentMarker::resolve, (marker, position, real_ids), ()),
        before == *old(marker),
        after == *final(marker),
        call_ensures(LuaComponentMarker::component_id, (&before,), result_before),
        call_ensures(LuaComponentMarker::component_id, (&after,), result_after),
    ensures
        result_after == Ok::<ComponentId, RuntimeError>(real_ids@[position as int]),
        after.staging_idx == before.staging_idx,
        match before.resolved_id {
            Some(id) => result_before == Ok::<ComponentId, RuntimeError>(id),
            None => result_before matches Err(e) && e.message@
                == "component marker not yet resolved"@,
        },
{
}

/// Declaring a system puts it behind those declared before, with its function, its schedule and its
/// parameters; declaring an observer puts it behind those declared before, with its function, its
/// parameters and the position of its event. Nothing else changes.
pub proof fn law_declaring_systems_and_observers<F, M>(
    ctx: &mut LoadContext<F, M>,
    other: &mut LoadContext<F, M>,
    func: F,
    schedule: LuaSchedule,
    event: LuaComponentMarker,
    params: Vec<StagedParam>,
)
    requires
        call_ensures(LoadContext::<F, M>::register_system, (ctx, func, schedule, params), ()),
        call_ensures(LoadContext::<F, M>::observe, (other, &event, func, params), ()),
    ensures
        final(ctx).pending_systems@.len() == old(ctx).pending_systems@.len() + 1,
        final(ctx).pending_systems@.drop_last() == old(ctx).pending_systems@,
        final(ctx).pending_systems@.last().func == func,
        final(ctx).pending_systems@.last().schedule == schedule,
        final(ctx).pending_systems@.last().params == params,
        final(ctx).pending_components@ == old(ctx).pending_components@,
        final(ctx).pending_observers@ == old(ctx).pending_observers@,
        final(ctx).component_markers@ == old(ctx).component_markers@,
        final(other).pending_observers@.len() == old(other).pending_observers@.len() + 1,
        final(other).pending_observers@.drop_last() == old(other).pending_observers@,
        final(other).pending_observers@.last().func == func,
        final(other).pending_observers@.last().event_idx == event.staging_idx,
        final(other).pending_observers@.last().params == params,
        final(other).pending_components@ == old(other).pending_components@,
        final(other).pending_systems@ == old(other).pending_systems@,
        final(other).component_markers@ == old(other).component_markers@,
{
    assert(final(ctx).pending_systems@.drop_last() =~= old(ctx).pending_systems@);
    assert(final(other).pending_observers@.drop_last() =~= old(other).pending_observers@);
}

/// The positions that one list of a query holds are those of its markers, in order; a list that is
/// absent holds none; a list that was not found, or in which an entry is no marker, gives the error
/// of that, the first such entry being the one that counts.
pub proof fn law_reading_positions<E>(
    found: Result<Option<Vec<Result<LuaComponentMarker, E>>>, E>,
    result: Result<Vec<usize>, E>,
)
    requires
        call_ensures(read_staging_ids::<E>, (found,), result),
    ensures
        found matches Err(e) ==> result == Err::<Vec<usize>, E>(e),
        found matches Ok(None) ==> (result matches Ok(ids) && ids@.len() == 0),
        found matches Ok(Some(items)) ==> match result {
            Ok(ids) => ids@.len() == items@.len() && forall|i: int|
                0 <= i < items@.len() ==> (#[trigger] items@[i] matches Ok(marker) && ids@[i]
                    == marker.staging_idx),
            Err(e) => exists|i: int|
                0 <= i < items@.len() && #[trigger] items@[i] == Err::<LuaComponentMarker, E>(e)
                    && forall|j: int| 0 <= j < i ==> (#[trigger] items@[j]) is Ok,
        },
{
    match result {
        Ok(ids) => {
            assert(list_is_good(found));
        },
        Err(e) => {
            assert(list_refused_with(found, e));
        },
    }
}

/// Outside of a load the functions for declaring things fail; during one they do what they do.
pub proof fn law_declaring_needs_a_load<C, T, E, F: FnOnce(C) -> Result<T, LuaError<E>>>(
    ctx: Option<C>,
    f: F,
    result: Result<T, LuaError<E>>,
)
    requires
        call_ensures(with_ctx::<C, T, E, F>, (ctx, f), result),
    ensures
        ctx matches Some(c) ==> f.ensures((c,), result),
        ctx is None ==> (result matches Err(LuaError::Runtime(e)) && e.message@
            == "Ecs API only available during script loading"@),
{
}

/// What a good load is: no more markers than component types, and nothing that speaks of a type at a
/// position where none was declared.
pub proof fn law_what_a_good_load_is<F, M>(ctx: LoadContext<F, M>, wf: bool)
    requires
        call_ensures(LoadContext::<F, M>::is_wf, (&ctx,), wf),
    ensures
        wf <==> {
            let n = ctx.pending_components@.len();
            &&& ctx.component_markers@.len() <= n
            &&& forall|i: int, j: int|
                0 <= i < ctx.pending_systems@.len() && 0 <= j < ctx.pending_systems@[i].params@.len()
                    ==> param_below(#[trigger] ctx.pending_systems@[i].params@[j], n)
            &&& forall|i: int|
                0 <= i < ctx.pending_observers@.len() ==> (
                #[trigger] ctx.pending_observers@[i]).event_idx < n
            &&& forall|i: int, j: int|
                0 <= i < ctx.pending_observers@.len() && 0 <= j
                    < ctx.pending_observers@[i].params@.len() ==> param_below(
                    #[trigger] ctx.pending_observers@[i].params@[j],
                    n,
                )
        },
{
    let n = ctx.pending_components@.len();
    if ctx.wf() {
        assert forall|i: int, j: int|
            0 <= i < ctx.pending_systems@.len() && 0 <= j
                < ctx.pending_systems@[i].params@.len() implies param_below(
            #[trigger] ctx.pending_systems@[i].params@[j],
            n,
        ) by {
            assert(params_below(ctx.pending_systems@[i].params@, n));
        }
        assert forall|i: int, j: int|
            0 <= i < ctx.pending_observers@.len() && 0 <= j
                < ctx.pending_observers@[i].params@.len() implies param_below(
            #[trigger] ctx.pending_observers@[i].params@[j],
            n,
        ) by {
            assert(params_below(ctx.pending_observers@[i].params@, n));
        }
    }
    if (forall|i: int, j: int|
        0 <= i < ctx.pending_systems@.len() && 0 <= j < ctx.pending_systems@[i].params@.len()
            ==> param_below(#[trigger] ctx.pending_systems@[i].params@[j], n)) && (forall|
        i: int,
        j: int,
    |
        0 <= i < ctx.pending_observers@.len() && 0 <= j < ctx.pending_observers@[i].params@.len()
            ==> param_below(#[trigger] ctx.pending_observers@[i].params@[j], n)) {
        assert forall|i: int| 0 <= i < ctx.pending_systems@.len() implies params_below(
            (#[trigger] ctx.pending_systems@[i]).params@,
            n,
        ) by {
            assert forall|j: int| 0 <= j < ctx.pending_systems@[i].params@.len() implies param_below(
                #[trigger] ctx.pending_systems@[i].params@[j],
                n,
            ) by {}
        }
        assert forall|i: int| 0 <= i < ctx.pending_observers@.len() implies params_below(
            (#[trigger] ctx.pending_observers@[i]).params@,
            n,
        ) by {
            assert forall|j: int| 0 <= j
                < ctx.pending_observers@[i].params@.len() implies param_below(
                #[trigger] ctx.pending_observers@[i].params@[j],
                n,
            ) by {}
        }
    }
}

/// The entry that a schema table is refused for is the first that declares no field: it could not be
/// read, its value is nil or one that no field can hold, or its name is not UTF-8.
pub proof fn law_the_first_refusal_counts<E>(
    items: Seq<Result<FieldModel, E>>,
    i: int,
    error: LuaError<E>,
)
    requires
        first_refusal(items, i, error),
    ensures
        0 <= i < items.len(),
        forall|j: int|
            0 <= j < i ==> (#[trigger] items[j] matches Ok(model) && !(model.value is Nil) && !(
            model.value is Other) && valid_utf8(model.key@)),
        match items[i] {
            Err(e) => error == LuaError::<E>::External(e),
            Ok(model) => if model.value is Nil || model.value is Other {
                error matches LuaError::Runtime(e) && e.message@ == quoting(
                    "cannot infer field type from "@,
                    model.kind_name@,
                )
            } else {
                !valid_utf8(model.key@) && error == LuaError::<E>::NotUtf8
            },
        },
{
    assert forall|j: int| 0 <= j < i implies (#[trigger] items[j] matches Ok(model) && !(
    model.value is Nil) && !(model.value is Other) && valid_utf8(model.key@)) by {
        assert(declares(items[j]));
    }
}

/// Collecting the fields of a schema table gives one for each entry, in order: under the key of the
/// name that the entry's bytes spell, which then has a handle, and of the kind of the entry's value.
pub proof fn law_collecting_fields<L, E, F: Fn(&str) -> L + Copy>(
    pool: &mut EngineStringPool<L>,
    items: Vec<Result<FieldModel, E>>,
    make: F,
    fields: Vec<(StrKey, LuauFieldType)>,
)
    requires
        call_ensures(
            collect_fields::<L, E, F>,
            (pool, items, make),
            Ok::<Vec<(StrKey, LuauFieldType)>, LuaError<E>>(fields),
        ),
        forall|j: int| 0 <= j < items@.len() ==> declares(#[trigger] items@[j]),
    ensures
        fields@.len() == items@.len(),
        old(pool).strings().is_prefix_of(final(pool).strings()),
        forall|i: int|
            0 <= i < items@.len() ==> {
                let field = #[trigger] fields@[i];
                let model = items@[i]->Ok_0;
                &&& 1 <= field.0.raw <= final(pool).strings().len()
                &&& final(pool).strings()[field.0.raw - 1] == decode_utf8(model.key@)
                &&& final(pool).bridge@.contains_key(field.0.raw)
                &&& of_kind(model.value, field.1)
                &&& model.value matches LuaValue::Buffer(b) ==> field.1.spec_size() == b@.len()
            },
{
    assert(fields@ == declared_fields(items@, final(pool).strings()));
    assert forall|i: int| 0 <= i < items@.len() implies {
        let field = #[trigger] fields@[i];
        let model = items@[i]->Ok_0;
        &&& 1 <= field.0.raw <= final(pool).strings().len()
        &&& final(pool).strings()[field.0.raw - 1] == decode_utf8(model.key@)
        &&& final(pool).bridge@.contains_key(field.0.raw)
        &&& of_kind(model.value, field.1)
        &&& model.value matches LuaValue::Buffer(b) ==> field.1.spec_size() == b@.len()
    } by {
        law_declared_fields_are_those_of_the_table(items@, *final(pool), i);
        assert(names_known(items@, *final(pool)));
        assert(final(pool).strings().contains(field_name(items@[i])));
    }
}

/// What staging a query gives: each list of the query holds the positions of the markers that were
/// found under its own key.
pub proof fn law_staging_a_query<
    E,
    R: Fn(&str) -> Result<Option<Vec<Result<LuaComponentMarker, E>>>, E>,
>(read: R, query: StagedQuery)
    requires
        call_ensures(stage_query::<E, R>, (read,), Ok::<StagedQuery, E>(query)),
    ensures
        exists|list: Option<Vec<Result<LuaComponentMarker, E>>>| #[trigger]
            read.ensures(("Mutable",), Ok(list)) && holds_positions(list, query.mutable@),
        exists|list: Option<Vec<Result<LuaComponentMarker, E>>>| #[trigger]
            read.ensures(("Immutable",), Ok(list)) && holds_positions(list, query.immutable@),
        exists|list: Option<Vec<Result<LuaComponentMarker, E>>>| #[trigger]
            read.ensures(("With",), Ok(list)) && holds_positions(list, query.with@),
        exists|list: Option<Vec<Result<LuaComponentMarker, E>>>| #[trigger]
            read.ensures(("Without",), Ok(list)) && holds_positions(list, query.without@),
{
    let result = Ok::<StagedQuery, E>(query);
    let lists = choose|lists: QueryLists<E>| #[trigger]
        lists_read(read, lists) && query_of(lists, result);
    law_queries_are_those_of_their_lists(read, lists, result);
    law_queries_hold_the_positions_of_their_markers(lists.mutable->Ok_0);
    law_queries_hold_the_positions_of_their_markers(lists.immutable->Ok_0);
    law_queries_hold_the_positions_of_their_markers(lists.with->Ok_0);
    law_queries_hold_the_positions_of_their_markers(lists.without->Ok_0);
    assert(read.ensures(("Mutable",), Ok(lists.mutable->Ok_0)));
    assert(read.ensures(("Immutable",), Ok(lists.immutable->Ok_0)));
    assert(read.ensures(("With",), Ok(lists.with->Ok_0)));
    assert(read.ensures(("Without",), Ok(lists.without->Ok_0)));
}

/// Whether `ids` are the positions that the markers in a list hold, in order; none where there is no
/// list.
pub open spec fn holds_positions<E>(
    list: Option<Vec<Result<LuaComponentMarker, E>>>,
    ids: Seq<usize>,
) -> bool {
    match list {
        None => ids.len() == 0,
        Some(items) => ids.len() == items@.len() && forall|i: int|
            0 <= i < items@.len() ==> (#[trigger] items@[i] matches Ok(marker) && ids[i]
                == marker.staging_idx),
    }
}

/// What declaring a component type comes to: it goes behind those declared before, with its name,
/// with a field for each entry of its table and in their order, and as what it is; its marker, which
/// was made for its position, goes behind the other markers.
pub proof fn law_declaring_a_type<
    F,
    M: Clone,
    L,
    E,
    N: Fn(&str) -> L + Copy,
    C: FnOnce(LuaComponentMarker) -> Result<M, E>,
>(
    ctx: &mut LoadContext<F, M>,
    pool: &mut EngineStringPool<L>,
    items: Vec<Result<FieldModel, E>>,
    is_resource: bool,
    make: N,
    create: C,
    result: Result<M, LuaError<E>>,
)
    requires
        call_ensures(
            LoadContext::<F, M>::register_schema::<L, E, N, C>,
            (ctx, pool, items, is_resource, make, create),
            result,
        ),
        forall|i: int| 0 <= i < items@.len() ==> declares(#[trigger] items@[i]),
    ensures
        final(ctx).pending_components@.len() == old(ctx).pending_components@.len() + 1,
        final(ctx).pending_components@.drop_last() == old(ctx).pending_components@,
        final(ctx).pending_systems@ == old(ctx).pending_systems@,
        final(ctx).pending_observers@ == old(ctx).pending_observers@,
        ({
            let index = old(ctx).pending_components@.len();
            let declared = final(ctx).pending_components@[index as int];
            &&& declared.is_resource == is_resource
            &&& declared.name@ == (if is_resource {
                "__lua_res_"@
            } else {
                "__lua_comp_"@
            }) + decimal(index)
            &&& declared.fields@.len() == items@.len()
            &&& forall|i: int|
                0 <= i < items@.len() ==> {
                    let field = #[trigger] declared.fields@[i];
                    let model = items@[i]->Ok_0;
                    &&& 1 <= field.0.raw <= final(pool).strings().len()
                    &&& final(pool).strings()[field.0.raw - 1] == decode_utf8(model.key@)
                    &&& of_kind(model.value, field.1)
                    &&& model.value matches LuaValue::Buffer(b) ==> field.1.spec_size() == b@.len()
                }
            &&& match result {
                Ok(marker) => {
                    &&& create.ensures(
                        (LuaComponentMarker { staging_idx: index as usize, resolved_id: None },),
                        Ok(marker),
                    )
                    &&& final(ctx).component_markers@.len() == old(ctx).component_markers@.len() + 1
                    &&& final(ctx).component_markers@.drop_last() == old(ctx).component_markers@
                    &&& cloned(marker, final(ctx).component_markers@.last())
                },
                Err(error) => {
                    &&& error is External
                    &&& create.ensures(
                        (LuaComponentMarker { staging_idx: index as usize, resolved_id: None },),
                        Err(error->External_0),
                    )
                    &&& final(ctx).component_markers@ == old(ctx).component_markers@
                },
            }
        }),
{
    let fields = declared_fields(items@, final(pool).strings());
    law_declaring_adds_one_type(*old(ctx), *final(ctx), fields, is_resource);
    assert forall|i: int| 0 <= i < items@.len() implies {
        let field = #[trigger] fields[i];
        let model = items@[i]->Ok_0;
        &&& 1 <= field.0.raw <= final(pool).strings().len()
        &&& final(pool).strings()[field.0.raw - 1] == decode_utf8(model.key@)
        &&& of_kind(model.value, field.1)
        &&& model.value matches LuaValue::Buffer(b) ==> field.1.spec_size() == b@.len()
    } by {
        law_declared_fields_are_those_of_the_table(items@, *final(pool), i);
    }
}

/// A schema table with an entry that declares no field declares nothing: what was declared before
/// stays, and the first such entry says with which error.
pub proof fn law_refusing_a_type<
    F,
    M: Clone,
    L,
    E,
    N: Fn(&str) -> L + Copy,
    C: FnOnce(LuaComponentMarker) -> Result<M, E>,
>(
    ctx: &mut LoadContext<F, M>,
    pool: &mut EngineStringPool<L>,
    items: Vec<Result<FieldModel, E>>,
    is_resource: bool,
    make: N,
    create: C,
    result: Result<M, LuaError<E>>,
    i: int,
)
    requires
        call_ensures(
            LoadContext::<F, M>::register_schema::<L, E, N, C>,
            (ctx, pool, items, is_resource, make, create),
            result,
        ),
        0 <= i < items@.len(),
        !declares(items@[i]),
        forall|j: int| 0 <= j < i ==> declares(#[trigger] items@[j]),
    ensures
        *final(ctx) == *old(ctx),
        result is Err,
        match items@[i] {
            Err(e) => result->Err_0 == LuaError::<E>::External(e),
            Ok(model) => if model.value is Nil || model.value is Other {
                result->Err_0 matches LuaError::Runtime(e) && e.message@ == quoting(
                    "cannot infer field type from "@,
                    model.kind_name@,
                )
            } else {
                result->Err_0 == LuaError::<E>::NotUtf8
            },
        },
{
    assert(!(forall|j: int| 0 <= j < items@.len() ==> declares(#[trigger] items@[j])));
    let k = choose|k: int| #[trigger]
        first_refusal(items@, k, result->Err_0) && final(pool).strings() == names_interned(
            old(pool).strings(),
            items@,
            k,
        );
    if k < i {
        assert(declares(items@[k]));
    }
    if i < k {
        assert(declares(items@[i]));
    }
}

} // verus!
