//! Queries: what is asked of the entity component system, the rows that a script sees, and what is
//! written back from them.

use vstd::prelude::*;

use crate::bridge::{field_bytes, holds_values, law_component_round_trip, FieldMap};
use crate::bytes::ByteOrder;
use crate::entity::{entity_from_script, entity_to_script, is_entity};
use crate::layout::LuauFieldType;
use crate::pool::{key_of, lemma_key_of, lemma_key_stable};
use crate::runtime::ResolvedQuery;
use crate::schema::{fields_fit, ComponentId};
use crate::value::{
    decoded, kept_data, law_saying_the_same, of_kind, padded, says, storable, text_of, LuaValue,
};

verus! {

/// One condition that a query puts on entities.
#[derive(Clone, Copy, Debug, PartialEq, Eq, Structural)]
pub enum QueryTerm {
    /// The entity has this component, which is written.
    Mut(ComponentId),
    /// The entity has this component, which is read.
    Ref(ComponentId),
    /// The entity has this component.
    With(ComponentId),
    /// The entity does not have this component.
    Without(ComponentId),
}

/// The conditions that a query puts on entities, in the order in which they are put.
pub open spec fn terms_of(desc: ResolvedQuery) -> Seq<QueryTerm> {
    desc.mutable@.map_values(|id: ComponentId| QueryTerm::Mut(id)) + desc.immutable@.map_values(
        |id: ComponentId| QueryTerm::Ref(id),
    ) + desc.with@.map_values(|id: ComponentId| QueryTerm::With(id)) + desc.without@.map_values(
        |id: ComponentId| QueryTerm::Without(id),
    )
}

/// The conditions that a query puts on entities, in the order in which they are put.
pub fn query_terms(desc: &ResolvedQuery) -> (terms: Vec<QueryTerm>)
    ensures
        terms@ == terms_of(*desc),
{
    let ghost mutable = |id: ComponentId| QueryTerm::Mut(id);
    let ghost immutable = |id: ComponentId| QueryTerm::Ref(id);
    let ghost with = |id: ComponentId| QueryTerm::With(id);
    let ghost without = |id: ComponentId| QueryTerm::Without(id);
    let mut terms: Vec<QueryTerm> = Vec::new();
    for i in 0..desc.mutable.len()
        invariant
            mutable == (|id: ComponentId| QueryTerm::Mut(id)),
            terms@ == desc.mutable@.take(i as int).map_values(mutable),
    {
        terms.push(QueryTerm::Mut(desc.mutable[i]));
        assert(terms@ =~= desc.mutable@.take(i + 1).map_values(mutable));
    }
    assert(desc.mutable@.take(desc.mutable@.len() as int) =~= desc.mutable@);
    let ghost first = terms@;
    for i in 0..desc.immutable.len()
        invariant
            immutable == (|id: ComponentId| QueryTerm::Ref(id)),
            terms@ == first + desc.immutable@.take(i as int).map_values(immutable),
    {
        terms.push(QueryTerm::Ref(desc.immutable[i]));
        assert(terms@ =~= first + desc.immutable@.take(i + 1).map_values(immutable));
    }
    assert(desc.immutable@.take(desc.immutable@.len() as int) =~= desc.immutable@);
    let ghost second = terms@;
    for i in 0..desc.with.len()
        invariant
            with == (|id: ComponentId| QueryTerm::With(id)),
            terms@ == second + desc.with@.take(i as int).map_values(with),
    {
        terms.push(QueryTerm::With(desc.with[i]));
        assert(terms@ =~= second + desc.with@.take(i + 1).map_values(with));
    }
    assert(desc.with@.take(desc.with@.len() as int) =~= desc.with@);
    let ghost third = terms@;
    for i in 0..desc.without.len()
        invariant
            without == (|id: ComponentId| QueryTerm::Without(id)),
            terms@ == third + desc.without@.take(i as int).map_values(without),
    {
        terms.push(QueryTerm::Without(desc.without[i]));
        assert(terms@ =~= third + desc.without@.take(i + 1).map_values(without));
    }
    assert(desc.without@.take(desc.without@.len() as int) =~= desc.without@);
    assert(terms@ =~= terms_of(*desc));
    terms
}

/// An entity that a query found, with the tables of its components. `T` stands for tables.
#[derive(Clone, Debug, PartialEq, Eq)]
pub struct SnapshotRow<T> {
    pub entity: u64,
    pub mutable_tables: Vec<T>,
    pub immutable_tables: Vec<T>,
}

/// What a query found when a script began to run.
#[derive(Clone, Debug, PartialEq, Eq)]
pub struct QuerySnapshot<T> {
    pub desc: ResolvedQuery,
    pub rows: Vec<SnapshotRow<T>>,
}

/// The values that are there, in order.
pub open spec fn present<T>(answers: Seq<Option<T>>) -> Seq<T>
    decreases answers.len(),
{
    if answers.len() == 0 {
        Seq::empty()
    } else {
        match answers.last() {
            Some(value) => present(answers.drop_last()).push(value),
            None => present(answers.drop_last()),
        }
    }
}

/// Whether `answers` is what `fetch` answers for the components of an entity, one for each.
pub open spec fn answered<T, E, G: Fn(u64, ComponentId) -> Result<Option<T>, E>>(
    fetch: G,
    entity: u64,
    ids: Seq<ComponentId>,
    answers: Seq<Option<T>>,
) -> bool {
    &&& answers.len() == ids.len()
    &&& forall|i: int|
        0 <= i < ids.len() ==> fetch.ensures((entity, #[trigger] ids[i]), Ok(answers[i]))
}

/// Whether `tables` holds what `fetch` finds of the components of an entity.
pub open spec fn fetched<T, E, G: Fn(u64, ComponentId) -> Result<Option<T>, E>>(
    fetch: G,
    entity: u64,
    ids: Seq<ComponentId>,
    tables: Seq<T>,
) -> bool {
    exists|answers: Seq<Option<T>>| #[trigger]
        answered(fetch, entity, ids, answers) && tables == present(answers)
}

/// Whether `error` is one that `fetch` may fail with for a component of an entity.
pub open spec fn fetch_can_fail<T, E, G: Fn(u64, ComponentId) -> Result<Option<T>, E>>(
    fetch: G,
    entity: u64,
    ids: Seq<ComponentId>,
    error: E,
) -> bool {
    exists|i: int|
        0 <= i < ids.len() && fetch.ensures(
            (entity, #[trigger] ids[i]),
            Err::<Option<T>, E>(error),
        )
}

/// The tables of those of an entity's components that `fetch` finds.
pub fn fetch_tables<T, E, G: Fn(u64, ComponentId) -> Result<Option<T>, E>>(
    fetch: &G,
    entity: u64,
    ids: &Vec<ComponentId>,
) -> (result: Result<Vec<T>, E>)
    requires
        forall|e: u64, id: ComponentId| fetch.requires((e, id)),
    ensures
        result matches Ok(tables) ==> fetched(*fetch, entity, ids@, tables@),
        result matches Err(error) ==> fetch_can_fail(*fetch, entity, ids@, error),
{
    let ghost mut answers: Seq<Option<T>> = Seq::empty();
    let mut tables: Vec<T> = Vec::new();
    for i in 0..ids.len()
        invariant
            forall|e: u64, id: ComponentId| fetch.requires((e, id)),
            answers.len() == i,
            forall|j: int|
                0 <= j < i ==> fetch.ensures((entity, #[trigger] ids@[j]), Ok(answers[j])),
            tables@ == present(answers),
    {
        let answer = match fetch(entity, ids[i]) {
            Ok(answer) => answer,
            Err(e) => {
                assert(fetch.ensures((entity, ids@[i as int]), Err::<Option<T>, E>(e)));
                return Err(e);
            },
        };
        proof {
            let before = answers;
            answers = answers.push(answer);
            assert(answers.drop_last() =~= before);
        }
        if let Some(table) = answer {
            tables.push(table);
        }
    }
    assert(answered(*fetch, entity, ids@, answers));
    Ok(tables)
}

/// Whether a row holds what `fetch` finds of the components that a query asks for.
pub open spec fn row_fetched<T, E, G: Fn(u64, ComponentId) -> Result<Option<T>, E>>(
    fetch: G,
    desc: ResolvedQuery,
    row: SnapshotRow<T>,
) -> bool {
    &&& fetched(fetch, row.entity, desc.mutable@, row.mutable_tables@)
    &&& fetched(fetch, row.entity, desc.immutable@, row.immutable_tables@)
}

/// What a query found: a row for each entity, with the tables that `fetch` finds. The first
/// failure of `fetch` ends it.
pub fn snapshot_query<T, E, G: Fn(u64, ComponentId) -> Result<Option<T>, E>>(
    desc: &ResolvedQuery,
    entities: &Vec<u64>,
    fetch: &G,
) -> (result: Result<QuerySnapshot<T>, E>)
    requires
        forall|e: u64, id: ComponentId| fetch.requires((e, id)),
    ensures
        result matches Ok(snapshot) ==> {
            &&& snapshot.desc.same_as(*desc)
            &&& snapshot.rows@.len() == entities@.len()
            &&& forall|i: int|
                0 <= i < entities@.len() ==> (#[trigger] snapshot.rows@[i]).entity == entities@[i]
                    && row_fetched(*fetch, *desc, snapshot.rows@[i])
        },
        result matches Err(error) ==> exists|i: int|
            0 <= i < entities@.len() && (fetch_can_fail(
                *fetch,
                #[trigger] entities@[i],
                desc.mutable@,
                error,
            ) || fetch_can_fail(*fetch, entities@[i], desc.immutable@, error)),
{
    let mut rows: Vec<SnapshotRow<T>> = Vec::new();
    for i in 0..entities.len()
        invariant
            forall|e: u64, id: ComponentId| fetch.requires((e, id)),
            rows@.len() == i,
            forall|j: int|
                0 <= j < i ==> (#[trigger] rows@[j]).entity == entities@[j] && row_fetched(
                    *fetch,
                    *desc,
                    rows@[j],
                ),
    {
        let entity: u64 = entities[i];
        let mutable_tables = match fetch_tables(fetch, entity, &desc.mutable) {
            Ok(tables) => tables,
            Err(e) => {
                assert(fetch_can_fail(*fetch, entities@[i as int], desc.mutable@, e));
                return Err(e);
            },
        };
        let immutable_tables = match fetch_tables(fetch, entity, &desc.immutable) {
            Ok(tables) => tables,
            Err(e) => {
                assert(fetch_can_fail(*fetch, entities@[i as int], desc.immutable@, e));
                return Err(e);
            },
        };
        rows.push(SnapshotRow { entity, mutable_tables, immutable_tables });
    }
    Ok(QuerySnapshot { desc: desc.clone(), rows })
}

/// What a script gets in one step of walking a snapshot.
#[derive(Debug, PartialEq, Eq)]
pub struct ScriptRow<'a, T> {
    pub entity_bits: i64,
    pub tables: Vec<&'a T>,
}

/// Whether row `i` is the first of the entity.
pub open spec fn first_row_of<T>(rows: Seq<SnapshotRow<T>>, entity: u64, i: int) -> bool {
    &&& 0 <= i < rows.len()
    &&& rows[i].entity == entity
    &&& forall|j: int| 0 <= j < i ==> (#[trigger] rows[j]).entity != entity
}

/// Whether one of the rows is that of the entity.
pub open spec fn has_row_of<T>(rows: Seq<SnapshotRow<T>>, entity: u64) -> bool {
    exists|i: int| 0 <= i < rows.len() && (#[trigger] rows[i]).entity == entity
}

impl<T> QuerySnapshot<T> {
    /// The tables that a script may write of an entity; none where the query did not find it.
    pub fn get(&self, entity_bits: i64) -> (tables: Option<&Vec<T>>)
        requires
            is_entity(entity_bits as u64),
        ensures
            tables is None <==> forall|i: int|
                0 <= i < self.rows@.len() ==> (#[trigger] self.rows@[i]).entity
                    != entity_bits as u64,
            tables matches Some(found) ==> exists|i: int| #[trigger]
                first_row_of(self.rows@, entity_bits as u64, i) && *found
                    == self.rows@[i].mutable_tables,
            tables matches Some(found) ==> exists|i: int|
                0 <= i < self.rows@.len() && (#[trigger] self.rows@[i]).entity == entity_bits as u64
                    && (forall|j: int| 0 <= j < i ==> (#[trigger] self.rows@[j]).entity
                    != entity_bits as u64) && found@ == self.rows@[i].mutable_tables@,
            tables is Some <==> has_row_of(self.rows@, entity_bits as u64),
    {
        let entity: u64 = entity_from_script(entity_bits).unwrap();
        for i in 0..self.rows.len()
            invariant
                entity == entity_bits as u64,
                forall|j: int| 0 <= j < i ==> (#[trigger] self.rows@[j]).entity != entity,
        {
            if self.rows[i].entity == entity {
                assert(first_row_of(self.rows@, entity, i as int));
                return Some(&self.rows[i].mutable_tables);
            }
        }
        None
    }

    /// What a script gets in step `index` of walking the snapshot: the entity, the tables that it
    /// may write, and those that it may only read. Behind the last row there is nothing.
    pub fn step(&self, index: usize) -> (row: Option<ScriptRow<'_, T>>)
        ensures
            row is Some <==> index < self.rows@.len(),
            row matches Some(r) ==> {
                let source = self.rows@[index as int];
                &&& r.entity_bits == source.entity as i64
                &&& r.tables@ == source.mutable_tables@.map_values(|t: T| &t)
                    + source.immutable_tables@.map_values(|t: T| &t)
            },
    {
        if index >= self.rows.len() {
            return None;
        }
        let row = &self.rows[index];
        let ghost borrowed = |t: T| &t;
        let mut tables: Vec<&T> = Vec::new();
        for i in 0..row.mutable_tables.len()
            invariant
                borrowed == (|t: T| &t),
                tables@ == row.mutable_tables@.take(i as int).map_values(borrowed),
        {
            tables.push(&row.mutable_tables[i]);
            assert(tables@ =~= row.mutable_tables@.take(i + 1).map_values(borrowed));
        }
        assert(row.mutable_tables@.take(row.mutable_tables@.len() as int) =~= row.mutable_tables@);
        let ghost first = tables@;
        for i in 0..row.immutable_tables.len()
            invariant
                borrowed == (|t: T| &t),
                tables@ == first + row.immutable_tables@.take(i as int).map_values(borrowed),
        {
            tables.push(&row.immutable_tables[i]);
            assert(tables@ =~= first + row.immutable_tables@.take(i + 1).map_values(borrowed));
        }
        assert(row.immutable_tables@.take(row.immutable_tables@.len() as int)
            =~= row.immutable_tables@);
        Some(ScriptRow { entity_bits: entity_to_script(row.entity), tables })
    }
}

/// One table of a snapshot to be written back: to which component of which entity, and where in
/// the snapshot the table is.
#[derive(Clone, Copy, Debug, PartialEq, Eq, Structural)]
pub struct WriteBack {
    pub entity: u64,
    pub component_id: ComponentId,
    pub row: usize,
    pub table: usize,
}

/// How many tables of a row are written back: each writable table has its component type, as far
/// as both go.
pub open spec fn paired<T>(desc: ResolvedQuery, row: SnapshotRow<T>) -> int {
    if desc.mutable@.len() < row.mutable_tables@.len() {
        desc.mutable@.len() as int
    } else {
        row.mutable_tables@.len() as int
    }
}

/// The write-backs of row `row`, for its first `n` tables.
pub open spec fn row_write_backs<T>(snapshot: QuerySnapshot<T>, row: int, n: int) -> Seq<WriteBack> {
    Seq::new(
        n as nat,
        |k: int|
            WriteBack {
                entity: snapshot.rows@[row].entity,
                component_id: snapshot.desc.mutable@[k],
                row: row as usize,
                table: k as usize,
            },
    )
}

/// The write-backs of the first `n` rows.
pub open spec fn write_backs<T>(snapshot: QuerySnapshot<T>, n: int) -> Seq<WriteBack>
    decreases n,
{
    if n <= 0 {
        Seq::empty()
    } else {
        write_backs(snapshot, n - 1) + row_write_backs(
            snapshot,
            n - 1,
            paired(snapshot.desc, snapshot.rows@[n - 1]),
        )
    }
}

/// What is written back from a snapshot, in order. Only tables that a script may write are.
pub fn writeback_snapshot<T>(snapshot: &QuerySnapshot<T>) -> (plan: Vec<WriteBack>)
    ensures
        plan@ == write_backs(*snapshot, snapshot.rows@.len() as int),
{
    let mut plan: Vec<WriteBack> = Vec::new();
    for i in 0..snapshot.rows.len()
        invariant
            plan@ == write_backs(*snapshot, i as int),
    {
        let row = &snapshot.rows[i];
        let n: usize = if snapshot.desc.mutable.len() < row.mutable_tables.len() {
            snapshot.desc.mutable.len()
        } else {
            row.mutable_tables.len()
        };
        let ghost start = plan@;
        for k in 0..n
            invariant
                i < snapshot.rows@.len(),
                *row == snapshot.rows@[i as int],
                n <= snapshot.desc.mutable@.len(),
                plan@ == start + row_write_backs(*snapshot, i as int, k as int),
        {
            plan.push(
                WriteBack {
                    entity: row.entity,
                    component_id: snapshot.desc.mutable[k],
                    row: i,
                    table: k,
                },
            );
            assert(plan@ =~= start + row_write_backs(*snapshot, i as int, k + 1));
        }
    }
    plan
}

/// Where as many values are present as were asked for, each answer is its value.
proof fn lemma_all_present<T>(answers: Seq<Option<T>>)
    ensures
        present(answers).len() <= answers.len(),
        present(answers).len() == answers.len() ==> forall|i: int|
            0 <= i < answers.len() ==> #[trigger] answers[i] == Some(present(answers)[i]),
    decreases answers.len(),
{
    if answers.len() > 0 {
        let before = answers.drop_last();
        lemma_all_present(before);
        if present(answers).len() == answers.len() {
            assert forall|i: int| 0 <= i < answers.len() implies #[trigger] answers[i] == Some(
                present(answers)[i],
            ) by {
                if i < before.len() {
                    assert(before[i] == answers[i]);
                }
            }
        }
    }
}

/// Whether step `w` writes back a table that the snapshot holds, to a component type that the
/// query asked to write.
pub open spec fn writes_back<T>(snapshot: QuerySnapshot<T>, w: WriteBack) -> bool {
    &&& w.row < snapshot.rows@.len()
    &&& w.entity == snapshot.rows@[w.row as int].entity
    &&& w.table < snapshot.rows@[w.row as int].mutable_tables@.len()
    &&& w.table < snapshot.desc.mutable@.len()
    &&& w.component_id == snapshot.desc.mutable@[w.table as int]
}

/// The write-backs of the first `n` rows write back what the snapshot holds.
proof fn lemma_write_backs<T>(snapshot: QuerySnapshot<T>, n: int)
    requires
        0 <= n <= snapshot.rows@.len(),
    ensures
        forall|k: int|
            0 <= k < write_backs(snapshot, n).len() ==> writes_back(
                snapshot,
                #[trigger] write_backs(snapshot, n)[k],
            ),
        forall|w: WriteBack|
            writes_back(snapshot, w) && w.row < n ==> #[trigger] write_backs(snapshot, n).contains(w),
    decreases n,
{
    assert(snapshot.rows.len() == snapshot.rows@.len());
    assert(snapshot.desc.mutable.len() == snapshot.desc.mutable@.len());
    if n > 0 {
        lemma_write_backs(snapshot, n - 1);
        let before = write_backs(snapshot, n - 1);
        let added = row_write_backs(
            snapshot,
            n - 1,
            paired(snapshot.desc, snapshot.rows@[n - 1]),
        );
        let all = write_backs(snapshot, n);
        assert forall|k: int| 0 <= k < all.len() implies writes_back(snapshot, #[trigger] all[k]) by {
            if k < before.len() {
                assert(all[k] == before[k]);
            } else {
                assert(all[k] == added[k - before.len()]);
            }
        }
        assert forall|w: WriteBack|
            writes_back(snapshot, w) && w.row < n implies #[trigger] all.contains(w) by {
            if w.row < n - 1 {
                assert(before.contains(w));
                let k = choose|k: int| 0 <= k < before.len() && before[k] == w;
                assert(all[k] == w);
            } else {
                assert(added[w.table as int] == w);
                assert(all[before.len() + w.table] == w);
            }
        }
    }
}

/// What is written back from a snapshot is what a script may have written, all of it and nothing
/// else: no component type is written that the query did not ask to write.
pub proof fn law_writable_tables_are_written_back<T>(snapshot: QuerySnapshot<T>, w: WriteBack)
    ensures
        write_backs(snapshot, snapshot.rows@.len() as int).contains(w) <==> writes_back(
            snapshot,
            w,
        ),
{
    let n = snapshot.rows@.len() as int;
    lemma_write_backs(snapshot, n);
    if write_backs(snapshot, n).contains(w) {
        let k = choose|k: int|
            0 <= k < write_backs(snapshot, n).len() && write_backs(snapshot, n)[k] == w;
        assert(writes_back(snapshot, write_backs(snapshot, n)[k]));
    }
}

/// Where all components that a row was asked for were found, each of its tables goes back to the
/// component that it was read from.
pub proof fn law_tables_return_to_their_components<
    T,
    E,
    G: Fn(u64, ComponentId) -> Result<Option<T>, E>,
>(snapshot: QuerySnapshot<T>, fetch: G, w: WriteBack)
    requires
        writes_back(snapshot, w),
        row_fetched(fetch, snapshot.desc, snapshot.rows@[w.row as int]),
        snapshot.rows@[w.row as int].mutable_tables@.len() == snapshot.desc.mutable@.len(),
    ensures
        fetch.ensures(
            (w.entity, w.component_id),
            Ok(Some(snapshot.rows@[w.row as int].mutable_tables@[w.table as int])),
        ),
{
    let row = snapshot.rows@[w.row as int];
    let ids = snapshot.desc.mutable@;
    let answers = choose|answers: Seq<Option<T>>| #[trigger]
        answered(fetch, row.entity, ids, answers) && row.mutable_tables@ == present(answers);
    lemma_all_present(answers);
    assert(fetch.ensures((row.entity, ids[w.table as int]), Ok(answers[w.table as int])));
}

/// The components of a world, by entity and component type.
pub type Components = Map<(u64, ComponentId), Seq<u8>>;

/// The components once the first `n` steps of a plan were carried out; `made` is what the table of
/// a step is made into.
pub open spec fn components_written(
    components: Components,
    plan: Seq<WriteBack>,
    made: spec_fn(WriteBack) -> Seq<u8>,
    n: int,
) -> Components
    decreases n,
{
    if n <= 0 {
        components
    } else {
        components_written(components, plan, made, n - 1).insert(
            (plan[n - 1].entity, plan[n - 1].component_id),
            made(plan[n - 1]),
        )
    }
}

/// What a component is once the first `n` steps were carried out: as before where no step is for
/// it, and what such a step makes where one is.
proof fn lemma_components_written(
    components: Components,
    plan: Seq<WriteBack>,
    made: spec_fn(WriteBack) -> Seq<u8>,
    n: int,
    at: (u64, ComponentId),
)
    requires
        0 <= n <= plan.len(),
    ensures
        ({
            let after = components_written(components, plan, made, n);
            ||| after.contains_key(at) == components.contains_key(at) && after[at]
                == components[at] && forall|k: int|
                0 <= k < n ==> ((#[trigger] plan[k]).entity, plan[k].component_id) != at
            ||| after.contains_key(at) && exists|k: int|
                0 <= k < n && ((#[trigger] plan[k]).entity, plan[k].component_id) == at && after[at]
                    == made(plan[k])
        }),
    decreases n,
{
    if n > 0 {
        lemma_components_written(components, plan, made, n - 1, at);
        if (plan[n - 1].entity, plan[n - 1].component_id) == at {
            assert(components_written(components, plan, made, n)[at] == made(plan[n - 1]));
        }
    }
}

/// Writing a snapshot back leaves alone each component that the query did not ask to write, and
/// each component of an entity that it did not find.
pub proof fn law_write_back_leaves_others_alone<T>(
    snapshot: QuerySnapshot<T>,
    components: Components,
    made: spec_fn(WriteBack) -> Seq<u8>,
    entity: u64,
    id: ComponentId,
)
    requires
        !snapshot.desc.mutable@.contains(id) || forall|i: int|
            0 <= i < snapshot.rows@.len() ==> (#[trigger] snapshot.rows@[i]).entity != entity,
    ensures
        ({
            let plan = write_backs(snapshot, snapshot.rows@.len() as int);
            let after = components_written(components, plan, made, plan.len() as int);
            &&& after.contains_key((entity, id)) == components.contains_key((entity, id))
            &&& after[(entity, id)] == components[(entity, id)]
        }),
{
    let plan = write_backs(snapshot, snapshot.rows@.len() as int);
    lemma_write_backs(snapshot, snapshot.rows@.len() as int);
    lemma_components_written(components, plan, made, plan.len() as int, (entity, id));
    assert forall|k: int| 0 <= k < plan.len() implies (
    (#[trigger] plan[k]).entity, plan[k].component_id) != (entity, id) by {
        assert(writes_back(snapshot, plan[k]));
        assert(snapshot.desc.mutable@[plan[k].table as int] == plan[k].component_id);
        assert(snapshot.rows@[plan[k].row as int].entity == plan[k].entity);
    }
}

/// Where two steps are for the same component, the last one counts.
proof fn lemma_last_step_counts(
    components: Components,
    plan: Seq<WriteBack>,
    made: spec_fn(WriteBack) -> Seq<u8>,
    k: int,
    n: int,
)
    requires
        last_for_its_component(plan, k),
        k < n <= plan.len(),
    ensures
        components_written(components, plan, made, n).contains_key(
            (plan[k].entity, plan[k].component_id),
        ),
        components_written(components, plan, made, n)[(plan[k].entity, plan[k].component_id)]
            == made(plan[k]),
    decreases n,
{
    if n > k + 1 {
        lemma_last_step_counts(components, plan, made, k, n - 1);
        assert((plan[n - 1].entity, plan[n - 1].component_id) != (
            plan[k].entity,
            plan[k].component_id,
        ));
    }
}

/// Whether step `k` is the last in a plan for its component.
pub open spec fn last_for_its_component(plan: Seq<WriteBack>, k: int) -> bool {
    &&& 0 <= k < plan.len()
    &&& forall|j: int|
        k < j < plan.len() ==> ((#[trigger] plan[j]).entity, plan[j].component_id) != (
            plan[k].entity,
            plan[k].component_id,
        )
}

/// Writing a snapshot back leaves each component that it writes as the last table for it says. A
/// query that names a component type twice gives a script two tables for it, of which the later
/// counts.
pub proof fn law_write_back_keeps_edits<T>(
    snapshot: QuerySnapshot<T>,
    components: Components,
    made: spec_fn(WriteBack) -> Seq<u8>,
    k: int,
)
    requires
        last_for_its_component(write_backs(snapshot, snapshot.rows@.len() as int), k),
    ensures
        ({
            let plan = write_backs(snapshot, snapshot.rows@.len() as int);
            let after = components_written(components, plan, made, plan.len() as int);
            &&& after.contains_key((plan[k].entity, plan[k].component_id))
            &&& after[(plan[k].entity, plan[k].component_id)] == made(plan[k])
        }),
{
    let plan = write_backs(snapshot, snapshot.rows@.len() as int);
    lemma_last_step_counts(components, plan, made, k, plan.len() as int);
}

/// Each component that a snapshot has a table for is written by a last step.
pub proof fn law_each_written_component_has_a_last_step<T>(
    snapshot: QuerySnapshot<T>,
    w: WriteBack,
) -> (k: int)
    requires
        writes_back(snapshot, w),
    ensures
        last_for_its_component(write_backs(snapshot, snapshot.rows@.len() as int), k),
        write_backs(snapshot, snapshot.rows@.len() as int)[k].entity == w.entity,
        write_backs(snapshot, snapshot.rows@.len() as int)[k].component_id == w.component_id,
{
    let plan = write_backs(snapshot, snapshot.rows@.len() as int);
    lemma_write_backs(snapshot, snapshot.rows@.len() as int);
    assert(plan.contains(w));
    let there = choose|k: int| 0 <= k < plan.len() && plan[k] == w;
    lemma_last_step(plan, there, there, there + 1)
}

/// Looks for the last step for a component: `found` is the last one before `n`.
proof fn lemma_last_step(plan: Seq<WriteBack>, first: int, found: int, n: int) -> (k: int)
    requires
        0 <= first < plan.len(),
        0 <= found < n <= plan.len(),
        plan[found].entity == plan[first].entity,
        plan[found].component_id == plan[first].component_id,
        forall|j: int|
            found < j < n ==> ((#[trigger] plan[j]).entity, plan[j].component_id) != (
                plan[first].entity,
                plan[first].component_id,
            ),
    ensures
        last_for_its_component(plan, k),
        plan[k].entity == plan[first].entity,
        plan[k].component_id == plan[first].component_id,
    decreases plan.len() - n,
{
    if n == plan.len() {
        found
    } else if (plan[n].entity, plan[n].component_id) == (
        plan[first].entity,
        plan[first].component_id,
    ) {
        lemma_last_step(plan, first, n, n + 1)
    } else {
        lemma_last_step(plan, first, found, n + 1)
    }
}

/// A value that is of its field's kind, and as long as the field where it is a buffer, is what the
/// field says once it was stored.
proof fn lemma_kept_says(
    value: LuaValue,
    ft: LuauFieldType,
    strings: Seq<Seq<char>>,
    later: Seq<Seq<char>>,
)
    requires
        of_kind(value, ft),
        storable(value, ft),
        value matches LuaValue::Buffer(b) ==> b@.len() == ft.spec_size(),
        text_of(value, ft) matches Some(t) ==> strings.contains(t),
        strings.is_prefix_of(later),
        later.no_duplicates(),
        later.len() <= u32::MAX,
    ensures
        says(value, kept_data(value, ft, strings), later),
        kept_data(value, ft, strings) == kept_data(value, ft, later),
{
    if let Some(t) = text_of(value, ft) {
        lemma_key_of(strings, t);
        lemma_key_stable(strings, later, t);
        assert(later[key_of(strings, t) - 1] == strings[key_of(strings, t) - 1]);
    }
    if let LuaValue::Buffer(b) = value {
        assert(padded(b@, ft.spec_size()) =~= b@);
    }
}

/// Writing a snapshot back, where tables hold values of their fields' kinds: step `k`, the last for
/// its component, leaves each field of it saying what the table says, and as before where the
/// table says what the field said; components that the query did not ask to write, or of entities
/// that it did not find, are left alone. `strings` are those interned when the step was carried
/// out, and `later` those interned in the end.
pub proof fn law_write_back_over_values<T>(
    snapshot: QuerySnapshot<T>,
    components: Components,
    made: spec_fn(WriteBack) -> Seq<u8>,
    k: int,
    fields: FieldMap,
    values: Map<u32, LuaValue>,
    strings: Seq<Seq<char>>,
    later: Seq<Seq<char>>,
    order: ByteOrder,
)
    requires
        last_for_its_component(write_backs(snapshot, snapshot.rows@.len() as int), k),
        holds_values(
            made(write_backs(snapshot, snapshot.rows@.len() as int)[k]),
            fields,
            values,
            strings,
            order,
        ),
        forall|f: u32| #[trigger]
            fields.contains_key(f) ==> of_kind(values[f], fields[f].1) && (values[f] matches
                LuaValue::Buffer(b) ==> b@.len() == fields[f].1.spec_size()),
        strings.is_prefix_of(later),
        later.no_duplicates(),
        later.len() <= u32::MAX,
    ensures
        ({
            let plan = write_backs(snapshot, snapshot.rows@.len() as int);
            let after = components_written(components, plan, made, plan.len() as int);
            let at = (plan[k].entity, plan[k].component_id);
            &&& after.contains_key(at)
            &&& forall|f: u32| #[trigger]
                fields.contains_key(f) ==> says(
                    values[f],
                    decoded(field_bytes(after[at], fields, f), fields[f].1, order),
                    later,
                )
            &&& fields_fit(fields, components[at].len() as int) ==> forall|f: u32| #[trigger]
                fields.contains_key(f) && says(
                    values[f],
                    decoded(field_bytes(components[at], fields, f), fields[f].1, order),
                    later,
                ) ==> decoded(field_bytes(after[at], fields, f), fields[f].1, order) == decoded(
                    field_bytes(components[at], fields, f),
                    fields[f].1,
                    order,
                )
            &&& forall|entity: u64, id: ComponentId|
                !snapshot.desc.mutable@.contains(id) || (forall|i: int|
                    0 <= i < snapshot.rows@.len() ==> (#[trigger] snapshot.rows@[i]).entity
                        != entity) ==> #[trigger] after.contains_key((entity, id))
                    == components.contains_key((entity, id)) && after[(entity, id)]
                    == components[(entity, id)]
        }),
{
    let plan = write_backs(snapshot, snapshot.rows@.len() as int);
    let after = components_written(components, plan, made, plan.len() as int);
    let at = (plan[k].entity, plan[k].component_id);
    law_write_back_keeps_edits(snapshot, components, made, k);
    assert forall|f: u32| #[trigger] fields.contains_key(f) implies decoded(
        field_bytes(after[at], fields, f),
        fields[f].1,
        order,
    ) == kept_data(values[f], fields[f].1, later) && says(
        values[f],
        kept_data(values[f], fields[f].1, later),
        later,
    ) by {
        law_component_round_trip(after[at], fields, values, strings, f, order);
        lemma_kept_says(values[f], fields[f].1, strings, later);
    }
    if fields_fit(fields, components[at].len() as int) {
        assert forall|f: u32| #[trigger] fields.contains_key(f) && says(
            values[f],
            decoded(field_bytes(components[at], fields, f), fields[f].1, order),
            later,
        ) implies decoded(field_bytes(after[at], fields, f), fields[f].1, order) == decoded(
            field_bytes(components[at], fields, f),
            fields[f].1,
            order,
        ) by {
            law_saying_the_same(
                values[f],
                field_bytes(components[at], fields, f),
                fields[f].1,
                later,
                order,
            );
        }
    }
    assert forall|entity: u64, id: ComponentId|
        !snapshot.desc.mutable@.contains(id) || (forall|i: int|
            0 <= i < snapshot.rows@.len() ==> (#[trigger] snapshot.rows@[i]).entity
                != entity) implies #[trigger] after.contains_key((entity, id))
        == components.contains_key((entity, id)) && after[(entity, id)] == components[(
        entity,
        id,
    )] by {
        law_write_back_leaves_others_alone(snapshot, components, made, entity, id);
    }
}

/// Where each table of a snapshot makes the component that is there, as an unedited one does,
/// writing the snapshot back changes nothing.
pub proof fn law_unedited_write_back_changes_nothing<T>(
    snapshot: QuerySnapshot<T>,
    components: Components,
    made: spec_fn(WriteBack) -> Seq<u8>,
)
    requires
        forall|w: WriteBack| #[trigger]
            writes_back(snapshot, w) ==> components.contains_key((w.entity, w.component_id))
                && made(w) == components[(w.entity, w.component_id)],
    ensures
        ({
            let plan = write_backs(snapshot, snapshot.rows@.len() as int);
            components_written(components, plan, made, plan.len() as int) == components
        }),
{
    let plan = write_backs(snapshot, snapshot.rows@.len() as int);
    let after = components_written(components, plan, made, plan.len() as int);
    lemma_write_backs(snapshot, snapshot.rows@.len() as int);
    assert forall|at: (u64, ComponentId)| #[trigger]
        after.contains_key(at) <==> components.contains_key(at) by {
        lemma_components_written(components, plan, made, plan.len() as int, at);
        if exists|k: int|
            0 <= k < plan.len() && ((#[trigger] plan[k]).entity, plan[k].component_id) == at {
            let k = choose|k: int|
                0 <= k < plan.len() && ((#[trigger] plan[k]).entity, plan[k].component_id) == at;
            assert(writes_back(snapshot, plan[k]));
        }
    }
    assert forall|at: (u64, ComponentId)| #[trigger] after.contains_key(at) implies after[at]
        == components[at] by {
        lemma_components_written(components, plan, made, plan.len() as int, at);
        if exists|k: int|
            0 <= k < plan.len() && ((#[trigger] plan[k]).entity, plan[k].component_id) == at
                && after[at] == made(plan[k]) {
            let k = choose|k: int|
                0 <= k < plan.len() && ((#[trigger] plan[k]).entity, plan[k].component_id) == at
                    && after[at] == made(plan[k]);
            assert(writes_back(snapshot, plan[k]));
        }
    }
    assert(after =~= components);
}

/// The step that follows once `done` steps of a plan were carried out: there is none behind the
/// last one, and none behind one that failed.
pub open spec fn next_step(plan: Seq<WriteBack>, done: int, failed: bool) -> Option<WriteBack> {
    if failed || done >= plan.len() {
        None
    } else {
        Some(plan[done])
    }
}

/// The step that follows once `done` steps of a plan were carried out, the last of which may have
/// failed: the first failure ends a write-back.
pub fn next_write_back(plan: &Vec<WriteBack>, done: usize, failed: bool) -> (next: Option<WriteBack>)
    ensures
        next == next_step(plan@, done as int, failed),
{
    if failed || done >= plan.len() {
        None
    } else {
        Some(plan[done])
    }
}

/// The components once a plan was carried out from step `done` on, one step after the other, where
/// `made` is what the table of a step is made into, if that does not fail.
pub open spec fn components_after(
    components: Components,
    plan: Seq<WriteBack>,
    made: spec_fn(WriteBack) -> Option<Seq<u8>>,
    done: int,
) -> Components
    decreases plan.len() - done,
    when done >= 0
{
    match next_step(plan, done, false) {
        None => components,
        Some(w) => match made(w) {
            Some(bytes) => components_after(
                components.insert((w.entity, w.component_id), bytes),
                plan,
                made,
                done + 1,
            ),
            None => components,
        },
    }
}

/// A failure at step `k` leaves the components as the steps before it made them, and so does the
/// end of the plan.
pub proof fn law_a_failure_ends_a_write_back(
    components: Components,
    plan: Seq<WriteBack>,
    made: spec_fn(WriteBack) -> Option<Seq<u8>>,
    k: int,
)
    requires
        0 <= k <= plan.len(),
        forall|j: int| 0 <= j < k ==> made(#[trigger] plan[j]) is Some,
        k < plan.len() ==> made(plan[k]) is None,
    ensures
        components_after(components, plan, made, 0) == components_written(
            components,
            plan,
            |w: WriteBack| made(w)->0,
            k,
        ),
        next_step(plan, k, k < plan.len()) is None,
{
    lemma_components_after(components, plan, made, k, 0);
}

/// The steps from `done` to `k` are carried out one after the other.
proof fn lemma_components_after(
    components: Components,
    plan: Seq<WriteBack>,
    made: spec_fn(WriteBack) -> Option<Seq<u8>>,
    k: int,
    done: int,
)
    requires
        0 <= done <= k <= plan.len(),
        forall|j: int| 0 <= j < k ==> made(#[trigger] plan[j]) is Some,
        k < plan.len() ==> made(plan[k]) is None,
    ensures
        components_after(
            components_written(components, plan, |w: WriteBack| made(w)->0, done),
            plan,
            made,
            done,
        ) == components_written(components, plan, |w: WriteBack| made(w)->0, k),
    decreases k - done,
{
    if done < k {
        assert(made(plan[done]) is Some);
        lemma_components_after(components, plan, made, k, done + 1);
    }
}

/// The conditions of a query name each component type that it asks for, as it asks for it, and in
/// its order: the written ones first, then those that are read, those that an entity must have, and
/// those that it must not have.
pub proof fn law_query_terms_are_what_was_asked_for(desc: ResolvedQuery)
    ensures
        terms_of(desc).len() == desc.mutable@.len() + desc.immutable@.len() + desc.with@.len()
            + desc.without@.len(),
        forall|i: int|
            0 <= i < desc.mutable@.len() ==> terms_of(desc)[i] == QueryTerm::Mut(
                #[trigger] desc.mutable@[i],
            ),
        forall|i: int|
            0 <= i < desc.immutable@.len() ==> terms_of(desc)[desc.mutable@.len() + i]
                == QueryTerm::Ref(#[trigger] desc.immutable@[i]),
        forall|i: int|
            0 <= i < desc.with@.len() ==> terms_of(desc)[desc.mutable@.len() + desc.immutable@.len()
                + i] == QueryTerm::With(#[trigger] desc.with@[i]),
        forall|i: int|
            0 <= i < desc.without@.len() ==> terms_of(desc)[desc.mutable@.len()
                + desc.immutable@.len() + desc.with@.len() + i] == QueryTerm::Without(
                #[trigger] desc.without@[i],
            ),
        forall|id: ComponentId|
            terms_of(desc).contains(#[trigger] mut_term(id)) <==> desc.mutable@.contains(id),
        forall|id: ComponentId|
            terms_of(desc).contains(#[trigger] ref_term(id)) <==> desc.immutable@.contains(id),
        forall|id: ComponentId|
            terms_of(desc).contains(#[trigger] with_term(id)) <==> desc.with@.contains(id),
        forall|id: ComponentId|
            terms_of(desc).contains(#[trigger] without_term(id)) <==> desc.without@.contains(id),
{
    let terms = terms_of(desc);
    let (m, i, w, o) = (desc.mutable@, desc.immutable@, desc.with@, desc.without@);
    let (a, b, c) = (m.len() as int, (m.len() + i.len()) as int, (m.len() + i.len() + w.len()) as int);
    assert forall|k: int| 0 <= k < terms.len() implies #[trigger] terms[k] == (if k < a {
        QueryTerm::Mut(m[k])
    } else if k < b {
        QueryTerm::Ref(i[k - a])
    } else if k < c {
        QueryTerm::With(w[k - b])
    } else {
        QueryTerm::Without(o[k - c])
    }) by {}
    assert forall|id: ComponentId|
        terms.contains(#[trigger] mut_term(id)) <==> m.contains(id) by {
        if m.contains(id) {
            let k = choose|k: int| 0 <= k < m.len() && m[k] == id;
            assert(terms[k] == mut_term(id));
        }
    }
    assert forall|id: ComponentId|
        terms.contains(#[trigger] ref_term(id)) <==> i.contains(id) by {
        if i.contains(id) {
            let k = choose|k: int| 0 <= k < i.len() && i[k] == id;
            assert(terms[a + k] == ref_term(id));
        }
    }
    assert forall|id: ComponentId|
        terms.contains(#[trigger] with_term(id)) <==> w.contains(id) by {
        if w.contains(id) {
            let k = choose|k: int| 0 <= k < w.len() && w[k] == id;
            assert(terms[b + k] == with_term(id));
        }
    }
    assert forall|id: ComponentId|
        terms.contains(#[trigger] without_term(id)) <==> o.contains(id) by {
        if o.contains(id) {
            let k = choose|k: int| 0 <= k < o.len() && o[k] == id;
            assert(terms[c + k] == without_term(id));
        }
    }
}

/// The condition that an entity has a component that is written.
pub open spec fn mut_term(id: ComponentId) -> QueryTerm {
    QueryTerm::Mut(id)
}

/// The condition that an entity has a component that is read.
pub open spec fn ref_term(id: ComponentId) -> QueryTerm {
    QueryTerm::Ref(id)
}

/// The condition that an entity has a component.
pub open spec fn with_term(id: ComponentId) -> QueryTerm {
    QueryTerm::With(id)
}

/// The condition that an entity does not have a component.
pub open spec fn without_term(id: ComponentId) -> QueryTerm {
    QueryTerm::Without(id)
}

/// Whether an entity with the given components meets a condition.
pub open spec fn meets(components: Set<ComponentId>, term: QueryTerm) -> bool {
    match term {
        QueryTerm::Mut(id) => components.contains(id),
        QueryTerm::Ref(id) => components.contains(id),
        QueryTerm::With(id) => components.contains(id),
        QueryTerm::Without(id) => !components.contains(id),
    }
}

/// The entities that meet all conditions of a query are those that have every component that it
/// writes, reads or asks for, and none that it excludes.
pub proof fn law_queries_find_what_was_asked_for(desc: ResolvedQuery, components: Set<ComponentId>)
    ensures
        (forall|t: QueryTerm| #[trigger] terms_of(desc).contains(t) ==> meets(components, t)) <==> {
            &&& forall|id: ComponentId| #[trigger]
                desc.mutable@.contains(id) ==> components.contains(id)
            &&& forall|id: ComponentId| #[trigger]
                desc.immutable@.contains(id) ==> components.contains(id)
            &&& forall|id: ComponentId| #[trigger]
                desc.with@.contains(id) ==> components.contains(id)
            &&& forall|id: ComponentId| #[trigger]
                desc.without@.contains(id) ==> !components.contains(id)
        },
{
    law_query_terms_are_what_was_asked_for(desc);
    if forall|t: QueryTerm| #[trigger] terms_of(desc).contains(t) ==> meets(components, t) {
        assert forall|id: ComponentId| #[trigger] desc.mutable@.contains(
            id,
        ) implies components.contains(id) by {
            assert(terms_of(desc).contains(mut_term(id)));
        }
        assert forall|id: ComponentId| #[trigger] desc.immutable@.contains(
            id,
        ) implies components.contains(id) by {
            assert(terms_of(desc).contains(ref_term(id)));
        }
        assert forall|id: ComponentId| #[trigger] desc.with@.contains(
            id,
        ) implies components.contains(id) by {
            assert(terms_of(desc).contains(with_term(id)));
        }
        assert forall|id: ComponentId| #[trigger] desc.without@.contains(
            id,
        ) implies !components.contains(id) by {
            assert(terms_of(desc).contains(without_term(id)));
        }
    }
    if (forall|id: ComponentId| #[trigger]
        desc.mutable@.contains(id) ==> components.contains(id)) && (forall|id: ComponentId|
     #[trigger] desc.immutable@.contains(id) ==> components.contains(id)) && (forall|
        id: ComponentId,
    | #[trigger] desc.with@.contains(id) ==> components.contains(id)) && (forall|id: ComponentId|
     #[trigger] desc.without@.contains(id) ==> !components.contains(id)) {
        assert forall|t: QueryTerm| #[trigger] terms_of(desc).contains(t) implies meets(
            components,
            t,
        ) by {
            match t {
                QueryTerm::Mut(id) => {
                    assert(t == mut_term(id));
                },
                QueryTerm::Ref(id) => {
                    assert(t == ref_term(id));
                },
                QueryTerm::With(id) => {
                    assert(t == with_term(id));
                },
                QueryTerm::Without(id) => {
                    assert(t == without_term(id));
                },
            }
        }
    }
}

/// How many of the first `n` answers hold a value.
pub open spec fn values_among<T>(answers: Seq<Option<T>>, n: int) -> nat
    decreases n,
{
    if n <= 0 {
        0
    } else {
        values_among(answers, n - 1) + if answers[n - 1] is Some {
            1nat
        } else {
            0nat
        }
    }
}

/// The number of values among the first `n` answers does not depend on those behind them.
proof fn lemma_values_among<T>(answers: Seq<Option<T>>, m: int, n: int)
    requires
        0 <= n <= m <= answers.len(),
    ensures
        values_among(answers.take(m), n) == values_among(answers, n),
    decreases n,
{
    if n > 0 {
        lemma_values_among(answers, m, n - 1);
    }
}

/// The values that are present are those of the answers that hold one, all of them and in order:
/// each stands behind as many others as answers before it held values.
pub proof fn law_present_values_are_the_answers<T>(answers: Seq<Option<T>>)
    ensures
        present(answers).len() == values_among(answers, answers.len() as int),
        forall|i: int|
            0 <= i < answers.len() ==> (#[trigger] answers[i] matches Some(value) ==> values_among(
                answers,
                i,
            ) < present(answers).len() && present(answers)[values_among(answers, i) as int]
                == value),
    decreases answers.len(),
{
    if answers.len() > 0 {
        let before = answers.drop_last();
        let n = answers.len() as int;
        law_present_values_are_the_answers(before);
        assert(before =~= answers.take(n - 1));
        lemma_values_among(answers, n - 1, n - 1);
        assert forall|i: int| 0 <= i < n implies (#[trigger] answers[i] matches Some(value)
            ==> values_among(answers, i) < present(answers).len() && present(
            answers,
        )[values_among(answers, i) as int] == value) by {
            if i < n - 1 {
                assert(before[i] == answers[i]);
                lemma_values_among(answers, n - 1, i);
            }
        }
    }
}

/// A row holds what `fetch` answered for its entity, in the order of the query: the tables that may
/// be written are those of the component types to be written, and the others those of the types to
/// be read. Where all were found, each is the answer for its own type.
pub proof fn law_rows_hold_what_was_fetched<T, E, G: Fn(u64, ComponentId) -> Result<Option<T>, E>>(
    fetch: G,
    desc: ResolvedQuery,
    row: SnapshotRow<T>,
)
    requires
        row_fetched(fetch, desc, row),
    ensures
        row.mutable_tables@.len() <= desc.mutable@.len(),
        row.immutable_tables@.len() <= desc.immutable@.len(),
        row.mutable_tables@.len() == desc.mutable@.len() ==> forall|i: int|
            0 <= i < desc.mutable@.len() ==> fetch.ensures(
                (row.entity, #[trigger] desc.mutable@[i]),
                Ok(Some(row.mutable_tables@[i])),
            ),
        row.immutable_tables@.len() == desc.immutable@.len() ==> forall|i: int|
            0 <= i < desc.immutable@.len() ==> fetch.ensures(
                (row.entity, #[trigger] desc.immutable@[i]),
                Ok(Some(row.immutable_tables@[i])),
            ),
        exists|answers: Seq<Option<T>>|
            answers.len() == desc.mutable@.len() && (forall|i: int|
                0 <= i < desc.mutable@.len() ==> fetch.ensures(
                    (row.entity, #[trigger] desc.mutable@[i]),
                    Ok(answers[i]),
                )) && #[trigger] present(answers) == row.mutable_tables@,
        exists|answers: Seq<Option<T>>|
            answers.len() == desc.immutable@.len() && (forall|i: int|
                0 <= i < desc.immutable@.len() ==> fetch.ensures(
                    (row.entity, #[trigger] desc.immutable@[i]),
                    Ok(answers[i]),
                )) && #[trigger] present(answers) == row.immutable_tables@,
{
    let written = choose|answers: Seq<Option<T>>| #[trigger]
        answered(fetch, row.entity, desc.mutable@, answers) && row.mutable_tables@ == present(
            answers,
        );
    let read = choose|answers: Seq<Option<T>>| #[trigger]
        answered(fetch, row.entity, desc.immutable@, answers) && row.immutable_tables@ == present(
            answers,
        );
    lemma_all_present(written);
    lemma_all_present(read);
    assert(present(written) == row.mutable_tables@);
    assert(present(read) == row.immutable_tables@);
}

/// Whether one step of a write-back is for an earlier table than another.
pub open spec fn is_before(a: WriteBack, b: WriteBack) -> bool {
    a.row < b.row || (a.row == b.row && a.table < b.table)
}

/// The steps of a write-back are in the order of rows and tables.
proof fn lemma_write_backs_ascend<T>(snapshot: QuerySnapshot<T>, n: int)
    requires
        0 <= n <= snapshot.rows@.len(),
    ensures
        forall|j: int, k: int|
            0 <= j < k < write_backs(snapshot, n).len() ==> is_before(
                #[trigger] write_backs(snapshot, n)[j],
                #[trigger] write_backs(snapshot, n)[k],
            ),
        forall|k: int|
            0 <= k < write_backs(snapshot, n).len() ==> (#[trigger] write_backs(snapshot, n)[k]).row
                < n,
    decreases n,
{
    assert(snapshot.rows.len() == snapshot.rows@.len());
    assert(snapshot.desc.mutable.len() == snapshot.desc.mutable@.len());
    if n > 0 {
        lemma_write_backs_ascend(snapshot, n - 1);
        let before = write_backs(snapshot, n - 1);
        let added = row_write_backs(
            snapshot,
            n - 1,
            paired(snapshot.desc, snapshot.rows@[n - 1]),
        );
        let all = write_backs(snapshot, n);
        assert forall|k: int| 0 <= k < all.len() implies #[trigger] all[k] == (if k < before.len() {
            before[k]
        } else {
            added[k - before.len()]
        }) by {}
    }
}

/// A snapshot is written back table by table: each table of each row that stands at the position of
/// a component type to be written goes to that component of the row's entity, once, rows and tables
/// being taken in order; nothing else is written.
pub proof fn law_each_table_is_written_back_once<T>(snapshot: QuerySnapshot<T>)
    ensures
        forall|row: usize, table: usize|
            row < snapshot.rows@.len() && table < snapshot.desc.mutable@.len() && table
                < snapshot.rows@[row as int].mutable_tables@.len() ==> #[trigger] write_backs(
                snapshot,
                snapshot.rows@.len() as int,
            ).contains(
                WriteBack {
                    entity: snapshot.rows@[row as int].entity,
                    component_id: snapshot.desc.mutable@[table as int],
                    row,
                    table,
                },
            ),
        forall|k: int|
            0 <= k < write_backs(snapshot, snapshot.rows@.len() as int).len() ==> {
                let w = #[trigger] write_backs(snapshot, snapshot.rows@.len() as int)[k];
                &&& w.row < snapshot.rows@.len()
                &&& w.table < snapshot.desc.mutable@.len()
                &&& w.table < snapshot.rows@[w.row as int].mutable_tables@.len()
                &&& w.entity == snapshot.rows@[w.row as int].entity
                &&& w.component_id == snapshot.desc.mutable@[w.table as int]
            },
        forall|j: int, k: int|
            0 <= j < k < write_backs(snapshot, snapshot.rows@.len() as int).len() ==> {
                let a = #[trigger] write_backs(snapshot, snapshot.rows@.len() as int)[j];
                let b = #[trigger] write_backs(snapshot, snapshot.rows@.len() as int)[k];
                a.row < b.row || (a.row == b.row && a.table < b.table)
            },
{
    let n = snapshot.rows@.len() as int;
    lemma_write_backs(snapshot, n);
    lemma_write_backs_ascend(snapshot, n);
    assert forall|row: usize, table: usize|
        row < snapshot.rows@.len() && table < snapshot.desc.mutable@.len() && table
            < snapshot.rows@[row as int].mutable_tables@.len() implies #[trigger] write_backs(
        snapshot,
        n,
    ).contains(
        WriteBack {
            entity: snapshot.rows@[row as int].entity,
            component_id: snapshot.desc.mutable@[table as int],
            row,
            table,
        },
    ) by {
        let w = WriteBack {
            entity: snapshot.rows@[row as int].entity,
            component_id: snapshot.desc.mutable@[table as int],
            row,
            table,
        };
        assert(writes_back(snapshot, w));
    }
    assert forall|k: int| 0 <= k < write_backs(snapshot, n).len() implies writes_back(
        snapshot,
        #[trigger] write_backs(snapshot, n)[k],
    ) by {}
    assert forall|j: int, k: int| 0 <= j < k < write_backs(snapshot, n).len() implies is_before(
        #[trigger] write_backs(snapshot, n)[j],
        #[trigger] write_backs(snapshot, n)[k],
    ) by {}
}

/// A failure of a query is one that `fetch` had for a component of an entity.
pub proof fn law_failures_come_from_fetching<T, E, G: Fn(u64, ComponentId) -> Result<Option<T>, E>>(
    fetch: G,
    entity: u64,
    ids: Seq<ComponentId>,
    error: E,
)
    requires
        fetch_can_fail(fetch, entity, ids, error),
    ensures
        exists|id: ComponentId|
            ids.contains(id) && #[trigger] fetch.ensures(
                (entity, id),
                Err::<Option<T>, E>(error),
            ),
{
    let i = choose|i: int|
        0 <= i < ids.len() && fetch.ensures(
            (entity, #[trigger] ids[i]),
            Err::<Option<T>, E>(error),
        );
    assert(ids.contains(ids[i]));
}

/// What a query asks of the entity component system: an entity meets all that is asked exactly
/// where it has each component type that the query writes, reads or asks for, and none that it
/// excludes; a type is asked for to be written, or read, exactly where the query says so.
pub proof fn law_asking_for_a_query(
    desc: ResolvedQuery,
    terms: Vec<QueryTerm>,
    id: ComponentId,
    components: Set<ComponentId>,
)
    requires
        call_ensures(query_terms, (&desc,), terms),
    ensures
        terms@.len() == desc.mutable@.len() + desc.immutable@.len() + desc.with@.len()
            + desc.without@.len(),
        terms@.contains(QueryTerm::Mut(id)) <==> desc.mutable@.contains(id),
        terms@.contains(QueryTerm::Ref(id)) <==> desc.immutable@.contains(id),
        terms@.contains(QueryTerm::With(id)) <==> desc.with@.contains(id),
        terms@.contains(QueryTerm::Without(id)) <==> desc.without@.contains(id),
        (forall|t: QueryTerm| #[trigger] terms@.contains(t) ==> meets(components, t)) <==> {
            &&& forall|c: ComponentId| #[trigger]
                desc.mutable@.contains(c) ==> components.contains(c)
            &&& forall|c: ComponentId| #[trigger]
                desc.immutable@.contains(c) ==> components.contains(c)
            &&& forall|c: ComponentId| #[trigger]
                desc.with@.contains(c) ==> components.contains(c)
            &&& forall|c: ComponentId| #[trigger]
                desc.without@.contains(c) ==> !components.contains(c)
        },
{
    law_query_terms_are_what_was_asked_for(desc);
    law_queries_find_what_was_asked_for(desc, components);
    assert(terms@ == terms_of(desc));
    assert(terms@.contains(mut_term(id)) <==> desc.mutable@.contains(id));
    assert(terms@.contains(ref_term(id)) <==> desc.immutable@.contains(id));
    assert(terms@.contains(with_term(id)) <==> desc.with@.contains(id));
    assert(terms@.contains(without_term(id)) <==> desc.without@.contains(id));
}

/// What a snapshot holds: the query, and for each entity that was found, in order, what `fetch`
/// answered for the component types that are written and for those that are read. Where nothing is
/// missing, each table is the answer for its own type; where `fetch` cannot fail for any of them,
/// there is a snapshot.
pub proof fn law_taking_a_snapshot<T, E, G: Fn(u64, ComponentId) -> Result<Option<T>, E>>(
    desc: ResolvedQuery,
    entities: Vec<u64>,
    fetch: G,
    result: Result<QuerySnapshot<T>, E>,
)
    requires
        call_ensures(snapshot_query::<T, E, G>, (&desc, &entities, &fetch), result),
    ensures
        result matches Ok(snapshot) ==> {
            &&& snapshot.desc.mutable@ == desc.mutable@
            &&& snapshot.desc.immutable@ == desc.immutable@
            &&& snapshot.desc.with@ == desc.with@
            &&& snapshot.desc.without@ == desc.without@
            &&& snapshot.rows@.len() == entities@.len()
            &&& forall|i: int|
                0 <= i < entities@.len() ==> {
                    let row = #[trigger] snapshot.rows@[i];
                    &&& row.entity == entities@[i]
                    &&& row.mutable_tables@.len() <= desc.mutable@.len()
                    &&& row.immutable_tables@.len() <= desc.immutable@.len()
                    &&& row.mutable_tables@.len() == desc.mutable@.len() ==> forall|k: int|
                        0 <= k < desc.mutable@.len() ==> fetch.ensures(
                            (entities@[i], #[trigger] desc.mutable@[k]),
                            Ok(Some(row.mutable_tables@[k])),
                        )
                    &&& row.immutable_tables@.len() == desc.immutable@.len() ==> forall|k: int|
                        0 <= k < desc.immutable@.len() ==> fetch.ensures(
                            (entities@[i], #[trigger] desc.immutable@[k]),
                            Ok(Some(row.immutable_tables@[k])),
                        )
                }
        },
        (forall|entity: u64, id: ComponentId, e: E|
            entities@.contains(entity) && (desc.mutable@.contains(id) || desc.immutable@.contains(
                id,
            )) ==> !(#[trigger] fetch.ensures((entity, id), Err::<Option<T>, E>(e)))) ==> result is Ok,
{
    match result {
        Ok(snapshot) => {
            assert forall|i: int| 0 <= i < entities@.len() implies {
                let row = #[trigger] snapshot.rows@[i];
                &&& row.entity == entities@[i]
                &&& row_fetched(fetch, desc, row)
                &&& row.mutable_tables@.len() <= desc.mutable@.len()
                &&& row.immutable_tables@.len() <= desc.immutable@.len()
                &&& row.mutable_tables@.len() == desc.mutable@.len() ==> forall|k: int|
                    0 <= k < desc.mutable@.len() ==> fetch.ensures(
                        (entities@[i], #[trigger] desc.mutable@[k]),
                        Ok(Some(row.mutable_tables@[k])),
                    )
                &&& row.immutable_tables@.len() == desc.immutable@.len() ==> forall|k: int|
                    0 <= k < desc.immutable@.len() ==> fetch.ensures(
                        (entities@[i], #[trigger] desc.immutable@[k]),
                        Ok(Some(row.immutable_tables@[k])),
                    )
            } by {
                law_rows_hold_what_was_fetched(fetch, desc, snapshot.rows@[i]);
            }
        },
        Err(e) => {
            let i = choose|i: int|
                0 <= i < entities@.len() && (fetch_can_fail(
                    fetch,
                    #[trigger] entities@[i],
                    desc.mutable@,
                    e,
                ) || fetch_can_fail(fetch, entities@[i], desc.immutable@, e));
            assert(entities@.contains(entities@[i]));
            if fetch_can_fail(fetch, entities@[i], desc.mutable@, e) {
                law_failures_come_from_fetching(fetch, entities@[i], desc.mutable@, e);
            } else {
                law_failures_come_from_fetching(fetch, entities@[i], desc.immutable@, e);
            }
        },
    }
}

/// A script that walks a snapshot sees each row once, in order, with the entity and all its tables,
/// those that may be written first; the tables that it gets for that entity are those of the
/// entity's first row that may be written.
pub proof fn law_reading_a_snapshot<'a, T>(
    snapshot: &'a QuerySnapshot<T>,
    index: usize,
    row: Option<ScriptRow<'a, T>>,
    found: Option<&'a Vec<T>>,
)
    requires
        call_ensures(QuerySnapshot::<T>::step, (snapshot, index), row),
        row matches Some(r) ==> call_ensures(QuerySnapshot::<T>::get, (snapshot, r.entity_bits), found),
    ensures
        row is Some <==> index < snapshot.rows@.len(),
        row matches Some(r) ==> {
            let source = snapshot.rows@[index as int];
            &&& r.entity_bits as u64 == source.entity
            &&& r.tables@.len() == source.mutable_tables@.len() + source.immutable_tables@.len()
            &&& forall|i: int|
                0 <= i < source.mutable_tables@.len() ==> *r.tables@[i]
                    == #[trigger] source.mutable_tables@[i]
            &&& forall|i: int|
                0 <= i < source.immutable_tables@.len() ==> *r.tables@[source.mutable_tables@.len()
                    + i] == #[trigger] source.immutable_tables@[i]
            &&& found is Some
            &&& (forall|j: int|
                0 <= j < index ==> (#[trigger] snapshot.rows@[j]).entity != source.entity)
                ==> found->0@ == source.mutable_tables@
        },
{
    if let Some(r) = row {
        let source = snapshot.rows@[index as int];
        let entity = source.entity;
        assert((entity as i64) as u64 == entity) by (bit_vector);
        assert(r.entity_bits as u64 == entity);
        assert(snapshot.rows@[index as int].entity == entity);
        assert(has_row_of(snapshot.rows@, entity));
        assert(found is Some);
        if forall|j: int|
            0 <= j < index ==> (#[trigger] snapshot.rows@[j]).entity != entity {
            let tables = found->0;
            let i = choose|i: int| #[trigger]
                first_row_of(snapshot.rows@, entity, i) && *tables
                    == snapshot.rows@[i].mutable_tables;
            assert(i == index);
        }
    }
}

/// What writing a snapshot back comes to: each table of each row that stands at the position of a
/// component type to be written goes to that component of the row's entity, once, rows and tables
/// being taken in order; nothing else is written; and the steps follow each other until one fails
/// or none is left.
pub proof fn law_writing_a_snapshot_back<T>(
    snapshot: QuerySnapshot<T>,
    plan: Vec<WriteBack>,
    w: WriteBack,
    done: usize,
    failed: bool,
    next: Option<WriteBack>,
)
    requires
        call_ensures(writeback_snapshot::<T>, (&snapshot,), plan),
        call_ensures(next_write_back, (&plan, done, failed), next),
    ensures
        plan@.contains(w) <==> {
            &&& w.row < snapshot.rows@.len()
            &&& w.table < snapshot.desc.mutable@.len()
            &&& w.table < snapshot.rows@[w.row as int].mutable_tables@.len()
            &&& w.entity == snapshot.rows@[w.row as int].entity
            &&& w.component_id == snapshot.desc.mutable@[w.table as int]
        },
        forall|j: int, k: int|
            0 <= j < k < plan@.len() ==> (#[trigger] plan@[j]).row < (#[trigger] plan@[k]).row || (
            plan@[j].row == plan@[k].row && plan@[j].table < plan@[k].table),
        next is Some <==> !failed && done < plan@.len(),
        next matches Some(step) ==> step == plan@[done as int],
{
    law_writable_tables_are_written_back(snapshot, w);
    law_each_table_is_written_back_once(snapshot);
    assert(plan@ == write_backs(snapshot, snapshot.rows@.len() as int));
}

/// A script that asks for an entity gets tables exactly where the query found it.
pub proof fn law_looking_up_an_entity<'a, T>(
    snapshot: &'a QuerySnapshot<T>,
    entity_bits: i64,
    found: Option<&'a Vec<T>>,
)
    requires
        call_ensures(QuerySnapshot::<T>::get, (snapshot, entity_bits), found),
    ensures
        found is Some <==> exists|i: int|
            0 <= i < snapshot.rows@.len() && (#[trigger] snapshot.rows@[i]).entity
                == entity_bits as u64,
        found is Some ==> exists|i: int|
            0 <= i < snapshot.rows@.len() && (#[trigger] snapshot.rows@[i]).entity
                == entity_bits as u64 && found->0@ == snapshot.rows@[i].mutable_tables@,
{
    assert(found is Some <==> has_row_of(snapshot.rows@, entity_bits as u64));
}

} // verus!
