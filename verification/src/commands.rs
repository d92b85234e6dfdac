//! What scripts ask to be done to entities, and the order in which it is done.

use vstd::prelude::*;

use crate::entity::is_entity;
use crate::runtime::{law_selected, selected, LuaObserverDescriptor};
use crate::schema::ComponentId;
use crate::staging::{LuaComponentMarker, LuaError};
use crate::text::RuntimeError;

verus! {

/// An entity to be made: its components, each with the table that it is filled from, or without
/// one where it is left at its default. `T` stands for tables.
#[derive(Debug, PartialEq, Eq)]
pub struct SpawnCmd<T> {
    pub components: Vec<(ComponentId, Option<T>)>,
}

/// An event to be sent to an entity.
#[derive(Debug, PartialEq, Eq)]
pub struct TriggerCmd<T> {
    pub entity: u64,
    pub event_id: ComponentId,
    pub data_table: T,
}

/// What a script has asked for so far.
pub struct CommandBuffer<T> {
    pub spawns: Vec<SpawnCmd<T>>,
    pub despawns: Vec<u64>,
    pub triggers: Vec<TriggerCmd<T>>,
}

/// A key of a table of components: the marker of a component type, or something else.
#[derive(Debug, PartialEq, Eq)]
pub enum SpawnKey {
    Marker(LuaComponentMarker),
    Other,
}

/// A value of a table of components: the marker for a default, a table, or something else.
#[derive(Debug, PartialEq, Eq)]
pub enum SpawnValue<T> {
    Default,
    Table(T),
    Other,
}

/// Whether an entry of a table of components stops the command.
pub open spec fn stops<T, E>(item: Result<(SpawnKey, SpawnValue<T>), E>) -> bool {
    match item {
        Err(_) => true,
        Ok(pair) => pair.0 matches SpawnKey::Marker(marker) && marker.resolved_id is None,
    }
}

/// Whether `error` is what an entry stops the command with.
pub open spec fn stops_with<T, E>(
    item: Result<(SpawnKey, SpawnValue<T>), E>,
    error: LuaError<E>,
) -> bool {
    match item {
        Err(e) => error == LuaError::<E>::External(e),
        Ok(_) => error matches LuaError::Runtime(e) && e.message@
            == "component marker not yet resolved"@,
    }
}

/// The components that the first `n` entries name. Entries whose key is no marker count for
/// nothing.
pub open spec fn named_components<T, E>(
    items: Seq<Result<(SpawnKey, SpawnValue<T>), E>>,
    n: int,
) -> Seq<(ComponentId, Option<T>)>
    decreases n,
{
    if n <= 0 {
        Seq::empty()
    } else {
        let before = named_components(items, n - 1);
        match items[n - 1]->Ok_0.0 {
            SpawnKey::Other => before,
            SpawnKey::Marker(marker) => before.push(
                (
                    marker.resolved_id->0,
                    match items[n - 1]->Ok_0.1 {
                        SpawnValue::Table(table) => Some(table),
                        SpawnValue::Default | SpawnValue::Other => None,
                    },
                ),
            ),
        }
    }
}

impl<T> Default for CommandBuffer<T> {
    fn default() -> (buffer: Self)
        ensures
            buffer.spawns@.len() == 0,
            buffer.despawns@.len() == 0,
            buffer.triggers@.len() == 0,
    {
        CommandBuffer { spawns: Vec::new(), despawns: Vec::new(), triggers: Vec::new() }
    }
}

impl<T> CommandBuffer<T> {
    /// Asks for an entity with the components that a table names. The first entry that stops the
    /// command leaves the buffer as it was.
    pub fn spawn<E>(&mut self, items: Vec<Result<(SpawnKey, SpawnValue<T>), E>>) -> (result: Result<
        (),
        LuaError<E>,
    >)
        ensures
            result is Ok <==> forall|i: int| 0 <= i < items@.len() ==> !stops(#[trigger] items@[i]),
            result is Ok ==> {
                &&& final(self).spawns@.len() == old(self).spawns@.len() + 1
                &&& final(self).spawns@.drop_last() == old(self).spawns@
                &&& final(self).spawns@.last().components@ == named_components(
                    items@,
                    items@.len() as int,
                )
                &&& final(self).despawns@ == old(self).despawns@
                &&& final(self).triggers@ == old(self).triggers@
            },
            result matches Err(error) ==> *final(self) == *old(self) && exists|i: int|
                0 <= i < items@.len() && stops(#[trigger] items@[i]) && stops_with(items@[i], error)
                    && forall|j: int| 0 <= j < i ==> !stops(#[trigger] items@[j]),
    {
        let ghost all = items@;
        let mut components: Vec<(ComponentId, Option<T>)> = Vec::new();
        for item in it: items
            invariant
                all == items@,
                it.seq() == all,
                *self == *old(self),
                forall|j: int| 0 <= j < it.index() ==> !stops(#[trigger] all[j]),
                components@ == named_components(all, it.index() as int),
        {
            assert(item == all[it.index() as int]);
            let (key, value) = match item {
                Ok(pair) => pair,
                Err(e) => {
                    return Err(LuaError::External(e));
                },
            };
            match key {
                SpawnKey::Other => {},
                SpawnKey::Marker(marker) => {
                    let id: ComponentId = match marker.component_id() {
                        Ok(id) => id,
                        Err(e) => {
                            return Err(LuaError::Runtime(e));
                        },
                    };
                    let data = match value {
                        SpawnValue::Default => None,
                        SpawnValue::Table(table) => Some(table),
                        SpawnValue::Other => None,
                    };
                    components.push((id, data));
                },
            }
        }
        self.spawns.push(SpawnCmd { components });
        assert(self.spawns@.drop_last() =~= old(self).spawns@);
        Ok(())
    }

    /// Asks for the end of an entity.
    pub fn despawn(&mut self, entity_bits: i64)
        requires
            is_entity(entity_bits as u64),
        ensures
            final(self).despawns@ == old(self).despawns@.push(entity_bits as u64),
            final(self).spawns@ == old(self).spawns@,
            final(self).triggers@ == old(self).triggers@,
    {
        self.despawns.push(#[verifier::truncate] (entity_bits as u64));
    }

    /// Asks for an event to be sent to an entity.
    pub fn trigger(&mut self, entity_bits: i64, event: &LuaComponentMarker, data_table: T) -> (result:
        Result<(), RuntimeError>)
        requires
            is_entity(entity_bits as u64),
        ensures
            result is Ok <==> event.resolved_id is Some,
            result is Ok ==> final(self).triggers@ == old(self).triggers@.push(
                (TriggerCmd {
                    entity: entity_bits as u64,
                    event_id: event.resolved_id->0,
                    data_table,
                }),
            ) && final(self).spawns@ == old(self).spawns@ && final(self).despawns@ == old(
                self,
            ).despawns@,
            result matches Err(e) ==> e.message@ == "component marker not yet resolved"@
                && *final(self) == *old(self),
    {
        let event_id: ComponentId = match event.component_id() {
            Ok(id) => id,
            Err(e) => {
                return Err(e);
            },
        };
        self.triggers.push(
            TriggerCmd {
                entity: #[verifier::truncate] (entity_bits as u64),
                event_id,
                data_table,
            },
        );
        Ok(())
    }
}

/// One step of carrying out a command buffer. Commands are named by their positions in the buffer.
#[derive(Clone, Copy, Debug, PartialEq, Eq, Structural)]
pub enum FlushAction {
    /// Make an entity, which the insertions up to the next such step are for.
    SpawnEntity,
    /// Insert a component filled from the table that the buffer holds for it.
    InsertTable { spawn: usize, component: usize, id: ComponentId },
    /// Insert a component at its default.
    InsertDefault { id: ComponentId },
    /// End an entity.
    Despawn { entity: u64 },
    /// Run an observer for an event.
    RunObserver { trigger: usize, observer: usize },
}

/// The steps that insert the first `n` components of the entity at position `spawn`.
pub open spec fn insert_actions<T>(
    components: Seq<(ComponentId, Option<T>)>,
    spawn: int,
    n: int,
) -> Seq<FlushAction>
    decreases n,
{
    if n <= 0 {
        Seq::empty()
    } else {
        insert_actions(components, spawn, n - 1).push(
            match components[n - 1].1 {
                Some(_) => FlushAction::InsertTable {
                    spawn: spawn as usize,
                    component: (n - 1) as usize,
                    id: components[n - 1].0,
                },
                None => FlushAction::InsertDefault { id: components[n - 1].0 },
            },
        )
    }
}

/// The steps for the first `n` entities to be made.
pub open spec fn spawn_actions<T>(spawns: Seq<SpawnCmd<T>>, n: int) -> Seq<FlushAction>
    decreases n,
{
    if n <= 0 {
        Seq::empty()
    } else {
        spawn_actions(spawns, n - 1).push(FlushAction::SpawnEntity) + insert_actions(
            spawns[n - 1].components@,
            n - 1,
            spawns[n - 1].components@.len() as int,
        )
    }
}

/// The steps that end entities.
pub open spec fn despawn_actions(despawns: Seq<u64>) -> Seq<FlushAction> {
    despawns.map_values(|entity: u64| FlushAction::Despawn { entity })
}

/// The positions of the observers of an event, in the order in which they run.
pub open spec fn observers_of<F>(
    observers: Seq<LuaObserverDescriptor<F>>,
    event_id: ComponentId,
) -> Seq<usize> {
    selected(|i: int| observers[i].event_id == event_id, observers.len() as int)
}

/// The steps for the first `n` events.
pub open spec fn trigger_actions<T, F>(
    triggers: Seq<TriggerCmd<T>>,
    observers: Seq<LuaObserverDescriptor<F>>,
    n: int,
) -> Seq<FlushAction>
    decreases n,
{
    if n <= 0 {
        Seq::empty()
    } else {
        trigger_actions(triggers, observers, n - 1) + observers_of(
            observers,
            triggers[n - 1].event_id,
        ).map_values(
            |observer: usize| FlushAction::RunObserver { trigger: (n - 1) as usize, observer },
        )
    }
}

/// The steps that carry out a command buffer: entities are made, then others are ended, then
/// events are sent, each in the order asked for.
pub open spec fn flush_plan<T, F>(
    buffer: CommandBuffer<T>,
    observers: Seq<LuaObserverDescriptor<F>>,
) -> Seq<FlushAction> {
    spawn_actions(buffer.spawns@, buffer.spawns@.len() as int) + despawn_actions(buffer.despawns@)
        + trigger_actions(buffer.triggers@, observers, buffer.triggers@.len() as int)
}

/// The positions of the observers of an event, in the order in which they run.
pub fn dispatch_trigger<F>(
    event_id: ComponentId,
    observers: &Vec<LuaObserverDescriptor<F>>,
) -> (indices: Vec<usize>)
    ensures
        indices@ == observers_of(observers@, event_id),
{
    let ghost picked = |i: int| observers@[i].event_id == event_id;
    let mut indices: Vec<usize> = Vec::new();
    for i in 0..observers.len()
        invariant
            picked == (|i: int| observers@[i].event_id == event_id),
            indices@ == selected(picked, i as int),
    {
        assert(picked(i as int) == (observers@[i as int].event_id == event_id));
        if observers[i].event_id == event_id {
            indices.push(i);
        }
    }
    indices
}

/// The steps that carry out a command buffer.
pub fn flush_commands<T, F>(
    buffer: &CommandBuffer<T>,
    observers: &Vec<LuaObserverDescriptor<F>>,
) -> (plan: Vec<FlushAction>)
    ensures
        plan@ == flush_plan(*buffer, observers@),
{
    let mut plan: Vec<FlushAction> = Vec::new();
    for i in 0..buffer.spawns.len()
        invariant
            plan@ == spawn_actions(buffer.spawns@, i as int),
    {
        let components = &buffer.spawns[i].components;
        plan.push(FlushAction::SpawnEntity);
        let ghost start = plan@;
        for j in 0..components.len()
            invariant
                plan@ == start + insert_actions(components@, i as int, j as int),
        {
            let action = match &components[j].1 {
                Some(_) => FlushAction::InsertTable { spawn: i, component: j, id: components[j].0 },
                None => FlushAction::InsertDefault { id: components[j].0 },
            };
            plan.push(action);
            assert(plan@ =~= start + insert_actions(components@, i as int, j + 1));
        }
        assert(plan@ == spawn_actions(buffer.spawns@, i + 1));
    }
    let ghost spawned = plan@;
    for i in 0..buffer.despawns.len()
        invariant
            plan@ == spawned + despawn_actions(buffer.despawns@.take(i as int)),
    {
        plan.push(FlushAction::Despawn { entity: buffer.despawns[i] });
        assert(plan@ =~= spawned + despawn_actions(buffer.despawns@.take(i + 1)));
    }
    assert(buffer.despawns@.take(buffer.despawns@.len() as int) =~= buffer.despawns@);
    let ghost despawned = plan@;
    for i in 0..buffer.triggers.len()
        invariant
            plan@ == despawned + trigger_actions(buffer.triggers@, observers@, i as int),
    {
        let indices = dispatch_trigger(buffer.triggers[i].event_id, observers);
        let ghost start = plan@;
        let ghost run = |observer: usize| FlushAction::RunObserver { trigger: i, observer };
        for j in 0..indices.len()
            invariant
                run == (|observer: usize| FlushAction::RunObserver { trigger: i, observer }),
                plan@ == start + indices@.take(j as int).map_values(run),
        {
            plan.push(FlushAction::RunObserver { trigger: i, observer: indices[j] });
            assert(plan@ =~= start + indices@.take(j + 1).map_values(run));
        }
        assert(indices@.take(indices@.len() as int) =~= indices@);
        assert(plan@ =~= despawned + trigger_actions(buffer.triggers@, observers@, i + 1));
    }
    assert(plan@ =~= flush_plan(*buffer, observers@));
    plan
}

/// The part of a flush that a step belongs to: making entities, ending entities, sending events.
pub open spec fn phase(action: FlushAction) -> int {
    match action {
        FlushAction::SpawnEntity | FlushAction::InsertTable { .. }
        | FlushAction::InsertDefault { .. } => 0,
        FlushAction::Despawn { .. } => 1,
        FlushAction::RunObserver { .. } => 2,
    }
}

/// The steps that insert components belong to the making of entities.
proof fn lemma_insert_phase<T>(components: Seq<(ComponentId, Option<T>)>, spawn: int, n: int)
    ensures
        forall|k: int|
            0 <= k < insert_actions(components, spawn, n).len() ==> phase(
                #[trigger] insert_actions(components, spawn, n)[k],
            ) == 0,
    decreases n,
{
    if n > 0 {
        lemma_insert_phase(components, spawn, n - 1);
        let before = insert_actions(components, spawn, n - 1);
        let all = insert_actions(components, spawn, n);
        assert forall|k: int| 0 <= k < all.len() implies phase(#[trigger] all[k]) == 0 by {
            if k < before.len() {
                assert(all[k] == before[k]);
            }
        }
    }
}

/// The steps for entities to be made belong to the making of entities.
proof fn lemma_spawn_phase<T>(spawns: Seq<SpawnCmd<T>>, n: int)
    ensures
        forall|k: int|
            0 <= k < spawn_actions(spawns, n).len() ==> phase(#[trigger] spawn_actions(spawns, n)[k])
                == 0,
    decreases n,
{
    if n > 0 {
        lemma_spawn_phase(spawns, n - 1);
        let components = spawns[n - 1].components@;
        lemma_insert_phase(components, n - 1, components.len() as int);
        let before = spawn_actions(spawns, n - 1);
        let added = insert_actions(components, n - 1, components.len() as int);
        let all = spawn_actions(spawns, n);
        assert forall|k: int| 0 <= k < all.len() implies phase(#[trigger] all[k]) == 0 by {
            if k < before.len() {
                assert(all[k] == before[k]);
            } else if k > before.len() {
                assert(all[k] == added[k - before.len() - 1]);
            }
        }
    }
}

/// The steps for events run observers, each for an event that it observes, and each such pair of
/// an event and an observer is among them.
proof fn lemma_trigger_actions<T, F>(
    triggers: Seq<TriggerCmd<T>>,
    observers: Seq<LuaObserverDescriptor<F>>,
    n: int,
)
    requires
        n <= triggers.len() <= usize::MAX,
        observers.len() <= usize::MAX,
    ensures
        forall|k: int|
            0 <= k < trigger_actions(triggers, observers, n).len() ==> phase(
                #[trigger] trigger_actions(triggers, observers, n)[k],
            ) == 2,
        forall|t: usize, o: usize|
            (#[trigger] trigger_actions(triggers, observers, n).contains(
                FlushAction::RunObserver { trigger: t, observer: o },
            )) <==> t < n && o < observers.len() && observers[o as int].event_id
                == triggers[t as int].event_id,
    decreases n,
{
    if n > 0 {
        lemma_trigger_actions(triggers, observers, n - 1);
        let event_id = triggers[n - 1].event_id;
        law_selected(|i: int| observers[i].event_id == event_id, observers.len() as int);
        let before = trigger_actions(triggers, observers, n - 1);
        let found = observers_of(observers, event_id);
        let run = |observer: usize|
            FlushAction::RunObserver { trigger: (n - 1) as usize, observer };
        let added = found.map_values(run);
        let all = trigger_actions(triggers, observers, n);
        assert(all == before + added);
        assert forall|t: usize, o: usize|
            (#[trigger] all.contains(FlushAction::RunObserver { trigger: t, observer: o })) <==> t
                < n && o < observers.len() && observers[o as int].event_id
                == triggers[t as int].event_id by {
            let action = FlushAction::RunObserver { trigger: t, observer: o };
            if before.contains(action) {
                let k = choose|k: int| 0 <= k < before.len() && before[k] == action;
                assert(all[k] == action);
            }
            if t == n - 1 && found.contains(o) {
                let k = choose|k: int| 0 <= k < found.len() && found[k] == o;
                assert(added[k] == action);
                assert(all[before.len() + k] == action);
            }
            if all.contains(action) && !before.contains(action) {
                let k = choose|k: int| 0 <= k < all.len() && all[k] == action;
                assert(k >= before.len());
                assert(added[k - before.len()] == action);
                assert(found.contains(found[k - before.len()]));
            }
        }
    }
}

/// Entities are made before any is ended, and both come before any event is sent.
pub proof fn law_flush_order<T, F>(
    buffer: CommandBuffer<T>,
    observers: Seq<LuaObserverDescriptor<F>>,
    i: int,
    j: int,
)
    requires
        0 <= i <= j < flush_plan(buffer, observers).len(),
        observers.len() <= usize::MAX,
    ensures
        phase(flush_plan(buffer, observers)[i]) <= phase(flush_plan(buffer, observers)[j]),
{
    let spawned = spawn_actions(buffer.spawns@, buffer.spawns@.len() as int);
    let despawned = despawn_actions(buffer.despawns@);
    let triggered = trigger_actions(buffer.triggers@, observers, buffer.triggers@.len() as int);
    let plan = flush_plan(buffer, observers);
    assert(buffer.triggers.len() == buffer.triggers@.len());
    lemma_spawn_phase(buffer.spawns@, buffer.spawns@.len() as int);
    lemma_trigger_actions(buffer.triggers@, observers, buffer.triggers@.len() as int);
    assert forall|k: int| 0 <= k < plan.len() implies phase(#[trigger] plan[k]) == (if k
        < spawned.len() {
        0int
    } else if k < spawned.len() + despawned.len() {
        1
    } else {
        2
    }) by {
        if k < spawned.len() {
            assert(plan[k] == spawned[k]);
        } else if k < spawned.len() + despawned.len() {
            assert(plan[k] == despawned[k - spawned.len()]);
        } else {
            assert(plan[k] == triggered[k - spawned.len() - despawned.len()]);
        }
    }
}

/// An observer runs for an event if and only if it observes that event.
pub proof fn law_observers_see_their_events<T, F>(
    buffer: CommandBuffer<T>,
    observers: Seq<LuaObserverDescriptor<F>>,
    trigger: usize,
    observer: usize,
)
    requires
        observers.len() <= usize::MAX,
    ensures
        flush_plan(buffer, observers).contains(FlushAction::RunObserver { trigger, observer }) <==> {
            &&& trigger < buffer.triggers@.len()
            &&& observer < observers.len()
            &&& observers[observer as int].event_id == buffer.triggers@[trigger as int].event_id
        },
{
    let spawned = spawn_actions(buffer.spawns@, buffer.spawns@.len() as int);
    let despawned = despawn_actions(buffer.despawns@);
    let triggered = trigger_actions(buffer.triggers@, observers, buffer.triggers@.len() as int);
    let plan = flush_plan(buffer, observers);
    let action = FlushAction::RunObserver { trigger, observer };
    assert(buffer.triggers.len() == buffer.triggers@.len());
    lemma_spawn_phase(buffer.spawns@, buffer.spawns@.len() as int);
    lemma_trigger_actions(buffer.triggers@, observers, buffer.triggers@.len() as int);
    if triggered.contains(action) {
        let k = choose|k: int| 0 <= k < triggered.len() && triggered[k] == action;
        assert(plan[spawned.len() + despawned.len() + k] == action);
    }
    if plan.contains(action) {
        let k = choose|k: int| 0 <= k < plan.len() && plan[k] == action;
        if k < spawned.len() {
            assert(phase(spawned[k]) == 0);
        } else if k < spawned.len() + despawned.len() {
            assert(plan[k] == despawned[k - spawned.len()]);
        } else {
            assert(triggered[k - spawned.len() - despawned.len()] == action);
        }
    }
}

/// How many of the first `k` steps make an entity.
pub open spec fn entities_made(plan: Seq<FlushAction>, k: int) -> nat
    decreases k,
{
    if k <= 0 {
        0
    } else if plan[k - 1] == FlushAction::SpawnEntity {
        entities_made(plan, k - 1) + 1
    } else {
        entities_made(plan, k - 1)
    }
}

/// How many entities the first `k` steps make does not depend on the steps behind them.
proof fn lemma_made_in_prefix(a: Seq<FlushAction>, b: Seq<FlushAction>, k: int)
    requires
        k <= a.len() <= b.len(),
        forall|i: int| 0 <= i < k ==> a[i] == b[i],
    ensures
        entities_made(a, k) == entities_made(b, k),
    decreases k,
{
    if k > 0 {
        lemma_made_in_prefix(a, b, k - 1);
        assert(a[k - 1] == b[k - 1]);
    }
}

/// Which step inserts which component.
proof fn lemma_insert_actions<T>(components: Seq<(ComponentId, Option<T>)>, spawn: int, n: int)
    requires
        0 <= n <= components.len(),
    ensures
        insert_actions(components, spawn, n).len() == n,
        forall|k: int|
            0 <= k < n ==> #[trigger] insert_actions(components, spawn, n)[k] == (
            match components[k].1 {
                Some(_) => FlushAction::InsertTable {
                    spawn: spawn as usize,
                    component: k as usize,
                    id: components[k].0,
                },
                None => FlushAction::InsertDefault { id: components[k].0 },
            }),
    decreases n,
{
    if n > 0 {
        lemma_insert_actions(components, spawn, n - 1);
        let before = insert_actions(components, spawn, n - 1);
        let all = insert_actions(components, spawn, n);
        assert(forall|k: int| 0 <= k < n - 1 ==> all[k] == before[k]);
    }
}

/// Whether step `k` inserts component `component` of the entity at position `spawn`.
pub open spec fn inserts_component<T>(
    plan: Seq<FlushAction>,
    k: int,
    component: (ComponentId, Option<T>),
    spawn: usize,
    position: usize,
) -> bool {
    &&& 0 <= k < plan.len()
    &&& plan[k] == match component.1 {
        Some(_) => FlushAction::InsertTable { spawn, component: position, id: component.0 },
        None => FlushAction::InsertDefault { id: component.0 },
    }
    &&& entities_made(plan, k) == spawn + 1
}

/// Where component `position` of the entity at position `spawn` is inserted.
pub open spec fn insertion_step<T>(spawns: Seq<SpawnCmd<T>>, spawn: int, position: int) -> int {
    spawn_actions(spawns, spawn).len() + 1 + position
}

/// The steps for the first `n` entities make `n` entities, and insert each component while the
/// entity that it is for is the last one made.
proof fn lemma_spawn_actions<T>(spawns: Seq<SpawnCmd<T>>, n: int)
    requires
        0 <= n <= spawns.len() <= usize::MAX,
    ensures
        entities_made(spawn_actions(spawns, n), spawn_actions(spawns, n).len() as int) == n,
        forall|s: int, p: int|
            0 <= s < n && 0 <= p < spawns[s].components@.len() ==> inserts_component(
                spawn_actions(spawns, n),
                #[trigger] insertion_step(spawns, s, p),
                spawns[s].components@[p],
                s as usize,
                p as usize,
            ),
    decreases n,
{
    if n > 0 {
        lemma_spawn_actions(spawns, n - 1);
        let before = spawn_actions(spawns, n - 1);
        let all = spawn_actions(spawns, n);
        let components = spawns[n - 1].components@;
        let added = insert_actions(components, n - 1, components.len() as int);
        let base = before.len() as int;
        lemma_insert_actions(components, n - 1, components.len() as int);
        lemma_made_in_prefix(before, all, base);
        assert(all == before.push(FlushAction::SpawnEntity) + added);
        lemma_made_behind(all, base, n - 1, components.len() as int);
        assert forall|s: int, p: int|
            0 <= s < n && 0 <= p < spawns[s].components@.len() implies inserts_component(
            all,
            #[trigger] insertion_step(spawns, s, p),
            spawns[s].components@[p],
            s as usize,
            p as usize,
        ) by {
            let k = insertion_step(spawns, s, p);
            if s < n - 1 {
                assert(inserts_component(
                    before,
                    k,
                    spawns[s].components@[p],
                    s as usize,
                    p as usize,
                ));
                assert(all[k] == before[k]);
                lemma_made_in_prefix(before, all, k);
            } else {
                assert(all[k] == added[p]);
                assert(entities_made(all, base + 1 + p) == n);
            }
        }
        assert(all.len() == base + 1 + components.len());
        assert(entities_made(all, base + 1 + components.len()) == n);
    }
}

/// Behind the step that makes an entity, `m` steps that insert components make no other.
proof fn lemma_made_behind(all: Seq<FlushAction>, base: int, made: int, m: int)
    requires
        0 <= base,
        0 <= m,
        all.len() == base + 1 + m,
        all[base] == FlushAction::SpawnEntity,
        forall|i: int| base < i < all.len() ==> #[trigger] all[i] != FlushAction::SpawnEntity,
        entities_made(all, base) == made,
    ensures
        forall|j: int|
            0 <= j <= m ==> #[trigger] entities_made(all, base + 1 + j) == made + 1,
{
    assert forall|j: int| 0 <= j <= m implies #[trigger] entities_made(all, base + 1 + j) == made
        + 1 by {
        lemma_made_behind_step(all, base, made, j);
    }
}

/// One step of the count behind the step that makes an entity.
proof fn lemma_made_behind_step(all: Seq<FlushAction>, base: int, made: int, j: int)
    requires
        0 <= base,
        0 <= j < all.len() - base,
        all[base] == FlushAction::SpawnEntity,
        forall|i: int| base < i < all.len() ==> #[trigger] all[i] != FlushAction::SpawnEntity,
        entities_made(all, base) == made,
    ensures
        entities_made(all, base + 1 + j) == made + 1,
    decreases j,
{
    if j > 0 {
        lemma_made_behind_step(all, base, made, j - 1);
        assert(all[base + j] != FlushAction::SpawnEntity);
    }
}

/// Each component that was asked for is inserted while the entity that it was asked for is the
/// last one made: from its table where there is one, and at its default where there is none.
pub proof fn law_components_reach_their_entities<T, F>(
    buffer: CommandBuffer<T>,
    observers: Seq<LuaObserverDescriptor<F>>,
    spawn: usize,
    position: usize,
)
    requires
        spawn < buffer.spawns@.len(),
        position < buffer.spawns@[spawn as int].components@.len(),
    ensures
        inserts_component(
            flush_plan(buffer, observers),
            insertion_step(buffer.spawns@, spawn as int, position as int),
            buffer.spawns@[spawn as int].components@[position as int],
            spawn,
            position,
        ),
{
    let n = buffer.spawns@.len() as int;
    assert(buffer.spawns.len() == n);
    let spawned = spawn_actions(buffer.spawns@, n);
    let plan = flush_plan(buffer, observers);
    let k = insertion_step(buffer.spawns@, spawn as int, position as int);
    lemma_spawn_actions(buffer.spawns@, n);
    assert(inserts_component(
        spawned,
        k,
        buffer.spawns@[spawn as int].components@[position as int],
        spawn,
        position,
    ));
    assert(plan[k] == spawned[k]);
    lemma_made_in_prefix(spawned, plan, k);
}

/// Where the steps that end entities begin.
pub open spec fn first_despawn<T>(buffer: CommandBuffer<T>) -> int {
    insertion_step(buffer.spawns@, buffer.spawns@.len() as int, 0) - 1
}

/// The entities to be ended are ended, each of them as often as was asked for and in that order,
/// and no others are.
pub proof fn law_entities_are_ended_as_asked<T, F>(
    buffer: CommandBuffer<T>,
    observers: Seq<LuaObserverDescriptor<F>>,
)
    requires
        observers.len() <= usize::MAX,
    ensures
        0 <= first_despawn(buffer),
        first_despawn(buffer) + buffer.despawns@.len() <= flush_plan(buffer, observers).len(),
        forall|i: int|
            0 <= i < buffer.despawns@.len() ==> (flush_plan(buffer, observers)[first_despawn(buffer)
                + i] matches FlushAction::Despawn { entity } && entity
                == #[trigger] buffer.despawns@[i]),
        forall|k: int|
            0 <= k < flush_plan(buffer, observers).len() ==> (#[trigger] flush_plan(
                buffer,
                observers,
            )[k] is Despawn <==> first_despawn(buffer) <= k < first_despawn(buffer)
                + buffer.despawns@.len()),
        forall|e: u64| #[trigger]
            flush_plan(buffer, observers).contains(FlushAction::Despawn { entity: e })
                <==> buffer.despawns@.contains(e),
{
    let spawned = spawn_actions(buffer.spawns@, buffer.spawns@.len() as int);
    let despawned = despawn_actions(buffer.despawns@);
    let triggered = trigger_actions(buffer.triggers@, observers, buffer.triggers@.len() as int);
    let plan = flush_plan(buffer, observers);
    let first = spawned.len() as int;
    assert(buffer.triggers.len() == buffer.triggers@.len());
    lemma_spawn_phase(buffer.spawns@, buffer.spawns@.len() as int);
    lemma_trigger_actions(buffer.triggers@, observers, buffer.triggers@.len() as int);
    assert forall|i: int| 0 <= i < buffer.despawns@.len() implies plan[first + i]
        == (FlushAction::Despawn { entity: #[trigger] buffer.despawns@[i] }) by {
        assert(plan[first + i] == despawned[i]);
    }
    assert forall|k: int| 0 <= k < plan.len() implies (#[trigger] plan[k] is Despawn <==> first <= k
        < first + buffer.despawns@.len()) by {
        if k < first {
            assert(plan[k] == spawned[k]);
            assert(phase(spawned[k]) == 0);
        } else if k < first + despawned.len() {
            assert(plan[k] == despawned[k - first]);
        } else {
            assert(plan[k] == triggered[k - first - despawned.len()]);
            assert(phase(triggered[k - first - despawned.len()]) == 2);
        }
    }
    assert forall|e: u64| #[trigger]
        plan.contains(FlushAction::Despawn { entity: e }) <==> buffer.despawns@.contains(e) by {
        if buffer.despawns@.contains(e) {
            let i = choose|i: int| 0 <= i < buffer.despawns@.len() && buffer.despawns@[i] == e;
            assert(plan[first + i] == (FlushAction::Despawn { entity: e }));
        }
        if plan.contains(FlushAction::Despawn { entity: e }) {
            let k = choose|k: int|
                0 <= k < plan.len() && plan[k] == (FlushAction::Despawn { entity: e });
            assert(plan[k] is Despawn);
            assert(buffer.despawns@[k - first] == e);
        }
    }
}

/// The steps that make entities are packed: each entity is made by one step, its components follow
/// one by one, the next entity comes right behind them, and behind the last entity nothing more is
/// made or inserted.
pub proof fn law_entities_are_made_one_by_one<T, F>(
    buffer: CommandBuffer<T>,
    observers: Seq<LuaObserverDescriptor<F>>,
)
    requires
        observers.len() <= usize::MAX,
    ensures
        insertion_step(buffer.spawns@, 0, 0) == 1,
        forall|s: int|
            0 <= s < buffer.spawns@.len() ==> {
                &&& insertion_step(buffer.spawns@, s + 1, 0) == insertion_step(buffer.spawns@, s, 0)
                    + (#[trigger] buffer.spawns@[s]).components@.len() + 1
                &&& flush_plan(buffer, observers)[insertion_step(buffer.spawns@, s, 0) - 1]
                    == FlushAction::SpawnEntity
            },
        forall|s: int, p: int|
            0 <= s < buffer.spawns@.len() && 0 <= p < buffer.spawns@[s].components@.len() ==> {
                let k = #[trigger] insertion_step(buffer.spawns@, s, p);
                let component = buffer.spawns@[s].components@[p];
                &&& k == insertion_step(buffer.spawns@, s, 0) + p
                &&& component.1 is Some ==> flush_plan(buffer, observers)[k] == (
                FlushAction::InsertTable {
                    spawn: s as usize,
                    component: p as usize,
                    id: component.0,
                })
                &&& component.1 is None ==> flush_plan(buffer, observers)[k] == (
                FlushAction::InsertDefault { id: component.0 })
            },
        forall|k: int|
            insertion_step(buffer.spawns@, buffer.spawns@.len() as int, 0) - 1 <= k < flush_plan(
                buffer,
                observers,
            ).len() ==> #[trigger] flush_plan(buffer, observers)[k] is Despawn || flush_plan(
                buffer,
                observers,
            )[k] is RunObserver,
{
    let spawns = buffer.spawns@;
    let n = spawns.len() as int;
    let spawned = spawn_actions(spawns, n);
    let despawned = despawn_actions(buffer.despawns@);
    let triggered = trigger_actions(buffer.triggers@, observers, buffer.triggers@.len() as int);
    let plan = flush_plan(buffer, observers);
    assert(buffer.spawns.len() == n);
    assert(buffer.triggers.len() == buffer.triggers@.len());
    lemma_trigger_actions(buffer.triggers@, observers, buffer.triggers@.len() as int);
    lemma_spawn_actions(spawns, n);
    assert forall|s: int| 0 <= s < n implies {
        &&& insertion_step(spawns, s + 1, 0) == insertion_step(spawns, s, 0) + (
        #[trigger] spawns[s]).components@.len() + 1
        &&& plan[insertion_step(spawns, s, 0) - 1] == FlushAction::SpawnEntity
    } by {
        lemma_insert_actions(spawns[s].components@, s, spawns[s].components@.len() as int);
        lemma_spawn_prefix(spawns, s + 1, n);
        let part = spawn_actions(spawns, s + 1);
        let k = spawn_actions(spawns, s).len() as int;
        assert(part[k] == FlushAction::SpawnEntity);
        assert(spawned[k] == part[k]);
        assert(plan[k] == spawned[k]);
    }
    assert forall|s: int, p: int| 0 <= s < n && 0 <= p < spawns[s].components@.len() implies {
        let k = #[trigger] insertion_step(spawns, s, p);
        let component = spawns[s].components@[p];
        &&& k == insertion_step(spawns, s, 0) + p
        &&& component.1 is Some ==> plan[k] == (FlushAction::InsertTable {
            spawn: s as usize,
            component: p as usize,
            id: component.0,
        })
        &&& component.1 is None ==> plan[k] == (FlushAction::InsertDefault { id: component.0 })
    } by {
        let k = insertion_step(spawns, s, p);
        assert(inserts_component(
            spawned,
            k,
            spawns[s].components@[p],
            s as usize,
            p as usize,
        ));
        assert(plan[k] == spawned[k]);
    }
    assert forall|k: int| spawned.len() <= k < plan.len() implies #[trigger] plan[k] is Despawn
        || plan[k] is RunObserver by {
        if k < spawned.len() + despawned.len() {
            assert(plan[k] == despawned[k - spawned.len()]);
        } else {
            assert(plan[k] == triggered[k - spawned.len() - despawned.len()]);
            assert(phase(triggered[k - spawned.len() - despawned.len()]) == 2);
        }
    }
}

/// The steps for the first entities do not depend on those behind them.
proof fn lemma_spawn_prefix<T>(spawns: Seq<SpawnCmd<T>>, m: int, n: int)
    requires
        0 <= m <= n,
    ensures
        spawn_actions(spawns, m).is_prefix_of(spawn_actions(spawns, n)),
    decreases n - m,
{
    if m < n {
        lemma_spawn_prefix(spawns, m, n - 1);
        let before = spawn_actions(spawns, n - 1);
        let all = spawn_actions(spawns, n);
        assert forall|k: int| 0 <= k < before.len() implies all[k] == before[k] by {}
        assert(spawn_actions(spawns, m).is_prefix_of(all));
    }
}

/// Events are sent in the order asked for, and each to its observers in their order.
proof fn lemma_trigger_actions_ascend<T, F>(
    triggers: Seq<TriggerCmd<T>>,
    observers: Seq<LuaObserverDescriptor<F>>,
    n: int,
)
    requires
        0 <= n <= triggers.len() <= usize::MAX,
        observers.len() <= usize::MAX,
    ensures
        forall|k: int|
            0 <= k < trigger_actions(triggers, observers, n).len() ==> (#[trigger] trigger_actions(
                triggers,
                observers,
                n,
            )[k] matches FlushAction::RunObserver { trigger, .. } && trigger < n),
        forall|j: int, k: int|
            0 <= j < k < trigger_actions(triggers, observers, n).len() ==> runs_before(
                #[trigger] trigger_actions(triggers, observers, n)[j],
                #[trigger] trigger_actions(triggers, observers, n)[k],
            ),
    decreases n,
{
    if n > 0 {
        lemma_trigger_actions_ascend(triggers, observers, n - 1);
        let event_id = triggers[n - 1].event_id;
        law_selected(|i: int| observers[i].event_id == event_id, observers.len() as int);
        let before = trigger_actions(triggers, observers, n - 1);
        let found = observers_of(observers, event_id);
        let run = |observer: usize|
            FlushAction::RunObserver { trigger: (n - 1) as usize, observer };
        let added = found.map_values(run);
        let all = trigger_actions(triggers, observers, n);
        assert(all == before + added);
        assert forall|k: int| 0 <= k < all.len() implies #[trigger] all[k] == (if k < before.len() {
            before[k]
        } else {
            FlushAction::RunObserver {
                trigger: (n - 1) as usize,
                observer: found[k - before.len()],
            }
        }) by {}
    }
}

/// Whether one run of an observer comes before another: its event was asked for earlier, or the
/// event is the same and the observer was declared earlier.
pub open spec fn runs_before(a: FlushAction, b: FlushAction) -> bool {
    &&& a matches FlushAction::RunObserver { trigger: t, observer: o }
    &&& b matches FlushAction::RunObserver { trigger: u, observer: p }
    &&& t < u || (t == u && o < p)
}

/// Events are sent in the order asked for, each to its observers in the order in which those were
/// declared, so that no observer sees an event twice.
pub proof fn law_events_are_sent_in_order<T, F>(
    buffer: CommandBuffer<T>,
    observers: Seq<LuaObserverDescriptor<F>>,
    j: int,
    k: int,
)
    requires
        observers.len() <= usize::MAX,
        0 <= j < k < flush_plan(buffer, observers).len(),
    ensures
        flush_plan(buffer, observers)[j] matches FlushAction::RunObserver {
            trigger: t,
            observer: o,
        } ==> (flush_plan(buffer, observers)[k] matches FlushAction::RunObserver {
            trigger: u,
            observer: p,
        } && (t < u || (t == u && o < p))),
{
    let spawned = spawn_actions(buffer.spawns@, buffer.spawns@.len() as int);
    let despawned = despawn_actions(buffer.despawns@);
    let triggered = trigger_actions(buffer.triggers@, observers, buffer.triggers@.len() as int);
    let plan = flush_plan(buffer, observers);
    let first = (spawned.len() + despawned.len()) as int;
    assert(buffer.triggers.len() == buffer.triggers@.len());
    lemma_spawn_phase(buffer.spawns@, buffer.spawns@.len() as int);
    lemma_trigger_actions_ascend(buffer.triggers@, observers, buffer.triggers@.len() as int);
    if j < spawned.len() {
        assert(phase(spawned[j]) == 0);
    } else if j < first {
        assert(plan[j] == despawned[j - spawned.len()]);
    } else {
        assert(plan[j] == triggered[j - first]);
        assert(plan[k] == triggered[k - first]);
        assert(runs_before(triggered[j - first], triggered[k - first]));
    }
}

/// The observers of an event are those declared for it, all of them and in the order of their
/// declaration.
pub proof fn law_observers_of_an_event<F>(
    observers: Seq<LuaObserverDescriptor<F>>,
    event_id: ComponentId,
)
    requires
        observers.len() <= usize::MAX,
    ensures
        forall|o: usize| #[trigger]
            observers_of(observers, event_id).contains(o) <==> o < observers.len()
                && observers[o as int].event_id == event_id,
        forall|i: int, j: int|
            0 <= i < j < observers_of(observers, event_id).len() ==> observers_of(
                observers,
                event_id,
            )[i] < observers_of(observers, event_id)[j],
{
    law_selected(|i: int| observers[i].event_id == event_id, observers.len() as int);
}

/// How many of the first `n` entries have a marker as key.
pub open spec fn markers_among<T, E>(
    items: Seq<Result<(SpawnKey, SpawnValue<T>), E>>,
    n: int,
) -> nat
    decreases n,
{
    if n <= 0 {
        0
    } else {
        markers_among(items, n - 1) + if items[n - 1]->Ok_0.0 is Marker {
            1nat
        } else {
            0nat
        }
    }
}

/// The components of an entity are those that markers name, all of them and in order: an entry with
/// a table brings that table, any other value none.
pub proof fn law_components_are_those_that_markers_name<T, E>(
    items: Seq<Result<(SpawnKey, SpawnValue<T>), E>>,
    n: int,
)
    requires
        0 <= n <= items.len(),
    ensures
        named_components(items, n).len() == markers_among(items, n),
        forall|i: int|
            0 <= i < n ==> ((#[trigger] items[i])->Ok_0.0 matches SpawnKey::Marker(marker) ==> {
                let component = named_components(items, n)[markers_among(items, i) as int];
                &&& markers_among(items, i) < markers_among(items, n)
                &&& component.0 == marker.resolved_id->0
                &&& items[i]->Ok_0.1 matches SpawnValue::Table(table) ==> component.1 == Some(table)
                &&& !(items[i]->Ok_0.1 is Table) ==> component.1 is None
            }),
    decreases n,
{
    if n > 0 {
        law_components_are_those_that_markers_name(items, n - 1);
        let before = named_components(items, n - 1);
        let all = named_components(items, n);
        assert forall|i: int| 0 <= i < n - 1 && (#[trigger] items[i])->Ok_0.0 is Marker implies
            markers_among(items, i) < before.len() && all[markers_among(items, i) as int]
            == before[markers_among(items, i) as int] by {}
    }
}

/// What stops a command that makes an entity: an entry that could not be read, and a marker without
/// a number; with what error it does so.
pub proof fn law_what_stops_a_spawn<T, E>(
    item: Result<(SpawnKey, SpawnValue<T>), E>,
    error: LuaError<E>,
)
    ensures
        item matches Err(e) ==> stops(item) && (stops_with(item, error) <==> error
            == LuaError::<E>::External(e)),
        item matches Ok((SpawnKey::Other, _)) ==> !stops(item),
        item matches Ok((SpawnKey::Marker(marker), _)) ==> (stops(item)
            <==> marker.resolved_id is None) && (stops_with(item, error) ==> (error matches
            LuaError::Runtime(e) && e.message@ == "component marker not yet resolved"@)),
{
}

/// What carrying out a command buffer comes to: the entities to be ended are ended, all of them and
/// in order, behind all that is made and before any event is sent; each event runs the observers
/// that were declared for it, all of them, in order, and no others.
pub proof fn law_carrying_out_commands<T, F>(
    buffer: CommandBuffer<T>,
    observers: Vec<LuaObserverDescriptor<F>>,
    plan: Vec<FlushAction>,
) -> (first: int)
    requires
        call_ensures(flush_commands::<T, F>, (&buffer, &observers), plan),
    ensures
        0 <= first,
        first + buffer.despawns@.len() <= plan@.len(),
        forall|i: int|
            0 <= i < buffer.despawns@.len() ==> (plan@[first + i] matches FlushAction::Despawn {
                entity,
            } && entity == #[trigger] buffer.despawns@[i]),
        forall|k: int|
            0 <= k < first ==> #[trigger] plan@[k] is SpawnEntity || plan@[k] is InsertTable
                || plan@[k] is InsertDefault,
        forall|k: int|
            first + buffer.despawns@.len() <= k < plan@.len() ==> #[trigger] plan@[k]
                is RunObserver,
        forall|entity: u64| #[trigger]
            plan@.contains(FlushAction::Despawn { entity }) <==> buffer.despawns@.contains(entity),
        forall|trigger: usize, observer: usize| #[trigger]
            plan@.contains(FlushAction::RunObserver { trigger, observer }) <==> trigger
                < buffer.triggers@.len() && observer < observers@.len()
                && observers@[observer as int].event_id == buffer.triggers@[trigger as int].event_id,
        forall|j: int, k: int|
            first + buffer.despawns@.len() <= j < k < plan@.len() ==> runs_before(
                #[trigger] plan@[j],
                #[trigger] plan@[k],
            ),
{
    let plan_seq = flush_plan(buffer, observers@);
    assert(plan@ == plan_seq);
    assert(observers.len() == observers@.len());
    let first = first_despawn(buffer);
    let end = first + buffer.despawns@.len();
    law_entities_are_ended_as_asked(buffer, observers@);
    law_entities_are_made_one_by_one(buffer, observers@);
    lemma_spawn_phase(buffer.spawns@, buffer.spawns@.len() as int);
    let spawned = spawn_actions(buffer.spawns@, buffer.spawns@.len() as int);
    assert(first == spawned.len());
    assert forall|k: int| 0 <= k < first implies #[trigger] plan@[k] is SpawnEntity || plan@[k]
        is InsertTable || plan@[k] is InsertDefault by {
        assert(plan@[k] == spawned[k]);
        assert(phase(spawned[k]) == 0);
    }
    assert forall|k: int| end <= k < plan@.len() implies #[trigger] plan@[k] is RunObserver by {
        assert(!(plan_seq[k] is Despawn));
    }
    assert forall|trigger: usize, observer: usize| #[trigger]
        plan@.contains(FlushAction::RunObserver { trigger, observer }) <==> trigger
            < buffer.triggers@.len() && observer < observers@.len()
            && observers@[observer as int].event_id == buffer.triggers@[trigger as int].event_id by {
        law_observers_see_their_events(buffer, observers@, trigger, observer);
    }
    assert forall|j: int, k: int| end <= j < k < plan@.len() implies runs_before(
        #[trigger] plan@[j],
        #[trigger] plan@[k],
    ) by {
        law_events_are_sent_in_order(buffer, observers@, j, k);
    }
    first
}

/// How entities are made when a command buffer is carried out: one after the other, each by one step,
/// which its components follow one by one, from their tables where they have one and at their
/// defaults where not. `at` says where an entity is made.
pub proof fn law_making_entities<T, F>(
    buffer: CommandBuffer<T>,
    observers: Vec<LuaObserverDescriptor<F>>,
    plan: Vec<FlushAction>,
) -> (at: spec_fn(int) -> int)
    requires
        call_ensures(flush_commands::<T, F>, (&buffer, &observers), plan),
    ensures
        at(0) == 0,
        forall|s: int|
            0 <= s < buffer.spawns@.len() ==> {
                &&& at(s + 1) == at(s) + 1 + (#[trigger] buffer.spawns@[s]).components@.len()
                &&& plan@[at(s)] is SpawnEntity
            },
        forall|s: usize, p: usize|
            s < buffer.spawns@.len() && p < buffer.spawns@[s as int].components@.len() ==> ({
                let component = #[trigger] buffer.spawns@[s as int].components@[p as int];
                match component.1 {
                    Some(_) => plan@[at(s as int) + 1 + p] == (FlushAction::InsertTable {
                        spawn: s,
                        component: p,
                        id: component.0,
                    }),
                    None => plan@[at(s as int) + 1 + p] == (FlushAction::InsertDefault {
                        id: component.0,
                    }),
                }
            }),
        forall|k: int|
            at(buffer.spawns@.len() as int) <= k < plan@.len() ==> #[trigger] plan@[k] is Despawn
                || plan@[k] is RunObserver,
{
    assert(plan@ == flush_plan(buffer, observers@));
    assert(observers.len() == observers@.len());
    let spawns = buffer.spawns@;
    let at = |s: int| insertion_step(spawns, s, 0) - 1;
    law_entities_are_made_one_by_one(buffer, observers@);
    assert forall|s: usize, p: usize|
        s < spawns.len() && p < spawns[s as int].components@.len() implies ({
        let component = #[trigger] spawns[s as int].components@[p as int];
        match component.1 {
            Some(_) => plan@[at(s as int) + 1 + p] == (FlushAction::InsertTable {
                spawn: s,
                component: p,
                id: component.0,
            }),
            None => plan@[at(s as int) + 1 + p] == (FlushAction::InsertDefault { id: component.0 }),
        }
    }) by {
        let k = insertion_step(spawns, s as int, p as int);
        assert(k == at(s as int) + 1 + p);
    }
    at
}

/// The observers that are run for an event are those declared for it, all of them, in the order of
/// their declaration.
pub proof fn law_dispatching_an_event<F>(
    event_id: ComponentId,
    observers: Vec<LuaObserverDescriptor<F>>,
    indices: Vec<usize>,
)
    requires
        call_ensures(dispatch_trigger::<F>, (event_id, &observers), indices),
    ensures
        forall|o: usize| #[trigger]
            indices@.contains(o) <==> o < observers@.len() && observers@[o as int].event_id
                == event_id,
        forall|i: int, j: int| 0 <= i < j < indices@.len() ==> indices@[i] < indices@[j],
{
    assert(observers.len() == observers@.len());
    law_observers_of_an_event(observers@, event_id);
}

/// Asking for the end of an entity adds that entity behind those asked for before, and nothing else.
pub proof fn law_asking_for_an_end<T>(buffer: &mut CommandBuffer<T>, entity: u64)
    requires
        call_ensures(CommandBuffer::<T>::despawn, (buffer, entity as i64), ()),
    ensures
        final(buffer).despawns@.len() == old(buffer).despawns@.len() + 1,
        final(buffer).despawns@.last() == entity,
        final(buffer).despawns@.drop_last() == old(buffer).despawns@,
        final(buffer).spawns@ == old(buffer).spawns@,
        final(buffer).triggers@ == old(buffer).triggers@,
{
    assert((entity as i64) as u64 == entity) by (bit_vector);
    assert(final(buffer).despawns@.drop_last() =~= old(buffer).despawns@);
}

/// Asking for an event adds it behind those asked for before, with its entity, its type and its
/// table, where the type has its number; where it has none, nothing is asked for.
pub proof fn law_asking_for_an_event<T>(
    buffer: &mut CommandBuffer<T>,
    entity: u64,
    event: LuaComponentMarker,
    data_table: T,
    result: Result<(), RuntimeError>,
)
    requires
        call_ensures(
            CommandBuffer::<T>::trigger,
            (buffer, entity as i64, &event, data_table),
            result,
        ),
    ensures
        final(buffer).spawns@ == old(buffer).spawns@,
        final(buffer).despawns@ == old(buffer).despawns@,
        match event.resolved_id {
            Some(id) => {
                &&& result is Ok
                &&& final(buffer).triggers@.len() == old(buffer).triggers@.len() + 1
                &&& final(buffer).triggers@.drop_last() == old(buffer).triggers@
                &&& final(buffer).triggers@.last().entity == entity
                &&& final(buffer).triggers@.last().event_id == id
                &&& final(buffer).triggers@.last().data_table == data_table
            },
            None => {
                &&& result matches Err(e)
                &&& e.message@ == "component marker not yet resolved"@
                &&& final(buffer).triggers@ == old(buffer).triggers@
            },
        },
{
    assert((entity as i64) as u64 == entity) by (bit_vector);
    if event.resolved_id is Some {
        assert(final(buffer).triggers@.drop_last() =~= old(buffer).triggers@);
    }
}

/// Asking for an entity adds it behind those asked for before, with one component for each entry
/// whose key is a marker, in order: of the marker's number, with the entry's table where it has one.
/// An entry that could not be read, or whose marker has no number, stops it: the first such entry
/// says with which error, and nothing is asked for then.
pub proof fn law_asking_for_an_entity<T, E>(
    buffer: &mut CommandBuffer<T>,
    items: Vec<Result<(SpawnKey, SpawnValue<T>), E>>,
    result: Result<(), LuaError<E>>,
)
    requires
        call_ensures(CommandBuffer::<T>::spawn::<E>, (buffer, items), result),
    ensures
        result is Ok <==> forall|i: int|
            0 <= i < items@.len() ==> #[trigger] items@[i] is Ok && (items@[i]->Ok_0.0 matches
                SpawnKey::Marker(marker) ==> marker.resolved_id is Some),
        final(buffer).despawns@ == old(buffer).despawns@,
        final(buffer).triggers@ == old(buffer).triggers@,
        result is Err ==> final(buffer).spawns@ == old(buffer).spawns@,
        result is Ok ==> {
            let components = final(buffer).spawns@.last().components@;
            &&& final(buffer).spawns@.len() == old(buffer).spawns@.len() + 1
            &&& final(buffer).spawns@.drop_last() == old(buffer).spawns@
            &&& components.len() == markers_among(items@, items@.len() as int)
            &&& forall|i: int|
                0 <= i < items@.len() ==> ((#[trigger] items@[i])->Ok_0.0 matches SpawnKey::Marker(
                    marker,
                ) ==> {
                    let component = components[markers_among(items@, i) as int];
                    &&& markers_among(items@, i) < components.len()
                    &&& marker.resolved_id == Some(component.0)
                    &&& component.1 == match items@[i]->Ok_0.1 {
                        SpawnValue::Table(table) => Some(table),
                        _ => None,
                    }
                })
        },
        result matches Err(error) ==> exists|i: int|
            0 <= i < items@.len() && (forall|j: int|
                0 <= j < i ==> #[trigger] items@[j] is Ok && (items@[j]->Ok_0.0 matches
                    SpawnKey::Marker(marker) ==> marker.resolved_id is Some)) && (
            match #[trigger] items@[i] {
                Err(e) => error == LuaError::<E>::External(e),
                Ok(pair) => (pair.0 matches SpawnKey::Marker(marker) && marker.resolved_id is None)
                    && (error matches LuaError::Runtime(e) && e.message@
                    == "component marker not yet resolved"@),
            }),
{
    assert forall|i: int| 0 <= i < items@.len() implies (!stops(#[trigger] items@[i])
        <==> items@[i] is Ok && (items@[i]->Ok_0.0 matches SpawnKey::Marker(marker)
        ==> marker.resolved_id is Some)) by {}
    law_components_are_those_that_markers_name(items@, items@.len() as int);
    if let Err(error) = result {
        let i = choose|i: int|
            0 <= i < items@.len() && stops(#[trigger] items@[i]) && stops_with(items@[i], error)
                && forall|j: int| 0 <= j < i ==> !stops(#[trigger] items@[j]);
        assert(stops(items@[i]));
        assert forall|j: int| 0 <= j < i implies #[trigger] items@[j] is Ok && (items@[j]->Ok_0.0
            matches SpawnKey::Marker(marker) ==> marker.resolved_id is Some) by {
            assert(!stops(items@[j]));
        }
    } else {
        assert forall|i: int| 0 <= i < items@.len() implies !stops(#[trigger] items@[i]) by {}
    }
    if forall|i: int|
        0 <= i < items@.len() ==> #[trigger] items@[i] is Ok && (items@[i]->Ok_0.0 matches
            SpawnKey::Marker(marker) ==> marker.resolved_id is Some) {
        assert forall|i: int| 0 <= i < items@.len() implies !stops(#[trigger] items@[i]) by {
            assert(items@[i] is Ok);
        }
    }
}

} // verus!
