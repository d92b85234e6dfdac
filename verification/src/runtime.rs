//! What was loaded: systems and observers, with the numbers of the component types they use.

use vstd::prelude::*;

use vstd::utf8::{decode_utf8, valid_utf8};

use crate::schema::ComponentId;
use crate::staging::{
    ids_below, param_below, params_below, LoadContext, LuaSchedule, StagedObserver, StagedParam,
    StagedSystem,
};
use crate::text::utf8_text;
use crate::value::NotUtf8;

verus! {

/// The component types that a query asks for.
#[derive(Debug, PartialEq, Eq)]
pub struct ResolvedQuery {
    pub mutable: Vec<ComponentId>,
    pub immutable: Vec<ComponentId>,
    pub with: Vec<ComponentId>,
    pub without: Vec<ComponentId>,
}

impl ResolvedQuery {
    /// Whether two queries ask for the same component types, in the same order.
    pub open spec fn same_as(self, other: ResolvedQuery) -> bool {
        &&& self.mutable@ == other.mutable@
        &&& self.immutable@ == other.immutable@
        &&& self.with@ == other.with@
        &&& self.without@ == other.without@
    }
}

impl Default for ResolvedQuery {
    fn default() -> (query: Self)
        ensures
            query.mutable@.len() == 0,
            query.immutable@.len() == 0,
            query.with@.len() == 0,
            query.without@.len() == 0,
    {
        ResolvedQuery {
            mutable: Vec::new(),
            immutable: Vec::new(),
            with: Vec::new(),
            without: Vec::new(),
        }
    }
}

impl Clone for ResolvedQuery {
    fn clone(&self) -> (query: Self)
        ensures
            query.same_as(*self),
    {
        let query = ResolvedQuery {
            mutable: self.mutable.clone(),
            immutable: self.immutable.clone(),
            with: self.with.clone(),
            without: self.without.clone(),
        };
        assert(query.mutable@ =~= self.mutable@);
        assert(query.immutable@ =~= self.immutable@);
        assert(query.with@ =~= self.with@);
        assert(query.without@ =~= self.without@);
        query
    }
}

/// What a system or an observer is called with.
#[derive(Clone, Debug, PartialEq, Eq)]
pub enum LuaParam {
    Commands,
    Time,
    Query(ResolvedQuery),
    Resource(ComponentId),
}

/// A system, with `F` for the function that it runs.
#[derive(Debug, PartialEq, Eq)]
pub struct LuaSystemDescriptor<F> {
    pub func: F,
    pub schedule: LuaSchedule,
    pub params: Vec<LuaParam>,
}

/// An observer of an event, with `F` for the function that it runs.
#[derive(Debug, PartialEq, Eq)]
pub struct LuaObserverDescriptor<F> {
    pub event_id: ComponentId,
    pub func: F,
    pub params: Vec<LuaParam>,
}

/// A script engine, with the systems and observers that its scripts declared.
pub struct ScriptingRuntime<L, F> {
    pub lua: L,
    pub systems: Vec<LuaSystemDescriptor<F>>,
    pub observers: Vec<LuaObserverDescriptor<F>>,
}

/// The numbers of the component types at the given positions.
pub open spec fn numbers_of(ids: Seq<usize>, real_ids: Seq<ComponentId>) -> Seq<ComponentId> {
    ids.map_values(|i: usize| real_ids[i as int])
}

/// Whether `resolved` is `staged` with numbers in place of positions.
pub open spec fn resolves_to(
    staged: StagedParam,
    real_ids: Seq<ComponentId>,
    resolved: LuaParam,
) -> bool {
    match staged {
        StagedParam::Commands => resolved == LuaParam::Commands,
        StagedParam::Time => resolved == LuaParam::Time,
        StagedParam::Resource(idx) => resolved == LuaParam::Resource(real_ids[idx as int]),
        StagedParam::Query(q) => {
            &&& resolved matches LuaParam::Query(r)
            &&& r.mutable@ == numbers_of(q.mutable@, real_ids)
            &&& r.immutable@ == numbers_of(q.immutable@, real_ids)
            &&& r.with@ == numbers_of(q.with@, real_ids)
            &&& r.without@ == numbers_of(q.without@, real_ids)
        },
    }
}

/// Whether `resolved` is `staged`, parameter by parameter, with numbers in place of positions.
pub open spec fn all_resolve_to(
    staged: Seq<StagedParam>,
    real_ids: Seq<ComponentId>,
    resolved: Seq<LuaParam>,
) -> bool {
    &&& resolved.len() == staged.len()
    &&& forall|i: int|
        0 <= i < staged.len() ==> resolves_to(staged[i], real_ids, #[trigger] resolved[i])
}

/// The numbers of the component types at the given positions.
pub fn resolve_ids(ids: &Vec<usize>, real_ids: &[ComponentId]) -> (numbers: Vec<ComponentId>)
    requires
        ids_below(ids@, real_ids@.len()),
    ensures
        numbers@ == numbers_of(ids@, real_ids@),
{
    let mut numbers: Vec<ComponentId> = Vec::new();
    for i in 0..ids.len()
        invariant
            ids_below(ids@, real_ids@.len()),
            numbers@ == numbers_of(ids@.take(i as int), real_ids@),
    {
        numbers.push(real_ids[ids[i]]);
        assert(numbers@ =~= numbers_of(ids@.take(i + 1), real_ids@));
    }
    assert(ids@.take(ids@.len() as int) =~= ids@);
    numbers
}

/// A parameter with numbers in place of positions.
pub fn resolve_param(param: StagedParam, real_ids: &[ComponentId]) -> (resolved: LuaParam)
    requires
        param_below(param, real_ids@.len()),
    ensures
        resolves_to(param, real_ids@, resolved),
{
    match param {
        StagedParam::Commands => LuaParam::Commands,
        StagedParam::Time => LuaParam::Time,
        StagedParam::Resource(idx) => LuaParam::Resource(real_ids[idx]),
        StagedParam::Query(q) => LuaParam::Query(
            ResolvedQuery {
                mutable: resolve_ids(&q.mutable, real_ids),
                immutable: resolve_ids(&q.immutable, real_ids),
                with: resolve_ids(&q.with, real_ids),
                without: resolve_ids(&q.without, real_ids),
            },
        ),
    }
}

/// Parameters with numbers in place of positions.
pub fn resolve_params(params: Vec<StagedParam>, real_ids: &[ComponentId]) -> (resolved: Vec<
    LuaParam,
>)
    requires
        params_below(params@, real_ids@.len()),
    ensures
        all_resolve_to(params@, real_ids@, resolved@),
{
    let ghost all = params@;
    let mut resolved: Vec<LuaParam> = Vec::new();
    for param in it: params
        invariant
            all == params@,
            it.seq() == all,
            params_below(all, real_ids@.len()),
            resolved@.len() == it.index(),
            forall|i: int|
                0 <= i < it.index() ==> resolves_to(all[i], real_ids@, #[trigger] resolved@[i]),
    {
        assert(param == all[it.index() as int]);
        resolved.push(resolve_param(param, real_ids));
    }
    resolved
}

/// Whether `resolved` is the system that `staged` declares.
pub open spec fn system_resolves_to<F>(
    staged: StagedSystem<F>,
    real_ids: Seq<ComponentId>,
    resolved: LuaSystemDescriptor<F>,
) -> bool {
    &&& resolved.func == staged.func
    &&& resolved.schedule == staged.schedule
    &&& all_resolve_to(staged.params@, real_ids, resolved.params@)
}

/// Whether `resolved` is the observer that `staged` declares.
pub open spec fn observer_resolves_to<F>(
    staged: StagedObserver<F>,
    real_ids: Seq<ComponentId>,
    resolved: LuaObserverDescriptor<F>,
) -> bool {
    &&& resolved.event_id == real_ids[staged.event_idx as int]
    &&& resolved.func == staged.func
    &&& all_resolve_to(staged.params@, real_ids, resolved.params@)
}

impl<L: Default, F> Default for ScriptingRuntime<L, F> {
    fn default() -> (runtime: Self)
        ensures
            L::default.ensures((), runtime.lua),
            runtime.systems@.len() == 0,
            runtime.observers@.len() == 0,
    {
        ScriptingRuntime::new(L::default())
    }
}

impl<L, F> ScriptingRuntime<L, F> {
    /// A script engine that has loaded nothing.
    pub fn new(lua: L) -> (runtime: Self)
        ensures
            runtime.lua == lua,
            runtime.systems@.len() == 0,
            runtime.observers@.len() == 0,
    {
        ScriptingRuntime { lua, systems: Vec::new(), observers: Vec::new() }
    }

    /// Ends a load: takes over the systems and observers that were declared, in order, behind
    /// those that are there. Component type `i` was given the number `real_ids[i]`.
    pub fn finish_load<M>(&mut self, ctx: LoadContext<F, M>, real_ids: &[ComponentId])
        requires
            ctx.wf(),
            real_ids@.len() == ctx.pending_components@.len(),
        ensures
            final(self).lua == old(self).lua,
            final(self).systems@.len() == old(self).systems@.len() + ctx.pending_systems@.len(),
            final(self).systems@.take(old(self).systems@.len() as int) == old(self).systems@,
            forall|i: int|
                0 <= i < ctx.pending_systems@.len() ==> system_resolves_to(
                    #[trigger] ctx.pending_systems@[i],
                    real_ids@,
                    final(self).systems@[old(self).systems@.len() + i],
                ),
            final(self).observers@.len() == old(self).observers@.len()
                + ctx.pending_observers@.len(),
            final(self).observers@.take(old(self).observers@.len() as int) == old(self).observers@,
            forall|i: int|
                0 <= i < ctx.pending_observers@.len() ==> observer_resolves_to(
                    #[trigger] ctx.pending_observers@[i],
                    real_ids@,
                    final(self).observers@[old(self).observers@.len() + i],
                ),
    {
        let ghost staged_systems = ctx.pending_systems@;
        let ghost staged_observers = ctx.pending_observers@;
        let ghost first_system = self.systems@.len() as int;
        let ghost first_observer = self.observers@.len() as int;
        let systems = ctx.pending_systems;
        let observers = ctx.pending_observers;
        for staged in it: systems
            invariant
                staged_systems == systems@,
                it.seq() == staged_systems,
                first_system == old(self).systems@.len(),
                forall|i: int|
                    0 <= i < staged_systems.len() ==> params_below(
                        (#[trigger] staged_systems[i]).params@,
                        real_ids@.len(),
                    ),
                self.lua == old(self).lua,
                self.observers@ == old(self).observers@,
                self.systems@.len() == first_system + it.index(),
                self.systems@.take(first_system) == old(self).systems@,
                forall|i: int|
                    0 <= i < it.index() ==> system_resolves_to(
                        #[trigger] staged_systems[i],
                        real_ids@,
                        self.systems@[first_system + i],
                    ),
        {
            let ghost before = self.systems@;
            assert(staged == staged_systems[it.index() as int]);
            let params = resolve_params(staged.params, real_ids);
            self.systems.push(
                LuaSystemDescriptor { func: staged.func, schedule: staged.schedule, params },
            );
            assert(self.systems@.take(first_system) =~= before.take(first_system));
        }
        for staged in it: observers
            invariant
                staged_observers == observers@,
                it.seq() == staged_observers,
                first_observer == old(self).observers@.len(),
                first_system == old(self).systems@.len(),
                forall|i: int|
                    0 <= i < staged_observers.len() ==> (
                    #[trigger] staged_observers[i]).event_idx < real_ids@.len() && params_below(
                        staged_observers[i].params@,
                        real_ids@.len(),
                    ),
                self.lua == old(self).lua,
                self.systems@.len() == first_system + staged_systems.len(),
                self.systems@.take(first_system) == old(self).systems@,
                forall|i: int|
                    0 <= i < staged_systems.len() ==> system_resolves_to(
                        #[trigger] staged_systems[i],
                        real_ids@,
                        self.systems@[first_system + i],
                    ),
                self.observers@.len() == first_observer + it.index(),
                self.observers@.take(first_observer) == old(self).observers@,
                forall|i: int|
                    0 <= i < it.index() ==> observer_resolves_to(
                        #[trigger] staged_observers[i],
                        real_ids@,
                        self.observers@[first_observer + i],
                    ),
        {
            let ghost before = self.observers@;
            assert(staged == staged_observers[it.index() as int]);
            let params = resolve_params(staged.params, real_ids);
            self.observers.push(
                LuaObserverDescriptor {
                    event_id: real_ids[staged.event_idx],
                    func: staged.func,
                    params,
                },
            );
            assert(self.observers@.take(first_observer) =~= before.take(first_observer));
        }
    }
}

/// The positions below `n` at which `picked` holds, from low to high.
pub open spec fn selected(picked: spec_fn(int) -> bool, n: int) -> Seq<usize>
    decreases n,
{
    if n <= 0 {
        Seq::empty()
    } else if picked(n - 1) {
        selected(picked, n - 1).push((n - 1) as usize)
    } else {
        selected(picked, n - 1)
    }
}

/// A selection is in ascending order and holds the picked positions, all of them and no others.
pub proof fn law_selected(picked: spec_fn(int) -> bool, n: int)
    requires
        n <= usize::MAX,
    ensures
        forall|i: int, j: int|
            0 <= i < j < selected(picked, n).len() ==> selected(picked, n)[i] < selected(
                picked,
                n,
            )[j],
        forall|p: usize| #[trigger] selected(picked, n).contains(p) <==> p < n && picked(p as int),
    decreases n,
{
    if n > 0 {
        law_selected(picked, n - 1);
        let before = selected(picked, n - 1);
        assert forall|i: int| 0 <= i < before.len() implies #[trigger] before[i] < n - 1 by {
            assert(before.contains(before[i]));
        }
        assert forall|p: usize| #[trigger]
            selected(picked, n).contains(p) <==> p < n && picked(p as int) by {
            if picked(n - 1) {
                let after = before.push((n - 1) as usize);
                assert(after[before.len() as int] == (n - 1) as usize);
                if before.contains(p) {
                    let i = choose|i: int| 0 <= i < before.len() && before[i] == p;
                    assert(after[i] == p);
                }
                if after.contains(p) && p != n - 1 {
                    let i = choose|i: int| 0 <= i < after.len() && after[i] == p;
                    assert(before[i] == p);
                }
            }
            assert(before.contains(p) <==> p < n - 1 && picked(p as int));
        }
    }
}

impl<L, F> ScriptingRuntime<L, F> {
    /// The positions of the systems that run on `schedule`, in the order in which they run.
    pub open spec fn spec_scheduled(self, schedule: LuaSchedule) -> Seq<usize> {
        selected(|i: int| self.systems@[i].schedule == schedule, self.systems@.len() as int)
    }

    /// The positions of the systems that run on `schedule`, in the order in which they run.
    pub fn scheduled(&self, schedule: LuaSchedule) -> (indices: Vec<usize>)
        ensures
            indices@ == self.spec_scheduled(schedule),
    {
        let ghost picked = |i: int| self.systems@[i].schedule == schedule;
        let mut indices: Vec<usize> = Vec::new();
        for i in 0..self.systems.len()
            invariant
                picked == (|i: int| self.systems@[i].schedule == schedule),
                indices@ == selected(picked, i as int),
        {
            assert(picked(i as int) == (self.systems@[i as int].schedule == schedule));
            if self.systems[i].schedule == schedule {
                indices.push(i);
            }
        }
        indices
    }
}

/// Each system runs on one of the two schedules, and on one alone.
pub proof fn law_systems_run_once<L, F>(runtime: ScriptingRuntime<L, F>, i: usize)
    requires
        i < runtime.systems@.len(),
    ensures
        runtime.spec_scheduled(LuaSchedule::Startup).contains(i) <==> !runtime.spec_scheduled(
            LuaSchedule::Update,
        ).contains(i),
{
    assert(runtime.systems.len() == runtime.systems@.len());
    law_selected(
        |k: int| runtime.systems@[k].schedule == LuaSchedule::Startup,
        runtime.systems@.len() as int,
    );
    law_selected(
        |k: int| runtime.systems@[k].schedule == LuaSchedule::Update,
        runtime.systems@.len() as int,
    );
}

/// The time, as a script sees it: seconds since the last frame and since the start, each as the
/// bits of a 64-bit floating-point number.
#[derive(Clone, Copy, Debug, PartialEq, Eq, Structural)]
pub struct LuaTime {
    pub delta_secs: u64,
    pub elapsed_secs: u64,
}

impl LuaTime {
    /// The seconds that a script asks for by `key`, if it asks for any.
    pub fn index(&self, key: &Vec<u8>) -> (result: Result<Option<u64>, NotUtf8>)
        ensures
            result is Ok <==> valid_utf8(key@),
            result matches Ok(secs) ==> secs == if decode_utf8(key@) == "dt"@ {
                Some(self.delta_secs)
            } else if decode_utf8(key@) == "elapsed"@ {
                Some(self.elapsed_secs)
            } else {
                None
            },
    {
        match utf8_text(key) {
            None => Err(NotUtf8),
            Some(key) => {
                let key = key.to_owned();
                if key == "dt".to_owned() {
                    Ok(Some(self.delta_secs))
                } else if key == "elapsed".to_owned() {
                    Ok(Some(self.elapsed_secs))
                } else {
                    Ok(None)
                }
            },
        }
    }
}

/// A resolved parameter is of the kind of the staged one, and names, position by position, the
/// component types that the staged one names, by their numbers.
pub proof fn law_resolving_keeps_kind_and_order(
    staged: StagedParam,
    real_ids: Seq<ComponentId>,
    resolved: LuaParam,
)
    requires
        resolves_to(staged, real_ids, resolved),
    ensures
        staged is Commands <==> resolved is Commands,
        staged is Time <==> resolved is Time,
        staged is Resource <==> resolved is Resource,
        staged is Query <==> resolved is Query,
        staged matches StagedParam::Resource(idx) ==> (resolved matches LuaParam::Resource(id) && id
            == real_ids[idx as int]),
        staged matches StagedParam::Query(q) ==> (resolved matches LuaParam::Query(r) && {
            &&& r.mutable@.len() == q.mutable@.len()
            &&& r.immutable@.len() == q.immutable@.len()
            &&& r.with@.len() == q.with@.len()
            &&& r.without@.len() == q.without@.len()
            &&& forall|i: int|
                0 <= i < q.mutable@.len() ==> r.mutable@[i] == real_ids[#[trigger] q.mutable@[i]
                    as int]
            &&& forall|i: int|
                0 <= i < q.immutable@.len() ==> r.immutable@[i] == real_ids[
                #[trigger] q.immutable@[i] as int]
            &&& forall|i: int|
                0 <= i < q.with@.len() ==> r.with@[i] == real_ids[#[trigger] q.with@[i] as int]
            &&& forall|i: int|
                0 <= i < q.without@.len() ==> r.without@[i] == real_ids[#[trigger] q.without@[i]
                    as int]
        }),
{
}

/// A resolved system or observer runs the function that was declared, on the schedule or for the
/// event that was declared, with as many parameters, each resolved.
pub proof fn law_resolving_keeps_declarations<F>(
    system: StagedSystem<F>,
    resolved_system: LuaSystemDescriptor<F>,
    observer: StagedObserver<F>,
    resolved_observer: LuaObserverDescriptor<F>,
    real_ids: Seq<ComponentId>,
)
    requires
        system_resolves_to(system, real_ids, resolved_system),
        observer_resolves_to(observer, real_ids, resolved_observer),
    ensures
        resolved_system.func == system.func,
        resolved_system.schedule == system.schedule,
        resolved_system.params@.len() == system.params@.len(),
        forall|i: int|
            0 <= i < system.params@.len() ==> resolves_to(
                #[trigger] system.params@[i],
                real_ids,
                resolved_system.params@[i],
            ),
        resolved_observer.func == observer.func,
        resolved_observer.event_id == real_ids[observer.event_idx as int],
        resolved_observer.params@.len() == observer.params@.len(),
        forall|i: int|
            0 <= i < observer.params@.len() ==> resolves_to(
                #[trigger] observer.params@[i],
                real_ids,
                resolved_observer.params@[i],
            ),
{
    assert forall|i: int| 0 <= i < system.params@.len() implies resolves_to(
        #[trigger] system.params@[i],
        real_ids,
        resolved_system.params@[i],
    ) by {
        assert(resolves_to(system.params@[i], real_ids, resolved_system.params@[i]));
    }
    assert forall|i: int| 0 <= i < observer.params@.len() implies resolves_to(
        #[trigger] observer.params@[i],
        real_ids,
        resolved_observer.params@[i],
    ) by {
        assert(resolves_to(observer.params@[i], real_ids, resolved_observer.params@[i]));
    }
}

/// The systems that run on a schedule are those declared for it, all of them, in the order of their
/// declaration.
pub proof fn law_schedules_run_their_systems<L, F>(
    runtime: ScriptingRuntime<L, F>,
    schedule: LuaSchedule,
)
    ensures
        forall|i: usize| #[trigger]
            runtime.spec_scheduled(schedule).contains(i) <==> i < runtime.systems@.len()
                && runtime.systems@[i as int].schedule == schedule,
        forall|i: int, j: int|
            0 <= i < j < runtime.spec_scheduled(schedule).len() ==> runtime.spec_scheduled(
                schedule,
            )[i] < runtime.spec_scheduled(schedule)[j],
{
    assert(runtime.systems.len() == runtime.systems@.len());
    law_selected(
        |k: int| runtime.systems@[k].schedule == schedule,
        runtime.systems@.len() as int,
    );
}

/// Two queries that ask for the same are the same in each of their lists.
pub proof fn law_same_queries(a: ResolvedQuery, b: ResolvedQuery)
    ensures
        a.same_as(b) <==> a.mutable@ == b.mutable@ && a.immutable@ == b.immutable@ && a.with@
            == b.with@ && a.without@ == b.without@,
{
}

/// A resolved parameter is of the kind of the staged one, and names, position by position, the
/// component types that the staged one names, by their numbers.
pub proof fn law_resolving_a_parameter(
    staged: StagedParam,
    real_ids: &[ComponentId],
    resolved: LuaParam,
)
    requires
        call_ensures(resolve_param, (staged, real_ids), resolved),
    ensures
        match staged {
            StagedParam::Commands => resolved is Commands,
            StagedParam::Time => resolved is Time,
            StagedParam::Resource(idx) => resolved == LuaParam::Resource(real_ids@[idx as int]),
            StagedParam::Query(q) => resolved matches LuaParam::Query(r) && {
                &&& r.mutable@.len() == q.mutable@.len()
                &&& r.immutable@.len() == q.immutable@.len()
                &&& r.with@.len() == q.with@.len()
                &&& r.without@.len() == q.without@.len()
                &&& forall|i: int|
                    0 <= i < q.mutable@.len() ==> r.mutable@[i] == real_ids@[
                    #[trigger] q.mutable@[i] as int]
                &&& forall|i: int|
                    0 <= i < q.immutable@.len() ==> r.immutable@[i] == real_ids@[
                    #[trigger] q.immutable@[i] as int]
                &&& forall|i: int|
                    0 <= i < q.with@.len() ==> r.with@[i] == real_ids@[#[trigger] q.with@[i] as int]
                &&& forall|i: int|
                    0 <= i < q.without@.len() ==> r.without@[i] == real_ids@[
                    #[trigger] q.without@[i] as int]
            },
        },
{
    law_resolving_keeps_kind_and_order(staged, real_ids@, resolved);
}

/// The end of a load keeps the systems and observers that are there, in place, and adds those that
/// were declared, in order: each with its function, on its schedule or for its event, and with a
/// parameter for each that was declared.
pub proof fn law_finishing_a_load<L, F, M>(
    runtime: &mut ScriptingRuntime<L, F>,
    ctx: LoadContext<F, M>,
    real_ids: &[ComponentId],
)
    requires
        ctx.wf(),
        real_ids@.len() == ctx.pending_components@.len(),
        call_ensures(ScriptingRuntime::<L, F>::finish_load::<M>, (runtime, ctx, real_ids), ()),
    ensures
        final(runtime).lua == old(runtime).lua,
        final(runtime).systems@.len() == old(runtime).systems@.len() + ctx.pending_systems@.len(),
        forall|i: int|
            0 <= i < old(runtime).systems@.len() ==> #[trigger] final(runtime).systems@[i] == old(
                runtime,
            ).systems@[i],
        forall|i: int|
            0 <= i < ctx.pending_systems@.len() ==> {
                let staged = #[trigger] ctx.pending_systems@[i];
                let system = final(runtime).systems@[old(runtime).systems@.len() + i];
                &&& system.func == staged.func
                &&& system.schedule == staged.schedule
                &&& system.params@.len() == staged.params@.len()
                &&& forall|j: int|
                    0 <= j < staged.params@.len() ==> resolves_to(
                        #[trigger] staged.params@[j],
                        real_ids@,
                        system.params@[j],
                    )
            },
        final(runtime).observers@.len() == old(runtime).observers@.len()
            + ctx.pending_observers@.len(),
        forall|i: int|
            0 <= i < old(runtime).observers@.len() ==> #[trigger] final(runtime).observers@[i]
                == old(runtime).observers@[i],
        forall|i: int|
            0 <= i < ctx.pending_observers@.len() ==> {
                let staged = #[trigger] ctx.pending_observers@[i];
                let observer = final(runtime).observers@[old(runtime).observers@.len() + i];
                &&& observer.func == staged.func
                &&& observer.event_id == real_ids@[staged.event_idx as int]
                &&& observer.params@.len() == staged.params@.len()
                &&& forall|j: int|
                    0 <= j < staged.params@.len() ==> resolves_to(
                        #[trigger] staged.params@[j],
                        real_ids@,
                        observer.params@[j],
                    )
            },
{
    let (before, after) = (*old(runtime), *final(runtime));
    assert forall|i: int| 0 <= i < before.systems@.len() implies #[trigger] after.systems@[i]
        == before.systems@[i] by {
        assert(after.systems@.take(before.systems@.len() as int)[i] == after.systems@[i]);
    }
    assert forall|i: int| 0 <= i < before.observers@.len() implies #[trigger] after.observers@[i]
        == before.observers@[i] by {
        assert(after.observers@.take(before.observers@.len() as int)[i] == after.observers@[i]);
    }
    assert forall|i: int, j: int|
        0 <= i < ctx.pending_systems@.len() && 0 <= j
            < ctx.pending_systems@[i].params@.len() implies resolves_to(
        #[trigger] ctx.pending_systems@[i].params@[j],
        real_ids@,
        after.systems@[before.systems@.len() + i].params@[j],
    ) by {
        let system = after.systems@[before.systems@.len() + i];
        assert(system_resolves_to(ctx.pending_systems@[i], real_ids@, system));
        assert(resolves_to(ctx.pending_systems@[i].params@[j], real_ids@, system.params@[j]));
    }
    assert forall|i: int, j: int|
        0 <= i < ctx.pending_observers@.len() && 0 <= j
            < ctx.pending_observers@[i].params@.len() implies resolves_to(
        #[trigger] ctx.pending_observers@[i].params@[j],
        real_ids@,
        after.observers@[before.observers@.len() + i].params@[j],
    ) by {
        let observer = after.observers@[before.observers@.len() + i];
        assert(observer_resolves_to(ctx.pending_observers@[i], real_ids@, observer));
        assert(resolves_to(ctx.pending_observers@[i].params@[j], real_ids@, observer.params@[j]));
    }
    assert forall|i: int| 0 <= i < ctx.pending_systems@.len() implies system_resolves_to(
        #[trigger] ctx.pending_systems@[i],
        real_ids@,
        after.systems@[before.systems@.len() + i],
    ) by {}
    assert forall|i: int| 0 <= i < ctx.pending_observers@.len() implies observer_resolves_to(
        #[trigger] ctx.pending_observers@[i],
        real_ids@,
        after.observers@[before.observers@.len() + i],
    ) by {}
}

/// A schedule runs the systems declared for it, all of them, in the order of their declaration; no
/// system runs on both schedules, and none on neither.
pub proof fn law_running_a_schedule<L, F>(
    runtime: ScriptingRuntime<L, F>,
    startup: Vec<usize>,
    update: Vec<usize>,
    i: usize,
)
    requires
        call_ensures(
            ScriptingRuntime::<L, F>::scheduled,
            (&runtime, LuaSchedule::Startup),
            startup,
        ),
        call_ensures(
            ScriptingRuntime::<L, F>::scheduled,
            (&runtime, LuaSchedule::Update),
            update,
        ),
    ensures
        startup@.contains(i) <==> i < runtime.systems@.len() && runtime.systems@[i as int].schedule
            == LuaSchedule::Startup,
        update@.contains(i) <==> i < runtime.systems@.len() && runtime.systems@[i as int].schedule
            == LuaSchedule::Update,
        startup@.contains(i) || update@.contains(i) <==> i < runtime.systems@.len(),
        !(startup@.contains(i) && update@.contains(i)),
        forall|j: int, k: int| 0 <= j < k < startup@.len() ==> startup@[j] < startup@[k],
        forall|j: int, k: int| 0 <= j < k < update@.len() ==> update@[j] < update@[k],
{
    law_schedules_run_their_systems(runtime, LuaSchedule::Startup);
    law_schedules_run_their_systems(runtime, LuaSchedule::Update);
    assert(startup@ == runtime.spec_scheduled(LuaSchedule::Startup));
    assert(update@ == runtime.spec_scheduled(LuaSchedule::Update));
}

/// A script that asks the time for `dt` gets the seconds since the last frame, for `elapsed` those
/// since the start, and for anything else nothing; a name that is not UTF-8 is refused.
pub proof fn law_asking_for_the_time(
    time: LuaTime,
    key: Vec<u8>,
    result: Result<Option<u64>, NotUtf8>,
)
    requires
        call_ensures(LuaTime::index, (&time, &key), result),
    ensures
        !valid_utf8(key@) ==> result is Err,
        valid_utf8(key@) && decode_utf8(key@) == "dt"@ ==> result == Ok::<Option<u64>, NotUtf8>(
            Some(time.delta_secs),
        ),
        valid_utf8(key@) && decode_utf8(key@) == "elapsed"@ ==> result == Ok::<
            Option<u64>,
            NotUtf8,
        >(Some(time.elapsed_secs)),
        valid_utf8(key@) && decode_utf8(key@) != "dt"@ && decode_utf8(key@) != "elapsed"@ ==> result
            == Ok::<Option<u64>, NotUtf8>(None),
{
    reveal_strlit("dt");
    reveal_strlit("elapsed");
    assert("dt"@.len() != "elapsed"@.len());
}

/// Positions are turned into numbers one by one, and parameters too.
pub proof fn law_resolving_lists(
    ids: Vec<usize>,
    params: Vec<StagedParam>,
    real_ids: &[ComponentId],
    numbers: Vec<ComponentId>,
    resolved: Vec<LuaParam>,
)
    requires
        call_ensures(resolve_ids, (&ids, real_ids), numbers),
        call_ensures(resolve_params, (params, real_ids), resolved),
    ensures
        numbers@.len() == ids@.len(),
        forall|i: int|
            0 <= i < ids@.len() ==> numbers@[i] == real_ids@[#[trigger] ids@[i] as int],
        resolved@.len() == params@.len(),
        forall|i: int|
            0 <= i < params@.len() ==> resolves_to(#[trigger] params@[i], real_ids@, resolved@[i]),
{
    assert forall|i: int| 0 <= i < params@.len() implies resolves_to(
        #[trigger] params@[i],
        real_ids@,
        resolved@[i],
    ) by {
        assert(resolves_to(params@[i], real_ids@, resolved@[i]));
    }
}

/// A script engine that has loaded nothing runs nothing.
pub proof fn law_nothing_runs_at_first<L, F>(
    lua: L,
    runtime: ScriptingRuntime<L, F>,
    schedule: LuaSchedule,
    indices: Vec<usize>,
)
    requires
        call_ensures(ScriptingRuntime::<L, F>::new, (lua,), runtime),
        call_ensures(ScriptingRuntime::<L, F>::scheduled, (&runtime, schedule), indices),
    ensures
        runtime.lua == lua,
        runtime.observers@.len() == 0,
        indices@.len() == 0,
{
    law_schedules_run_their_systems(runtime, schedule);
    if indices@.len() > 0 {
        assert(runtime.spec_scheduled(schedule).contains(indices@[0]));
    }
}

} // verus!
