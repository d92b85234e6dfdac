//! The steps of running a system or an observer.

use vstd::prelude::*;

use crate::runtime::LuaParam;
use crate::schema::ComponentId;

verus! {

/// One step of running a system or an observer. The first steps each add one argument, so that
/// step `i` adds argument `i`.
#[derive(Clone, Copy, Debug, PartialEq, Eq, Structural)]
pub enum RunAction {
    /// Add the entity that an event was sent to.
    PassEntity,
    /// Add the table of an event.
    PassEvent,
    /// Add a handle for commands.
    PassCommands,
    /// Add the time.
    PassTime,
    /// Add a snapshot of the query that is parameter `param`.
    PassQuery { param: usize },
    /// Add the table of a resource, or an empty table where there is none.
    PassResource { id: ComponentId },
    /// Add nil.
    PassNil,
    /// Call the function with the arguments.
    Call,
    /// Write the tables of the snapshot that is argument `arg` back to the entities.
    WriteBackQuery { arg: usize },
    /// Write the table that is argument `arg` back to a resource.
    WriteBackResource { arg: usize, id: ComponentId },
    /// Carry out the commands.
    Flush,
}

/// What a system is passed for parameter `i`.
pub open spec fn system_arg(params: Seq<LuaParam>, i: int) -> RunAction {
    match params[i] {
        LuaParam::Commands => RunAction::PassCommands,
        LuaParam::Time => RunAction::PassTime,
        LuaParam::Query(_) => RunAction::PassQuery { param: i as usize },
        LuaParam::Resource(id) => RunAction::PassResource { id },
    }
}

/// What an observer is passed for parameter `i`: observers see neither time nor resources.
pub open spec fn observer_arg(params: Seq<LuaParam>, i: int) -> RunAction {
    match params[i] {
        LuaParam::Commands => RunAction::PassCommands,
        LuaParam::Query(_) => RunAction::PassQuery { param: i as usize },
        LuaParam::Time | LuaParam::Resource(_) => RunAction::PassNil,
    }
}

/// The write-backs behind the call of a system, for its first `n` parameters.
pub open spec fn system_write_backs(params: Seq<LuaParam>, n: int) -> Seq<RunAction>
    decreases n,
{
    if n <= 0 {
        Seq::empty()
    } else {
        let before = system_write_backs(params, n - 1);
        match params[n - 1] {
            LuaParam::Query(_) => before.push(RunAction::WriteBackQuery { arg: (n - 1) as usize }),
            LuaParam::Resource(id) => before.push(
                RunAction::WriteBackResource { arg: (n - 1) as usize, id },
            ),
            LuaParam::Commands | LuaParam::Time => before,
        }
    }
}

/// The write-backs behind the call of an observer, for its first `n` parameters, which follow two
/// arguments that are not parameters.
pub open spec fn observer_write_backs(params: Seq<LuaParam>, n: int) -> Seq<RunAction>
    decreases n,
{
    if n <= 0 {
        Seq::empty()
    } else {
        let before = observer_write_backs(params, n - 1);
        match params[n - 1] {
            LuaParam::Query(_) => before.push(RunAction::WriteBackQuery { arg: (n + 1) as usize }),
            LuaParam::Commands | LuaParam::Time | LuaParam::Resource(_) => before,
        }
    }
}

/// The steps of running a system with the given parameters.
pub open spec fn system_plan(params: Seq<LuaParam>) -> Seq<RunAction> {
    Seq::new(params.len(), |i: int| system_arg(params, i)) + seq![RunAction::Call]
        + system_write_backs(params, params.len() as int) + seq![RunAction::Flush]
}

/// The steps of running an observer with the given parameters.
pub open spec fn observer_plan(params: Seq<LuaParam>) -> Seq<RunAction> {
    seq![RunAction::PassEntity, RunAction::PassEvent] + Seq::new(
        params.len(),
        |i: int| observer_arg(params, i),
    ) + seq![RunAction::Call] + observer_write_backs(params, params.len() as int)
        + seq![RunAction::Flush]
}

/// The steps of running a system: make the arguments, call, write back what the script may have
/// changed, and carry out its commands.
pub fn run_lua_system(params: &Vec<LuaParam>) -> (plan: Vec<RunAction>)
    ensures
        plan@ == system_plan(params@),
{
    let mut plan: Vec<RunAction> = Vec::new();
    for i in 0..params.len()
        invariant
            plan@ == Seq::new(i as nat, |k: int| system_arg(params@, k)),
    {
        let action = match &params[i] {
            LuaParam::Commands => RunAction::PassCommands,
            LuaParam::Time => RunAction::PassTime,
            LuaParam::Query(_) => RunAction::PassQuery { param: i },
            LuaParam::Resource(id) => RunAction::PassResource { id: *id },
        };
        plan.push(action);
        assert(plan@ =~= Seq::new((i + 1) as nat, |k: int| system_arg(params@, k)));
    }
    plan.push(RunAction::Call);
    let ghost called = plan@;
    for i in 0..params.len()
        invariant
            plan@ == called + system_write_backs(params@, i as int),
    {
        match &params[i] {
            LuaParam::Query(_) => {
                plan.push(RunAction::WriteBackQuery { arg: i });
            },
            LuaParam::Resource(id) => {
                plan.push(RunAction::WriteBackResource { arg: i, id: *id });
            },
            LuaParam::Commands => {},
            LuaParam::Time => {},
        }
        assert(plan@ =~= called + system_write_backs(params@, i + 1));
    }
    plan.push(RunAction::Flush);
    assert(plan@ =~= system_plan(params@));
    plan
}

/// The steps of running an observer: make the arguments, the entity and the event first, call,
/// write back the snapshots, and carry out its commands.
pub fn run_lua_observer(params: &Vec<LuaParam>) -> (plan: Vec<RunAction>)
    requires
        params@.len() <= usize::MAX - 2,
    ensures
        plan@ == observer_plan(params@),
{
    let mut plan: Vec<RunAction> = Vec::new();
    plan.push(RunAction::PassEntity);
    plan.push(RunAction::PassEvent);
    let ghost first = plan@;
    for i in 0..params.len()
        invariant
            plan@ == first + Seq::new(i as nat, |k: int| observer_arg(params@, k)),
    {
        let action = match &params[i] {
            LuaParam::Commands => RunAction::PassCommands,
            LuaParam::Query(_) => RunAction::PassQuery { param: i },
            LuaParam::Time => RunAction::PassNil,
            LuaParam::Resource(_) => RunAction::PassNil,
        };
        plan.push(action);
        assert(plan@ =~= first + Seq::new((i + 1) as nat, |k: int| observer_arg(params@, k)));
    }
    plan.push(RunAction::Call);
    let ghost called = plan@;
    for i in 0..params.len()
        invariant
            params@.len() <= usize::MAX - 2,
            plan@ == called + observer_write_backs(params@, i as int),
    {
        if let LuaParam::Query(_) = &params[i] {
            plan.push(RunAction::WriteBackQuery { arg: i + 2 });
        }
        assert(plan@ =~= called + observer_write_backs(params@, i + 1));
    }
    plan.push(RunAction::Flush);
    assert(plan@ =~= observer_plan(params@));
    plan
}

/// The write-backs of a system are those of its queries and resources.
proof fn lemma_system_write_backs(params: Seq<LuaParam>, n: int)
    requires
        0 <= n <= params.len() <= usize::MAX,
    ensures
        forall|k: int|
            0 <= k < system_write_backs(params, n).len() ==> (
            match #[trigger] system_write_backs(params, n)[k] {
                RunAction::WriteBackQuery { arg } => arg < n && params[arg as int] is Query,
                RunAction::WriteBackResource { arg, id } => arg < n && params[arg as int]
                    == LuaParam::Resource(id),
                _ => false,
            }),
        forall|i: int|
            0 <= i < n ==> (match #[trigger] params[i] {
                LuaParam::Query(_) => system_write_backs(params, n).contains(
                    RunAction::WriteBackQuery { arg: i as usize },
                ),
                LuaParam::Resource(id) => system_write_backs(params, n).contains(
                    RunAction::WriteBackResource { arg: i as usize, id },
                ),
                _ => true,
            }),
    decreases n,
{
    if n > 0 {
        lemma_system_write_backs(params, n - 1);
        let before = system_write_backs(params, n - 1);
        let all = system_write_backs(params, n);
        assert forall|x: RunAction| #[trigger] before.contains(x) implies all.contains(x) by {
            let k = choose|k: int| 0 <= k < before.len() && before[k] == x;
            assert(all[k] == x);
        }
        assert(forall|k: int| 0 <= k < before.len() ==> all[k] == before[k]);
        if all.len() > before.len() {
            assert(all.contains(all[before.len() as int]));
        }
    }
}

/// The write-backs of an observer are those of its queries.
proof fn lemma_observer_write_backs(params: Seq<LuaParam>, n: int)
    requires
        0 <= n <= params.len() <= usize::MAX - 2,
    ensures
        forall|k: int|
            0 <= k < observer_write_backs(params, n).len() ==> (
            match #[trigger] observer_write_backs(params, n)[k] {
                RunAction::WriteBackQuery { arg } => 2 <= arg < n + 2 && params[arg - 2] is Query,
                _ => false,
            }),
        forall|i: int|
            0 <= i < n && (#[trigger] params[i]) is Query ==> observer_write_backs(
                params,
                n,
            ).contains(RunAction::WriteBackQuery { arg: (i + 2) as usize }),
    decreases n,
{
    if n > 0 {
        lemma_observer_write_backs(params, n - 1);
        let before = observer_write_backs(params, n - 1);
        let all = observer_write_backs(params, n);
        assert forall|x: RunAction| #[trigger] before.contains(x) implies all.contains(x) by {
            let k = choose|k: int| 0 <= k < before.len() && before[k] == x;
            assert(all[k] == x);
        }
        assert(forall|k: int| 0 <= k < before.len() ==> all[k] == before[k]);
        if all.len() > before.len() {
            assert(all.contains(all[before.len() as int]));
        }
    }
}

/// Where in a plan the call is.
pub open spec fn is_call(plan: Seq<RunAction>, c: int) -> bool {
    0 <= c < plan.len() && plan[c] == RunAction::Call
}

/// Step `k` of running a system writes back only what the script was passed, to where it came
/// from, and only behind the call; commands are carried out last.
pub proof fn law_systems_write_back_what_was_passed(params: Seq<LuaParam>, k: int)
    requires
        0 <= k < system_plan(params).len(),
        params.len() <= usize::MAX,
    ensures
        is_call(system_plan(params), params.len() as int),
        match system_plan(params)[k] {
            RunAction::WriteBackQuery { arg } => k > params.len() && system_plan(params)[arg as int]
                == (RunAction::PassQuery { param: arg }),
            RunAction::WriteBackResource { arg, id } => k > params.len() && system_plan(
                params,
            )[arg as int] == (RunAction::PassResource { id }),
            RunAction::Flush => k == system_plan(params).len() - 1,
            _ => k <= params.len(),
        },
{
    let n = params.len() as int;
    let plan = system_plan(params);
    let backs = system_write_backs(params, n);
    lemma_system_write_backs(params, n);
    assert(plan[n] == RunAction::Call);
    if k > n && k < plan.len() - 1 {
        assert(plan[k] == backs[k - n - 1]);
    }
}

/// Each query and each resource that a system was passed is written back.
pub proof fn law_systems_write_everything_back(params: Seq<LuaParam>, i: int)
    requires
        0 <= i < params.len() <= usize::MAX,
    ensures
        params[i] is Query ==> system_plan(params).contains(
            RunAction::WriteBackQuery { arg: i as usize },
        ),
        params[i] matches LuaParam::Resource(id) ==> system_plan(params).contains(
            RunAction::WriteBackResource { arg: i as usize, id },
        ),
{
    let n = params.len() as int;
    let plan = system_plan(params);
    let backs = system_write_backs(params, n);
    lemma_system_write_backs(params, n);
    assert forall|x: RunAction| #[trigger] backs.contains(x) implies plan.contains(x) by {
        let k = choose|k: int| 0 <= k < backs.len() && backs[k] == x;
        assert(plan[n + 1 + k] == x);
    }
}

/// Step `k` of running an observer writes back only snapshots that the script was passed, and only
/// behind the call; commands are carried out last.
pub proof fn law_observers_write_back_what_was_passed(params: Seq<LuaParam>, k: int)
    requires
        0 <= k < observer_plan(params).len(),
        params.len() <= usize::MAX - 2,
    ensures
        is_call(observer_plan(params), params.len() as int + 2),
        match observer_plan(params)[k] {
            RunAction::WriteBackQuery { arg } => k > params.len() + 2 && observer_plan(
                params,
            )[arg as int] == (RunAction::PassQuery { param: (arg - 2) as usize }),
            RunAction::WriteBackResource { .. } => false,
            RunAction::Flush => k == observer_plan(params).len() - 1,
            _ => k <= params.len() + 2,
        },
{
    let n = params.len() as int;
    let plan = observer_plan(params);
    let backs = observer_write_backs(params, n);
    lemma_observer_write_backs(params, n);
    assert(plan[n + 2] == RunAction::Call);
    if k > n + 2 && k < plan.len() - 1 {
        assert(plan[k] == backs[k - n - 3]);
    }
}

/// Each query that an observer was passed is written back.
pub proof fn law_observers_write_everything_back(params: Seq<LuaParam>, i: int)
    requires
        0 <= i < params.len() <= usize::MAX - 2,
        params[i] is Query,
    ensures
        observer_plan(params).contains(RunAction::WriteBackQuery { arg: (i + 2) as usize }),
{
    let n = params.len() as int;
    let plan = observer_plan(params);
    let backs = observer_write_backs(params, n);
    lemma_observer_write_backs(params, n);
    let x = RunAction::WriteBackQuery { arg: (i + 2) as usize };
    let k = choose|k: int| 0 <= k < backs.len() && backs[k] == x;
    assert(plan[n + 3 + k] == x);
}

/// A system is passed, for each parameter and at its position, what that parameter asks for, and
/// nothing else; the call follows the last argument.
pub proof fn law_systems_are_passed_their_parameters(params: Seq<LuaParam>)
    requires
        params.len() <= usize::MAX,
    ensures
        system_plan(params).len() > params.len(),
        forall|i: int|
            0 <= i < params.len() ==> (match #[trigger] params[i] {
                LuaParam::Commands => system_plan(params)[i] == RunAction::PassCommands,
                LuaParam::Time => system_plan(params)[i] == RunAction::PassTime,
                LuaParam::Query(_) => system_plan(params)[i] matches RunAction::PassQuery { param }
                    && param == i,
                LuaParam::Resource(id) => system_plan(params)[i] == RunAction::PassResource { id },
            }),
        forall|k: int|
            0 <= k < system_plan(params).len() ==> #[trigger] system_plan(params)[k]
                != RunAction::PassNil && system_plan(params)[k] != RunAction::PassEntity
                && system_plan(params)[k] != RunAction::PassEvent,
        forall|k: int|
            0 <= k < system_plan(params).len() ==> (#[trigger] system_plan(params)[k]
                == RunAction::Call <==> k == params.len()),
{
    let n = params.len() as int;
    let plan = system_plan(params);
    let backs = system_write_backs(params, n);
    lemma_system_write_backs(params, n);
    assert forall|i: int| 0 <= i < n implies plan[i] == system_arg(params, i) by {}
    assert forall|k: int| 0 <= k < plan.len() implies #[trigger] plan[k] != RunAction::PassNil
        && plan[k] != RunAction::PassEntity && plan[k] != RunAction::PassEvent && (plan[k]
        == RunAction::Call <==> k == n) by {
        if k < n {
            assert(plan[k] == system_arg(params, k));
        } else if n < k < plan.len() - 1 {
            assert(plan[k] == backs[k - n - 1]);
        }
    }
}

/// An observer is passed the entity, the event, and then for each parameter, at its position, a
/// handle for commands or a snapshot where the parameter asks for that, and nil otherwise; the call
/// follows the last argument.
pub proof fn law_observers_are_passed_their_parameters(params: Seq<LuaParam>)
    requires
        params.len() <= usize::MAX - 2,
    ensures
        observer_plan(params).len() > params.len() + 2,
        observer_plan(params)[0] == RunAction::PassEntity,
        observer_plan(params)[1] == RunAction::PassEvent,
        forall|i: int|
            0 <= i < params.len() ==> (match #[trigger] params[i] {
                LuaParam::Commands => observer_plan(params)[i + 2] == RunAction::PassCommands,
                LuaParam::Query(_) => observer_plan(params)[i + 2] matches RunAction::PassQuery {
                    param,
                } && param == i,
                LuaParam::Time => observer_plan(params)[i + 2] == RunAction::PassNil,
                LuaParam::Resource(_) => observer_plan(params)[i + 2] == RunAction::PassNil,
            }),
        forall|k: int|
            0 <= k < observer_plan(params).len() ==> #[trigger] observer_plan(params)[k]
                != RunAction::PassTime && !(observer_plan(params)[k] is PassResource),
        forall|k: int|
            0 <= k < observer_plan(params).len() ==> (#[trigger] observer_plan(params)[k]
                == RunAction::Call <==> k == params.len() + 2),
{
    let n = params.len() as int;
    let plan = observer_plan(params);
    let backs = observer_write_backs(params, n);
    lemma_observer_write_backs(params, n);
    assert forall|i: int| 0 <= i < n implies #[trigger] plan[i + 2] == observer_arg(params, i) by {}
    assert forall|k: int| 0 <= k < plan.len() implies #[trigger] plan[k] != RunAction::PassTime
        && !(plan[k] is PassResource) && (plan[k] == RunAction::Call <==> k == n + 2) by {
        if 2 <= k < n + 2 {
            assert(plan[(k - 2) + 2] == observer_arg(params, k - 2));
        } else if n + 2 < k < plan.len() - 1 {
            assert(plan[k] == backs[k - n - 3]);
        }
    }
}

/// The argument that a step writes back.
pub open spec fn argument_of(action: RunAction) -> Option<usize> {
    match action {
        RunAction::WriteBackQuery { arg } => Some(arg),
        RunAction::WriteBackResource { arg, .. } => Some(arg),
        _ => None,
    }
}

/// The write-backs of a system are in the order of its parameters, so that none happens twice.
proof fn lemma_system_write_backs_ascend(params: Seq<LuaParam>, n: int)
    requires
        0 <= n <= params.len() <= usize::MAX,
    ensures
        forall|j: int, k: int|
            0 <= j < k < system_write_backs(params, n).len() ==> argument_of(
                #[trigger] system_write_backs(params, n)[j],
            )->0 < argument_of(#[trigger] system_write_backs(params, n)[k])->0,
    decreases n,
{
    if n > 0 {
        lemma_system_write_backs_ascend(params, n - 1);
        lemma_system_write_backs(params, n - 1);
        let before = system_write_backs(params, n - 1);
        let all = system_write_backs(params, n);
        assert forall|j: int, k: int| 0 <= j < k < all.len() implies argument_of(
            #[trigger] all[j],
        )->0 < argument_of(#[trigger] all[k])->0 by {
            assert(all[j] == before[j]);
            if k < before.len() {
                assert(all[k] == before[k]);
            }
        }
    }
}

/// The write-backs of an observer are in the order of its parameters, so that none happens twice.
proof fn lemma_observer_write_backs_ascend(params: Seq<LuaParam>, n: int)
    requires
        0 <= n <= params.len() <= usize::MAX - 2,
    ensures
        forall|j: int, k: int|
            0 <= j < k < observer_write_backs(params, n).len() ==> argument_of(
                #[trigger] observer_write_backs(params, n)[j],
            )->0 < argument_of(#[trigger] observer_write_backs(params, n)[k])->0,
    decreases n,
{
    if n > 0 {
        lemma_observer_write_backs_ascend(params, n - 1);
        lemma_observer_write_backs(params, n - 1);
        let before = observer_write_backs(params, n - 1);
        let all = observer_write_backs(params, n);
        assert forall|j: int, k: int| 0 <= j < k < all.len() implies argument_of(
            #[trigger] all[j],
        )->0 < argument_of(#[trigger] all[k])->0 by {
            assert(all[j] == before[j]);
            if k < before.len() {
                assert(all[k] == before[k]);
            }
        }
    }
}

/// A run ends in carrying out the commands, once; and each argument is written back at most once,
/// in the order of the arguments. This holds of systems and of observers.
pub proof fn law_runs_write_back_in_order_and_flush_once(params: Seq<LuaParam>)
    requires
        params.len() <= usize::MAX - 2,
    ensures
        system_plan(params).last() == RunAction::Flush,
        observer_plan(params).last() == RunAction::Flush,
        forall|k: int|
            0 <= k < system_plan(params).len() - 1 ==> #[trigger] system_plan(params)[k]
                != RunAction::Flush,
        forall|k: int|
            0 <= k < observer_plan(params).len() - 1 ==> #[trigger] observer_plan(params)[k]
                != RunAction::Flush,
        forall|j: int, k: int|
            0 <= j < k < system_plan(params).len() ==> (argument_of(
                #[trigger] system_plan(params)[j],
            ) matches Some(a) ==> (argument_of(#[trigger] system_plan(params)[k]) matches Some(b)
                ==> a < b)),
        forall|j: int, k: int|
            0 <= j < k < observer_plan(params).len() ==> (argument_of(
                #[trigger] observer_plan(params)[j],
            ) matches Some(a) ==> (argument_of(#[trigger] observer_plan(params)[k]) matches Some(b)
                ==> a < b)),
{
    let n = params.len() as int;
    let systems = system_plan(params);
    let system_backs = system_write_backs(params, n);
    lemma_system_write_backs(params, n);
    lemma_system_write_backs_ascend(params, n);
    assert forall|k: int| 0 <= k < systems.len() implies #[trigger] systems[k] == (if k < n {
        system_arg(params, k)
    } else if k == n {
        RunAction::Call
    } else if k < systems.len() - 1 {
        system_backs[k - n - 1]
    } else {
        RunAction::Flush
    }) by {}
    let observers = observer_plan(params);
    let observer_backs = observer_write_backs(params, n);
    lemma_observer_write_backs(params, n);
    lemma_observer_write_backs_ascend(params, n);
    assert forall|k: int| 0 <= k < observers.len() implies #[trigger] observers[k] == (if k == 0 {
        RunAction::PassEntity
    } else if k == 1 {
        RunAction::PassEvent
    } else if k < n + 2 {
        observer_arg(params, k - 2)
    } else if k == n + 2 {
        RunAction::Call
    } else if k < observers.len() - 1 {
        observer_backs[k - n - 3]
    } else {
        RunAction::Flush
    }) by {}
}

/// What running a system comes to: each parameter is passed at its position, time as the time; the
/// call follows; then each query and each resource is written back, once and in order, from where it
/// was passed; and the commands are carried out at the end.
pub proof fn law_running_a_system(params: Vec<LuaParam>, plan: Vec<RunAction>)
    requires
        call_ensures(run_lua_system, (&params,), plan),
        params@.len() <= usize::MAX - 2,
    ensures
        plan@.len() >= params@.len() + 2,
        forall|i: int|
            0 <= i < params@.len() ==> (match #[trigger] params@[i] {
                LuaParam::Commands => plan@[i] is PassCommands,
                LuaParam::Time => plan@[i] is PassTime,
                LuaParam::Query(_) => plan@[i] matches RunAction::PassQuery { param } && param == i,
                LuaParam::Resource(id) => plan@[i] == RunAction::PassResource { id },
            }),
        plan@[params@.len() as int] is Call,
        plan@.last() is Flush,
        forall|k: int|
            params@.len() < k < plan@.len() - 1 ==> (match #[trigger] plan@[k] {
                RunAction::WriteBackQuery { arg } => arg < params@.len() && params@[arg as int]
                    is Query,
                RunAction::WriteBackResource { arg, id } => arg < params@.len()
                    && params@[arg as int] == LuaParam::Resource(id),
                _ => false,
            }),
        forall|i: usize|
            i < params@.len() ==> (#[trigger] params@[i as int] is Query ==> plan@.contains(
                RunAction::WriteBackQuery { arg: i },
            )),
        forall|i: usize|
            i < params@.len() ==> (#[trigger] params@[i as int] matches LuaParam::Resource(id)
                ==> plan@.contains(RunAction::WriteBackResource { arg: i, id })),
        forall|j: int, k: int|
            params@.len() < j < k < plan@.len() - 1 ==> argument_of(#[trigger] plan@[j])->0
                < argument_of(#[trigger] plan@[k])->0,
{
    let n = params@.len() as int;
    law_systems_are_passed_their_parameters(params@);
    law_runs_write_back_in_order_and_flush_once(params@);
    assert(plan@ == system_plan(params@));
    assert forall|k: int| n < k < plan@.len() - 1 implies (match #[trigger] plan@[k] {
        RunAction::WriteBackQuery { arg } => arg < n && params@[arg as int] is Query,
        RunAction::WriteBackResource { arg, id } => arg < n && params@[arg as int]
            == LuaParam::Resource(id),
        _ => false,
    }) by {
        lemma_system_write_backs(params@, n);
        assert(plan@[k] == system_write_backs(params@, n)[k - n - 1]);
    }
    assert forall|i: usize| i < params@.len() implies (#[trigger] params@[i as int] is Query
        ==> plan@.contains(RunAction::WriteBackQuery { arg: i })) && (params@[i as int] matches
        LuaParam::Resource(id) ==> plan@.contains(RunAction::WriteBackResource { arg: i, id })) by {
        law_systems_write_everything_back(params@, i as int);
    }
}

/// What running an observer comes to: the entity and the event are passed first, then each
/// parameter, of which only commands and queries are more than nil; the call follows; then each
/// query is written back, once and in order; and the commands are carried out at the end.
pub proof fn law_running_an_observer(params: Vec<LuaParam>, plan: Vec<RunAction>)
    requires
        call_ensures(run_lua_observer, (&params,), plan),
        params@.len() <= usize::MAX - 2,
    ensures
        plan@.len() >= params@.len() + 4,
        plan@[0] is PassEntity,
        plan@[1] is PassEvent,
        forall|i: int|
            0 <= i < params@.len() ==> (match #[trigger] params@[i] {
                LuaParam::Commands => plan@[i + 2] is PassCommands,
                LuaParam::Query(_) => plan@[i + 2] matches RunAction::PassQuery { param } && param
                    == i,
                LuaParam::Time | LuaParam::Resource(_) => plan@[i + 2] is PassNil,
            }),
        plan@[params@.len() as int + 2] is Call,
        plan@.last() is Flush,
        forall|k: int|
            params@.len() + 2 < k < plan@.len() - 1 ==> (#[trigger] plan@[k] matches
                RunAction::WriteBackQuery { arg } && 2 <= arg < params@.len() + 2 && params@[arg
                - 2] is Query),
        forall|i: usize|
            i < params@.len() && (#[trigger] params@[i as int]) is Query ==> plan@.contains(
                RunAction::WriteBackQuery { arg: (i + 2) as usize },
            ),
        forall|j: int, k: int|
            params@.len() + 2 < j < k < plan@.len() - 1 ==> argument_of(#[trigger] plan@[j])->0
                < argument_of(#[trigger] plan@[k])->0,
{
    let n = params@.len() as int;
    law_observers_are_passed_their_parameters(params@);
    law_runs_write_back_in_order_and_flush_once(params@);
    assert(plan@ == observer_plan(params@));
    assert forall|k: int| n + 2 < k < plan@.len() - 1 implies (#[trigger] plan@[k] matches
        RunAction::WriteBackQuery { arg } && 2 <= arg < n + 2 && params@[arg - 2] is Query) by {
        lemma_observer_write_backs(params@, n);
        assert(plan@[k] == observer_write_backs(params@, n)[k - n - 3]);
    }
    assert forall|i: usize|
        i < params@.len() && (#[trigger] params@[i as int]) is Query implies plan@.contains(
        RunAction::WriteBackQuery { arg: (i + 2) as usize },
    ) by {
        law_observers_write_everything_back(params@, i as int);
    }
}

} // verus!
