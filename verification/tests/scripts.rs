use bevy_luau::commands::{
    dispatch_trigger, flush_commands, CommandBuffer, FlushAction, SpawnKey, SpawnValue,
};
use bevy_luau::entity::{entity_from_script, entity_to_script};
use bevy_luau::run::{run_lua_observer, run_lua_system, RunAction};
use bevy_luau::runtime::{resolve_param, ScriptingRuntime};
use bevy_luau::snapshot::{
    next_write_back, query_terms, snapshot_query, writeback_snapshot, QueryTerm, WriteBack,
};
use bevy_luau::staging::{
    collect_fields, infer_field_type, parse_staged_params, stage_query, with_ctx, FieldModel,
    LoadContext, LuaComponentMarker, LuaError, ParamValue, StagedParam, StagedQuery,
};
use bevy_luau::text::{print_line, PrintValue, RuntimeError};
use bevy_luau::value::{LuaValue, NotUtf8};
use bevy_luau::{
    EngineStringPool, LuaObserverDescriptor, LuaParam, LuaSchedule, LuaTime, LuauFieldType,
    ResolvedQuery, SchemaRegistry,
};

type Pool = EngineStringPool<String>;
type Items = Vec<Result<FieldModel, String>>;

fn make(s: &str) -> String {
    s.to_string()
}

fn runtime_error<E>(message: &str) -> LuaError<E> {
    LuaError::Runtime(RuntimeError { message: message.to_string() })
}

fn field(key: &[u8], value: LuaValue) -> Result<FieldModel, String> {
    Ok(FieldModel { key: key.to_vec(), value, kind_name: "table".to_string() })
}

fn marker(staging_idx: usize) -> LuaComponentMarker {
    LuaComponentMarker { staging_idx, resolved_id: None }
}

fn resolved(staging_idx: usize, id: usize) -> LuaComponentMarker {
    LuaComponentMarker { staging_idx, resolved_id: Some(id) }
}

#[test]
fn field_types_follow_their_models() {
    let infer = |value: LuaValue| infer_field_type(&value, "nil").ok();
    assert_eq!(infer(LuaValue::Boolean(false)), Some(LuauFieldType::Bool));
    assert_eq!(infer(LuaValue::Integer(1)), Some(LuauFieldType::Integer));
    assert_eq!(infer(LuaValue::Number(0)), Some(LuauFieldType::Number));
    assert_eq!(infer(LuaValue::Vector(0, 0, 0, 0)), Some(LuauFieldType::Vector4));
    assert_eq!(infer(LuaValue::String(vec![])), Some(LuauFieldType::String));
    assert_eq!(infer(LuaValue::Buffer(vec![0; 5])), Some(LuauFieldType::Buffer(5)));
    assert_eq!(
        infer_field_type(&LuaValue::Nil, "nil").unwrap_err().message,
        "cannot infer field type from 'nil'"
    );
}

#[test]
fn fields_are_collected_in_order() {
    let mut pool = Pool::default();
    let items: Items = vec![
        field(b"x", LuaValue::Number(0)),
        field(b"n", LuaValue::Integer(0)),
        field(b"x", LuaValue::Boolean(true)),
    ];
    let fields = collect_fields(&mut pool, items, make).unwrap();
    assert_eq!(fields[0].1, LuauFieldType::Number);
    assert_eq!(fields[1].1, LuauFieldType::Integer);
    assert_eq!(fields[2].1, LuauFieldType::Bool);
    assert_eq!(fields[0].0, fields[2].0);
    assert_ne!(fields[0].0, fields[1].0);
    assert_eq!(pool.get_lua_str(fields[1].0), "n");
}

#[test]
fn collecting_stops_at_the_first_bad_entry() {
    let mut pool = Pool::default();
    let items: Items = vec![field(b"a", LuaValue::Integer(0)), field(b"b", LuaValue::Other)];
    assert_eq!(
        collect_fields(&mut pool, items, make),
        Err(runtime_error("cannot infer field type from 'table'"))
    );
    assert_eq!(pool.rodeo.len(), 1);
    let items: Items = vec![Err("broken".to_string())];
    assert_eq!(
        collect_fields(&mut pool, items, make),
        Err(LuaError::External("broken".to_string()))
    );
    let items: Items = vec![field(&[0xff], LuaValue::Integer(0))];
    assert_eq!(collect_fields(&mut pool, items, make), Err(LuaError::NotUtf8));
}

#[test]
fn declared_types_are_numbered_and_named() {
    let mut pool = Pool::default();
    let mut ctx: LoadContext<u8, LuaComponentMarker> = LoadContext::default();
    let create = |m: LuaComponentMarker| -> Result<LuaComponentMarker, String> { Ok(m) };
    let first = ctx
        .register_schema(&mut pool, vec![field(b"a", LuaValue::Integer(0))], false, make, create)
        .unwrap();
    let second = ctx.register_schema(&mut pool, vec![], true, make, create).unwrap();
    assert_eq!(first, marker(0));
    assert_eq!(second, marker(1));
    assert_eq!(ctx.component_markers, vec![marker(0), marker(1)]);
    assert_eq!(ctx.pending_components[0].name, "__lua_comp_0");
    assert_eq!(ctx.pending_components[1].name, "__lua_res_1");
    assert!(!ctx.pending_components[0].is_resource);
    assert!(ctx.pending_components[1].is_resource);
    assert!(ctx.is_wf());
}

#[test]
fn failed_declarations_leave_their_traces() {
    let mut pool = Pool::default();
    let mut ctx: LoadContext<u8, LuaComponentMarker> = LoadContext::default();
    let fail = |_: LuaComponentMarker| -> Result<LuaComponentMarker, String> {
        Err("no memory".to_string())
    };
    let bad = vec![field(b"a", LuaValue::Nil)];
    assert_eq!(
        ctx.register_schema(&mut pool, bad, false, make, fail),
        Err(runtime_error("cannot infer field type from 'table'"))
    );
    assert!(ctx.pending_components.is_empty());
    assert_eq!(
        ctx.register_schema(&mut pool, vec![], false, make, fail),
        Err(LuaError::External("no memory".to_string()))
    );
    assert_eq!(ctx.pending_components.len(), 1);
    assert!(ctx.component_markers.is_empty());
}

#[test]
fn parameters_are_parsed_in_order() {
    let items: Vec<Result<ParamValue, String>> =
        vec![Ok(ParamValue::Time), Ok(ParamValue::Commands), Ok(ParamValue::Resource(3))];
    assert_eq!(
        parse_staged_params(items),
        Ok(vec![StagedParam::Time, StagedParam::Commands, StagedParam::Resource(3)])
    );
    let items: Vec<Result<ParamValue, String>> =
        vec![Ok(ParamValue::Time), Ok(ParamValue::Other("string".to_string()))];
    assert_eq!(parse_staged_params(items), Err(runtime_error("invalid param type 'string'")));
    let items: Vec<Result<ParamValue, String>> = vec![Err("broken".to_string())];
    assert_eq!(parse_staged_params(items), Err(LuaError::External("broken".to_string())));
}

#[test]
fn queries_read_their_keys() {
    let read = |key: &str| -> Result<Option<Vec<Result<LuaComponentMarker, String>>>, String> {
        match key {
            "Mutable" => Ok(Some(vec![Ok(marker(2)), Ok(marker(0))])),
            "Immutable" => Ok(Some(vec![Ok(marker(1))])),
            "With" => Ok(Some(vec![])),
            _ => Ok(None),
        }
    };
    assert_eq!(
        stage_query(read),
        Ok(StagedQuery { mutable: vec![2, 0], immutable: vec![1], with: vec![], without: vec![] })
    );
    let broken = |key: &str| -> Result<Option<Vec<Result<LuaComponentMarker, String>>>, String> {
        match key {
            "Mutable" => Ok(None),
            "Immutable" => Ok(Some(vec![Ok(marker(1)), Err("no marker".to_string())])),
            _ => Err("not read".to_string()),
        }
    };
    assert_eq!(stage_query(broken), Err("no marker".to_string()));
    let failing = |_: &str| -> Result<Option<Vec<Result<LuaComponentMarker, String>>>, String> {
        Err("no table".to_string())
    };
    assert_eq!(stage_query(failing), Err("no table".to_string()));
}

#[test]
fn declarations_need_a_load() {
    let mut calls = Vec::new();
    let double = |ctx: i32| -> Result<i32, LuaError<String>> {
        calls.push(ctx);
        Ok(ctx * 2)
    };
    assert_eq!(with_ctx(Some(5), double), Ok(10));
    assert_eq!(calls, vec![5]);
    let fail = |_: i32| -> Result<i32, LuaError<String>> { Err(LuaError::NotUtf8) };
    assert_eq!(with_ctx(Some(5), fail), Err(LuaError::NotUtf8));
    let unreached = |_: i32| -> Result<i32, LuaError<String>> { panic!("no load") };
    assert_eq!(
        with_ctx(None, unreached),
        Err(runtime_error("Ecs API only available during script loading"))
    );
}

#[test]
fn markers_resolve_by_position() {
    let mut m = marker(1);
    assert_eq!(m.component_id().unwrap_err().message, "component marker not yet resolved");
    m.resolve(1, &[10, 11]);
    assert_eq!(m.component_id(), Ok(11));
    assert_eq!(m.staging_idx, 1);
}

#[test]
fn parameters_resolve_to_numbers() {
    let ids = [10, 11, 12];
    assert_eq!(resolve_param(StagedParam::Commands, &ids), LuaParam::Commands);
    assert_eq!(resolve_param(StagedParam::Time, &ids), LuaParam::Time);
    assert_eq!(resolve_param(StagedParam::Resource(2), &ids), LuaParam::Resource(12));
    let query =
        StagedQuery { mutable: vec![2, 0], immutable: vec![1], with: vec![0], without: vec![2] };
    assert_eq!(
        resolve_param(StagedParam::Query(query), &ids),
        LuaParam::Query(ResolvedQuery {
            mutable: vec![12, 10],
            immutable: vec![11],
            with: vec![10],
            without: vec![12],
        })
    );
}

#[test]
fn loads_end_in_systems_and_observers() {
    let mut pool = Pool::default();
    let mut ctx: LoadContext<&str, LuaComponentMarker> = LoadContext::default();
    let create = |m: LuaComponentMarker| -> Result<LuaComponentMarker, String> { Ok(m) };
    let event = ctx.register_schema(&mut pool, vec![], false, make, create).unwrap();
    ctx.register_schema(&mut pool, vec![], true, make, create).unwrap();
    ctx.register_system("init", LuaSchedule::Startup, vec![StagedParam::Commands]);
    ctx.register_system("tick", LuaSchedule::Update, vec![StagedParam::Resource(1)]);
    ctx.register_system("late", LuaSchedule::Startup, vec![]);
    ctx.observe(&event, "hit", vec![StagedParam::Time]);
    assert!(ctx.is_wf());

    let mut registry = SchemaRegistry::default();
    let ids = [20, 21];
    let (schemas, descriptors) = SchemaRegistry::build_all(&ctx.pending_components);
    assert_eq!(descriptors[1].name, "__lua_res_1");
    registry.install_all(schemas, &ctx.pending_components, &ids);
    assert_eq!(registry.name_to_id.get("__lua_comp_0"), Some(&20));
    assert_eq!(registry.name_to_id.get("__lua_res_1"), Some(&21));
    assert_eq!(registry.id_to_schema[&20].name, "__lua_comp_0");
    assert_eq!(registry.id_to_schema[&21].name, "__lua_res_1");
    assert!(!registry.resource_ids.contains(&20));
    assert!(registry.resource_ids.contains(&21));
    assert_eq!(registry.resource_data.len(), 1);
    assert_eq!(registry.resource_data[&21], vec![0]);

    let mut runtime: ScriptingRuntime<(), &str> = ScriptingRuntime::default();
    runtime.finish_load(ctx, &ids);
    assert_eq!(runtime.systems.len(), 3);
    assert_eq!(runtime.systems[1].func, "tick");
    assert_eq!(runtime.systems[1].params, vec![LuaParam::Resource(21)]);
    assert_eq!(
        runtime.observers,
        vec![LuaObserverDescriptor { event_id: 20, func: "hit", params: vec![LuaParam::Time] }]
    );
    assert_eq!(runtime.scheduled(LuaSchedule::Startup), vec![0, 2]);
    assert_eq!(runtime.scheduled(LuaSchedule::Update), vec![1]);
}

#[test]
fn stray_positions_are_noticed() {
    let mut ctx: LoadContext<u8, LuaComponentMarker> = LoadContext::default();
    ctx.register_system(0, LuaSchedule::Update, vec![StagedParam::Resource(0)]);
    assert!(!ctx.is_wf());
    let mut ctx: LoadContext<u8, LuaComponentMarker> = LoadContext::default();
    ctx.observe(&marker(0), 0, vec![]);
    assert!(!ctx.is_wf());
    let mut ctx: LoadContext<u8, LuaComponentMarker> = LoadContext::default();
    let query =
        StagedQuery { mutable: vec![], immutable: vec![], with: vec![], without: vec![0] };
    ctx.register_system(0, LuaSchedule::Update, vec![StagedParam::Query(query)]);
    assert!(!ctx.is_wf());
}

#[test]
fn time_answers_two_names() {
    let time = LuaTime { delta_secs: 0.5f64.to_bits(), elapsed_secs: 8.0f64.to_bits() };
    assert_eq!(time.index(&b"dt".to_vec()), Ok(Some(0.5f64.to_bits())));
    assert_eq!(time.index(&b"elapsed".to_vec()), Ok(Some(8.0f64.to_bits())));
    assert_eq!(time.index(&b"other".to_vec()), Ok(None));
    assert_eq!(time.index(&vec![0xc3]), Err(NotUtf8));
}

#[test]
fn printing_joins_with_spaces() {
    let values = vec![
        PrintValue::Nil,
        PrintValue::Boolean(true),
        PrintValue::Boolean(false),
        PrintValue::Integer(i64::MIN),
        PrintValue::Integer(120),
        PrintValue::Number("1.5".to_string()),
        PrintValue::String("hi".to_string()),
        PrintValue::Table,
        PrintValue::Function,
        PrintValue::UserData,
        PrintValue::Other,
    ];
    assert_eq!(
        print_line(&values),
        "nil true false -9223372036854775808 120 1.5 hi table function userdata unknown"
    );
    assert_eq!(print_line(&vec![]), "");
}

#[test]
fn entities_are_numbers_with_an_index() {
    assert_eq!(entity_from_script(0), None);
    assert_eq!(entity_from_script(1 << 32), None);
    assert_eq!(entity_from_script(5), Some(5));
    assert_eq!(entity_from_script(-1), Some(u64::MAX));
    let entity = bevy::ecs::entity::Entity::from_bits(0x8000_0001_0000_0002);
    assert_eq!(entity_from_script(entity_to_script(entity.to_bits())), Some(entity.to_bits()));
}

#[test]
fn spawning_takes_markers_alone() {
    let mut buffer: CommandBuffer<&str> = CommandBuffer::default();
    let items: Vec<Result<(SpawnKey, SpawnValue<&str>), String>> = vec![
        Ok((SpawnKey::Marker(resolved(0, 10)), SpawnValue::Table("t"))),
        Ok((SpawnKey::Other, SpawnValue::Table("ignored"))),
        Ok((SpawnKey::Marker(resolved(1, 11)), SpawnValue::Default)),
        Ok((SpawnKey::Marker(resolved(2, 12)), SpawnValue::Other)),
    ];
    assert_eq!(buffer.spawn(items), Ok(()));
    assert_eq!(buffer.spawns[0].components, vec![(10, Some("t")), (11, None), (12, None)]);

    let items: Vec<Result<(SpawnKey, SpawnValue<&str>), String>> = vec![
        Ok((SpawnKey::Marker(resolved(0, 10)), SpawnValue::Default)),
        Ok((SpawnKey::Marker(marker(1)), SpawnValue::Default)),
    ];
    assert_eq!(buffer.spawn(items), Err(runtime_error("component marker not yet resolved")));
    let items: Vec<Result<(SpawnKey, SpawnValue<&str>), String>> = vec![Err("broken".to_string())];
    assert_eq!(buffer.spawn(items), Err(LuaError::External("broken".to_string())));
    assert_eq!(buffer.spawns.len(), 1);
}

#[test]
fn triggers_need_resolved_events() {
    let mut buffer: CommandBuffer<&str> = CommandBuffer::default();
    assert_eq!(
        buffer.trigger(5, &marker(0), "data").unwrap_err().message,
        "component marker not yet resolved"
    );
    assert!(buffer.triggers.is_empty());
    buffer.trigger(-2, &resolved(0, 9), "data").unwrap();
    assert_eq!(buffer.triggers[0].entity, u64::MAX - 1);
    assert_eq!(buffer.triggers[0].event_id, 9);
    assert_eq!(buffer.triggers[0].data_table, "data");
}

#[test]
fn commands_are_flushed_in_phases() {
    let observers = vec![
        LuaObserverDescriptor { event_id: 9, func: 0, params: vec![] },
        LuaObserverDescriptor { event_id: 8, func: 1, params: vec![] },
        LuaObserverDescriptor { event_id: 9, func: 2, params: vec![] },
    ];
    let mut buffer: CommandBuffer<&str> = CommandBuffer::default();
    buffer.trigger(5, &resolved(0, 9), "first").unwrap();
    buffer.despawn(6);
    let items: Vec<Result<(SpawnKey, SpawnValue<&str>), String>> = vec![
        Ok((SpawnKey::Marker(resolved(0, 10)), SpawnValue::Default)),
        Ok((SpawnKey::Marker(resolved(1, 11)), SpawnValue::Table("t"))),
    ];
    buffer.spawn(items).unwrap();
    buffer.spawn::<String>(vec![]).unwrap();
    buffer.trigger(5, &resolved(0, 7), "unseen").unwrap();
    buffer.trigger(5, &resolved(0, 8), "third").unwrap();
    assert_eq!(dispatch_trigger(9, &observers), vec![0, 2]);
    assert_eq!(
        flush_commands(&buffer, &observers),
        vec![
            FlushAction::SpawnEntity,
            FlushAction::InsertDefault { id: 10 },
            FlushAction::InsertTable { spawn: 0, component: 1, id: 11 },
            FlushAction::SpawnEntity,
            FlushAction::Despawn { entity: 6 },
            FlushAction::RunObserver { trigger: 0, observer: 0 },
            FlushAction::RunObserver { trigger: 0, observer: 2 },
            FlushAction::RunObserver { trigger: 2, observer: 1 },
        ]
    );
}

fn all_params() -> Vec<LuaParam> {
    vec![
        LuaParam::Time,
        LuaParam::Query(ResolvedQuery::default()),
        LuaParam::Resource(4),
        LuaParam::Commands,
    ]
}

#[test]
fn systems_write_queries_and_resources_back() {
    assert_eq!(
        run_lua_system(&all_params()),
        vec![
            RunAction::PassTime,
            RunAction::PassQuery { param: 1 },
            RunAction::PassResource { id: 4 },
            RunAction::PassCommands,
            RunAction::Call,
            RunAction::WriteBackQuery { arg: 1 },
            RunAction::WriteBackResource { arg: 2, id: 4 },
            RunAction::Flush,
        ]
    );
}

#[test]
fn observers_write_queries_back() {
    assert_eq!(
        run_lua_observer(&all_params()),
        vec![
            RunAction::PassEntity,
            RunAction::PassEvent,
            RunAction::PassNil,
            RunAction::PassQuery { param: 1 },
            RunAction::PassNil,
            RunAction::PassCommands,
            RunAction::Call,
            RunAction::WriteBackQuery { arg: 3 },
            RunAction::Flush,
        ]
    );
}

fn sample_query() -> ResolvedQuery {
    ResolvedQuery { mutable: vec![1, 2], immutable: vec![3], with: vec![4], without: vec![5] }
}

#[test]
fn query_terms_keep_their_order() {
    assert_eq!(
        query_terms(&sample_query()),
        vec![
            QueryTerm::Mut(1),
            QueryTerm::Mut(2),
            QueryTerm::Ref(3),
            QueryTerm::With(4),
            QueryTerm::Without(5),
        ]
    );
}

#[test]
fn snapshots_hold_a_row_per_entity() {
    let fetch = |entity: u64, id: usize| -> Result<Option<String>, String> {
        if entity == 8 && id == 2 {
            Ok(None)
        } else {
            Ok(Some(format!("{entity}:{id}")))
        }
    };
    let snapshot = snapshot_query(&sample_query(), &vec![7, 8], &fetch).unwrap();
    assert_eq!(snapshot.desc, sample_query());
    assert_eq!(snapshot.rows[0].mutable_tables, vec!["7:1", "7:2"]);
    assert_eq!(snapshot.rows[0].immutable_tables, vec!["7:3"]);
    assert_eq!(snapshot.rows[1].mutable_tables, vec!["8:1"]);

    assert_eq!(snapshot.get(8), Some(&vec!["8:1".to_string()]));
    assert_eq!(snapshot.get(9), None);

    let row = snapshot.step(0).unwrap();
    assert_eq!(row.entity_bits, 7);
    assert_eq!(row.tables, vec!["7:1", "7:2", "7:3"]);
    assert!(snapshot.step(1).is_some());
    assert!(snapshot.step(2).is_none());

    assert_eq!(
        writeback_snapshot(&snapshot),
        vec![
            WriteBack { entity: 7, component_id: 1, row: 0, table: 0 },
            WriteBack { entity: 7, component_id: 2, row: 0, table: 1 },
            WriteBack { entity: 8, component_id: 1, row: 1, table: 0 },
        ]
    );
}

#[test]
fn write_backs_stop_at_the_first_failure() {
    let step = |table: usize| WriteBack { entity: 7, component_id: 1, row: 0, table };
    let plan = vec![step(0), step(1)];
    assert_eq!(next_write_back(&plan, 0, false), Some(step(0)));
    assert_eq!(next_write_back(&plan, 1, false), Some(step(1)));
    assert_eq!(next_write_back(&plan, 1, true), None);
    assert_eq!(next_write_back(&plan, 2, false), None);
}

#[test]
fn types_named_twice_are_written_twice() {
    let desc =
        ResolvedQuery { mutable: vec![1, 1], immutable: vec![], with: vec![], without: vec![] };
    let fetch =
        |entity: u64, id: usize| -> Result<Option<String>, String> { Ok(Some(format!("{entity}:{id}"))) };
    let snapshot = snapshot_query(&desc, &vec![7], &fetch).unwrap();
    let plan = writeback_snapshot(&snapshot);
    assert_eq!(plan.len(), 2);
    assert_eq!(plan[1], WriteBack { entity: 7, component_id: 1, row: 0, table: 1 });
}

#[test]
fn snapshots_stop_at_the_first_failure() {
    let fetch = |entity: u64, id: usize| -> Result<Option<String>, String> {
        if id == 3 {
            Err(format!("broken {entity}"))
        } else {
            Ok(None)
        }
    };
    assert_eq!(
        snapshot_query(&sample_query(), &vec![7, 8], &fetch),
        Err("broken 7".to_string())
    );
}
