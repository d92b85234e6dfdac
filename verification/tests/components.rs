use std::alloc::Layout as StdLayout;
use std::collections::HashMap;
use std::f64;

use bevy_luau::bridge::{can_extract, TableEntry, TableError};
use bevy_luau::bytes::{
    get_u32, get_u64, native_order, order_of_one, put_u32, put_u64, ByteOrder,
};
use bevy_luau::layout::{align_up, Layout};
use bevy_luau::pool::StrKey;
use bevy_luau::resource::{extract_resource_table, writeback_resource_table};
use bevy_luau::schema::{ComponentCloneBehavior, StorageType};
use bevy_luau::value::{FieldValue, LuaValue};
use bevy_luau::{DynamicComponentBridge, EngineStringPool, LuauFieldType, SchemaRegistry};

type Pool = EngineStringPool<String>;

fn make(s: &str) -> String {
    s.to_string()
}

fn table(values: &[(&str, LuaValue)]) -> HashMap<String, LuaValue> {
    values.iter().map(|(k, v)| (k.to_string(), v.clone())).collect()
}

fn reader(
    values: &HashMap<String, LuaValue>,
) -> impl Fn(&String) -> Result<LuaValue, String> + '_ {
    move |key: &String| Ok(values.get(key).cloned().unwrap_or(LuaValue::Nil))
}

fn by_name<'a>(entries: &'a [TableEntry<'a, String>]) -> HashMap<String, FieldValue<&'a String>> {
    entries.iter().map(|e| (e.key.clone(), e.value.clone())).collect()
}

fn registry_with(
    pool: &mut Pool,
    fields: &[(&str, LuauFieldType)],
    is_resource: bool,
) -> SchemaRegistry {
    let fields: Vec<(StrKey, LuauFieldType)> =
        fields.iter().map(|&(name, ft)| (pool.intern(make, name), ft)).collect();
    assert!(SchemaRegistry::layout_fits(&fields));
    let (schema, _) = SchemaRegistry::build("Test".to_string(), &fields);
    let mut registry = SchemaRegistry::default();
    registry.install(7, schema, is_resource);
    registry
}

#[test]
fn roundtrip() {
    let mut pool = Pool::default();
    let mut registry = SchemaRegistry::default();

    let fields = vec![
        (pool.intern(make, "a"), LuauFieldType::Integer),
        (pool.intern(make, "b"), LuauFieldType::Number),
    ];

    let (schema, descriptor) = SchemaRegistry::build("Test".into(), &fields);
    assert_eq!(descriptor.name, "Test");
    let id = 0;
    registry.insert(id, schema);

    let values = table(&[
        ("a", LuaValue::Integer(42)),
        ("b", LuaValue::Number(f64::consts::PI.to_bits())),
    ]);

    let data = DynamicComponentBridge::insert_from_table(
        id,
        &registry,
        &mut pool,
        reader(&values),
        make,
    )
    .unwrap();

    assert!(can_extract(&data, id, &registry, &pool));
    let out =
        DynamicComponentBridge::extract_to_table(Some(&data), id, &registry, &pool).unwrap();
    let out = by_name(&out);

    assert_eq!(out["a"], FieldValue::Integer(42));
    match out["b"] {
        FieldValue::Number(bits) => {
            assert!((f64::from_bits(bits) - f64::consts::PI).abs() < 1e-9);
        }
        _ => panic!("no number"),
    }
}

#[test]
fn all_kinds_round_trip() {
    let mut pool = Pool::default();
    let registry = registry_with(
        &mut pool,
        &[
            ("flag", LuauFieldType::Bool),
            ("count", LuauFieldType::Integer),
            ("speed", LuauFieldType::Number),
            ("place", LuauFieldType::Vector4),
            ("title", LuauFieldType::String),
            ("blob", LuauFieldType::Buffer(4)),
        ],
        false,
    );
    let values = table(&[
        ("flag", LuaValue::Boolean(true)),
        ("count", LuaValue::Integer(-5)),
        ("speed", LuaValue::Number(1.5f64.to_bits())),
        (
            "place",
            LuaValue::Vector(
                1.0f32.to_bits(),
                (-2.0f32).to_bits(),
                0.5f32.to_bits(),
                4.0f32.to_bits(),
            ),
        ),
        ("title", LuaValue::String("caf\u{e9}".as_bytes().to_vec())),
        ("blob", LuaValue::Buffer(vec![1, 2, 3, 4])),
    ]);
    let data =
        DynamicComponentBridge::insert_from_table(7, &registry, &mut pool, reader(&values), make)
            .unwrap();
    let out = DynamicComponentBridge::extract_to_table(Some(&data), 7, &registry, &pool).unwrap();
    let out = by_name(&out);
    assert_eq!(out.len(), 6);
    assert_eq!(out["flag"], FieldValue::Bool(true));
    assert_eq!(out["count"], FieldValue::Integer(-5));
    assert_eq!(out["speed"], FieldValue::Number(1.5f64.to_bits()));
    assert_eq!(
        out["place"],
        FieldValue::Vector4(
            1.0f32.to_bits(),
            (-2.0f32).to_bits(),
            0.5f32.to_bits(),
            4.0f32.to_bits(),
        )
    );
    assert_eq!(out["title"], FieldValue::String(&"caf\u{e9}".to_string()));
    assert_eq!(out["blob"], FieldValue::Buffer(vec![1, 2, 3, 4]));
}

#[test]
fn values_of_other_kinds_leave_zeros() {
    let mut pool = Pool::default();
    let registry = registry_with(
        &mut pool,
        &[("a", LuauFieldType::Integer), ("b", LuauFieldType::Number)],
        false,
    );
    let values = table(&[("a", LuaValue::Number(1.0f64.to_bits())), ("c", LuaValue::Integer(9))]);
    let data =
        DynamicComponentBridge::insert_from_table(7, &registry, &mut pool, reader(&values), make)
            .unwrap();
    assert_eq!(data, vec![0u8; 16]);
}

#[test]
fn buffers_are_cut_and_padded() {
    let mut pool = Pool::default();
    let registry = registry_with(&mut pool, &[("b", LuauFieldType::Buffer(3))], false);
    let long = table(&[("b", LuaValue::Buffer(vec![9, 8, 7, 6]))]);
    let short = table(&[("b", LuaValue::Buffer(vec![9]))]);
    let cut =
        DynamicComponentBridge::insert_from_table(7, &registry, &mut pool, reader(&long), make);
    let padded =
        DynamicComponentBridge::insert_from_table(7, &registry, &mut pool, reader(&short), make);
    assert_eq!(cut, Ok(vec![9, 8, 7]));
    assert_eq!(padded, Ok(vec![9, 0, 0]));
}

#[test]
fn failing_tables_and_bad_strings_are_errors() {
    let mut pool = Pool::default();
    let registry = registry_with(&mut pool, &[("s", LuauFieldType::String)], false);
    let failing = |_: &String| -> Result<LuaValue, String> { Err("broken".to_string()) };
    assert_eq!(
        DynamicComponentBridge::insert_from_table(7, &registry, &mut pool, failing, make),
        Err(TableError::Lua("broken".to_string()))
    );
    let bad = table(&[("s", LuaValue::String(vec![0xff, 0xfe]))]);
    assert_eq!(
        DynamicComponentBridge::insert_from_table(7, &registry, &mut pool, reader(&bad), make),
        Err(TableError::NotUtf8)
    );
}

#[test]
fn unknown_types_and_missing_components_have_no_table() {
    let mut pool = Pool::default();
    let registry = registry_with(&mut pool, &[("a", LuauFieldType::Bool)], false);
    assert!(DynamicComponentBridge::extract_to_table(Some(&[1]), 8, &registry, &pool).is_none());
    assert!(DynamicComponentBridge::extract_to_table(None, 7, &registry, &pool).is_none());
    let out = DynamicComponentBridge::extract_to_table(Some(&[1]), 7, &registry, &pool).unwrap();
    assert_eq!(by_name(&out)["a"], FieldValue::Bool(true));
}

#[test]
fn default_components_are_zero() {
    let mut pool = Pool::default();
    let registry = registry_with(
        &mut pool,
        &[("a", LuauFieldType::Bool), ("n", LuauFieldType::Number), ("s", LuauFieldType::String)],
        false,
    );
    let data = DynamicComponentBridge::insert_default(7, &registry);
    assert_eq!(data, vec![0u8; 24]);
    assert!(!can_extract(&data, 7, &registry, &pool));
}

#[test]
fn numbers_are_stored_as_the_machine_keeps_them() {
    let mut pool = Pool::default();
    let registry = registry_with(
        &mut pool,
        &[("n", LuauFieldType::Integer), ("x", LuauFieldType::Number)],
        false,
    );
    let values = table(&[
        ("n", LuaValue::Integer(-3)),
        ("x", LuaValue::Number(0.1f64.to_bits())),
    ]);
    let data =
        DynamicComponentBridge::insert_from_table(7, &registry, &mut pool, reader(&values), make)
            .unwrap();
    assert_eq!(registry.order, native_order());
    assert_eq!(native_order(), order_of_one(1u16.to_ne_bytes()));
    assert_eq!(data[0..8], (-3i64).to_ne_bytes());
    assert_eq!(data[8..16], 0.1f64.to_ne_bytes());
}

#[test]
fn both_byte_orders_round_trip() {
    assert_eq!(order_of_one([1, 0]), ByteOrder::Little);
    assert_eq!(order_of_one([0, 1]), ByteOrder::Big);
    let mut data = vec![0u8; 12];
    put_u64(&mut data, 2, 0x0102_0304_0506_0708, ByteOrder::Big);
    assert_eq!(data, vec![0, 0, 1, 2, 3, 4, 5, 6, 7, 8, 0, 0]);
    assert_eq!(get_u64(&data, 2, ByteOrder::Big), 0x0102_0304_0506_0708);
    assert_eq!(get_u64(&data, 2, ByteOrder::Little), 0x0807_0605_0403_0201);
    put_u32(&mut data, 0, 0x0a0b_0c0d, ByteOrder::Little);
    assert_eq!(data[0..4], [0x0d, 0x0c, 0x0b, 0x0a]);
    assert_eq!(get_u32(&data, 0, ByteOrder::Little), 0x0a0b_0c0d);
    assert_eq!(get_u32(&data, 0, ByteOrder::Big), 0x0d0c_0b0a);
}

#[test]
fn empty_tables_make_default_components() {
    let mut pool = Pool::default();
    let registry = registry_with(
        &mut pool,
        &[("a", LuauFieldType::Bool), ("s", LuauFieldType::String)],
        false,
    );
    let data = DynamicComponentBridge::insert_from_table(
        7,
        &registry,
        &mut pool,
        reader(&table(&[])),
        make,
    )
    .unwrap();
    assert_eq!(data, DynamicComponentBridge::insert_default(7, &registry));
}

#[test]
fn equal_values_and_unedited_tables_make_equal_components() {
    let mut pool = Pool::default();
    let registry = registry_with(
        &mut pool,
        &[("n", LuauFieldType::Integer), ("s", LuauFieldType::String)],
        false,
    );
    let values = table(&[
        ("n", LuaValue::Integer(5)),
        ("s", LuaValue::String(b"text".to_vec())),
    ]);
    let more = table(&[
        ("n", LuaValue::Integer(5)),
        ("s", LuaValue::String(b"text".to_vec())),
        ("other", LuaValue::Boolean(true)),
    ]);
    let first =
        DynamicComponentBridge::insert_from_table(7, &registry, &mut pool, reader(&values), make)
            .unwrap();
    let second =
        DynamicComponentBridge::insert_from_table(7, &registry, &mut pool, reader(&more), make)
            .unwrap();
    assert_eq!(first, second);

    let unedited: HashMap<String, LuaValue> = {
        let out =
            DynamicComponentBridge::extract_to_table(Some(&first), 7, &registry, &pool).unwrap();
        out.iter()
            .map(|e| {
                let value = match &e.value {
                    FieldValue::Integer(i) => LuaValue::Integer(*i),
                    FieldValue::String(s) => LuaValue::String(s.as_bytes().to_vec()),
                    _ => LuaValue::Nil,
                };
                (e.key.clone(), value)
            })
            .collect()
    };
    let third =
        DynamicComponentBridge::insert_from_table(7, &registry, &mut pool, reader(&unedited), make)
            .unwrap();
    assert_eq!(third, first);
}

#[test]
fn stored_strings_get_handles_in_a_pool_with_gaps() {
    let mut pool = Pool::default();
    let registry = registry_with(&mut pool, &[("s", LuauFieldType::String)], false);
    pool.register_string(|_: &str| -> Result<String, ()> { Err(()) }, "gap").unwrap_err();
    let values = table(&[("s", LuaValue::String(b"gap".to_vec()))]);
    let data =
        DynamicComponentBridge::insert_from_table(7, &registry, &mut pool, reader(&values), make)
            .unwrap();
    assert!(can_extract(&data, 7, &registry, &pool));
    let out = DynamicComponentBridge::extract_to_table(Some(&data), 7, &registry, &pool).unwrap();
    assert_eq!(by_name(&out)["s"], FieldValue::String(&"gap".to_string()));
}

#[test]
fn layouts_are_those_of_the_stored_types() {
    let same = |ft: LuauFieldType, std: StdLayout| {
        let layout = ft.layout();
        assert_eq!((layout.size, layout.align), (std.size(), std.align()));
    };
    same(LuauFieldType::Bool, StdLayout::new::<bool>());
    same(LuauFieldType::Integer, StdLayout::new::<i64>());
    same(LuauFieldType::Number, StdLayout::new::<f64>());
    same(LuauFieldType::Vector4, StdLayout::new::<[f32; 4]>());
    same(LuauFieldType::String, StdLayout::new::<lasso::Spur>());
    same(LuauFieldType::Buffer(13), StdLayout::array::<u8>(13).unwrap());
}

#[test]
fn offsets_round_up() {
    assert_eq!(align_up(5, 4), 8);
    assert_eq!(align_up(8, 4), 8);
    assert_eq!(align_up(0, 8), 0);
    assert_eq!(align_up(17, 1), 17);
}

#[test]
fn schemas_lay_fields_out_in_order() {
    let a = StrKey { raw: 1 };
    let b = StrKey { raw: 2 };
    let c = StrKey { raw: 3 };
    let fields =
        vec![(a, LuauFieldType::Bool), (b, LuauFieldType::Integer), (c, LuauFieldType::Buffer(3))];
    let (schema, descriptor) = SchemaRegistry::build("Thing".to_string(), &fields);
    assert_eq!(schema.name, "Thing");
    assert_eq!(schema.fields[&1], (0, LuauFieldType::Bool));
    assert_eq!(schema.fields[&2], (8, LuauFieldType::Integer));
    assert_eq!(schema.fields[&3], (16, LuauFieldType::Buffer(3)));
    assert_eq!(schema.layout, Layout { size: 24, align: 8 });
    assert_eq!(descriptor.layout, schema.layout);
    assert_eq!(descriptor.storage_type, StorageType::Table);
    assert_eq!(descriptor.clone_behavior, ComponentCloneBehavior::Ignore);
    assert!(descriptor.mutable);
}

#[test]
fn empty_components_take_one_byte() {
    let (schema, _) = SchemaRegistry::build("Empty".to_string(), &[]);
    assert_eq!(schema.layout, Layout { size: 1, align: 1 });
}

#[test]
fn oversized_components_do_not_fit() {
    let key = StrKey { raw: 1 };
    let limit = isize::MAX as usize;
    assert!(!SchemaRegistry::layout_fits(&[(key, LuauFieldType::Buffer(limit + 1))]));
    assert!(SchemaRegistry::layout_fits(&[(key, LuauFieldType::Buffer(limit))]));
    assert!(!SchemaRegistry::layout_fits(&[
        (key, LuauFieldType::Buffer(limit)),
        (key, LuauFieldType::Bool),
    ]));
    assert!(!SchemaRegistry::layout_fits(&[
        (key, LuauFieldType::Integer),
        (key, LuauFieldType::Buffer(limit - 8)),
    ]));
}

#[test]
fn schemas_are_found_by_name_and_number() {
    let mut registry = SchemaRegistry::default();
    let (first, _) = SchemaRegistry::build("A".to_string(), &[]);
    let (second, _) = SchemaRegistry::build("B".to_string(), &[]);
    registry.insert(4, first);
    registry.insert(5, second);
    assert_eq!(registry.name_to_id.get("A"), Some(&4));
    assert_eq!(registry.name_to_id.get("B"), Some(&5));
    assert_eq!(registry.id_to_schema[&5].name, "B");
    assert!(registry.resource_ids.is_empty());
}

#[test]
fn resources_start_at_zero_and_keep_what_is_written() {
    let mut pool = Pool::default();
    let mut registry = registry_with(
        &mut pool,
        &[
            ("on", LuauFieldType::Bool),
            ("n", LuauFieldType::Integer),
            ("x", LuauFieldType::Number),
            ("v", LuauFieldType::Vector4),
            ("b", LuauFieldType::Buffer(2)),
        ],
        true,
    );
    assert!(registry.resource_ids.contains(&7));
    assert_eq!(registry.resource_data[&7], vec![0u8; 48]);
    let values = table(&[
        ("on", LuaValue::Boolean(true)),
        ("n", LuaValue::Integer(i64::MIN)),
        ("x", LuaValue::Number(2.5f64.to_bits())),
        ("v", LuaValue::Vector(1, 2, 3, 4)),
        ("b", LuaValue::Buffer(vec![1, 2])),
    ]);
    writeback_resource_table(&mut registry, &pool, 7, reader(&values)).unwrap();
    let entries = extract_resource_table(&registry, &pool, 7).unwrap();
    let out = by_name(&entries);
    assert_eq!(out["on"], FieldValue::Bool(true));
    assert_eq!(out["n"], FieldValue::Integer(i64::MIN));
    assert_eq!(out["x"], FieldValue::Number(2.5f64.to_bits()));
    assert_eq!(out["v"], FieldValue::Vector4(1, 2, 3, 4));
    assert_eq!(out["b"], FieldValue::Buffer(vec![0, 0]));
}

#[test]
fn writing_back_what_was_read_changes_nothing() {
    let mut pool = Pool::default();
    let mut registry =
        registry_with(&mut pool, &[("n", LuauFieldType::Integer), ("s", LuauFieldType::String)], true);
    let key = pool.intern(make, "text");
    let mut data = vec![0u8; 16];
    data[0..8].copy_from_slice(&3i64.to_ne_bytes());
    data[8..12].copy_from_slice(&key.raw.to_ne_bytes());
    registry.resource_data.insert(7, data.clone());
    let values =
        table(&[("n", LuaValue::Integer(3)), ("s", LuaValue::String(b"other".to_vec()))]);
    writeback_resource_table(&mut registry, &pool, 7, reader(&values)).unwrap();
    assert_eq!(registry.resource_data[&7], data);
}

#[test]
fn missing_resources_are_left_alone() {
    let mut pool = Pool::default();
    let mut registry = registry_with(&mut pool, &[("n", LuauFieldType::Integer)], false);
    let values = table(&[("n", LuaValue::Integer(3))]);
    assert!(extract_resource_table(&registry, &pool, 7).is_none());
    assert!(extract_resource_table(&registry, &pool, 8).is_none());
    assert_eq!(writeback_resource_table(&mut registry, &pool, 7, reader(&values)), Ok(()));
    assert_eq!(writeback_resource_table(&mut registry, &pool, 8, reader(&values)), Ok(()));
    assert!(registry.resource_data.is_empty());
}

#[test]
fn failing_write_back_is_an_error() {
    let mut pool = Pool::default();
    let mut registry = registry_with(&mut pool, &[("n", LuauFieldType::Integer)], true);
    let failing = |_: &String| -> Result<LuaValue, String> { Err("broken".to_string()) };
    assert_eq!(
        writeback_resource_table(&mut registry, &pool, 7, failing),
        Err("broken".to_string())
    );
    assert_eq!(registry.resource_data[&7], vec![0u8; 8]);
}

#[test]
fn interning_is_stable_and_unique() {
    let mut pool = Pool::default();
    let a = pool.intern(make, "a");
    let b = pool.intern(make, "b");
    let again = pool.intern(|_: &str| -> String { panic!("handle is known") }, "a");
    assert_eq!(a, StrKey { raw: 1 });
    assert_eq!(b, StrKey { raw: 2 });
    assert_eq!(again, a);
    assert_eq!(pool.get_lua_str(a), "a");
    assert_eq!(pool.get_lua_str(b), "b");
    assert_eq!(pool.rodeo.len(), 2);
}
