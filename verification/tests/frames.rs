use std::alloc::Layout as StdLayout;
use std::collections::HashMap;

use bevy_luau::luau_ir::{
    FrameEntry, FrameValue, LuauFieldType, LuauFrameIr, LuauFrameIrLayout, LuauScriptContext,
};
use bevy_luau::pool::StrKey;
use bevy_luau::value::LuaValue;
use bevy_luau::EngineStringPool;

type Pool = EngineStringPool<String>;

fn make(s: &str) -> Result<String, String> {
    Ok(s.to_string())
}

fn to_number(i: i64) -> u64 {
    (i as f64).to_bits()
}

fn store(set: &[FrameEntry<'_, String>]) -> HashMap<String, LuaValue> {
    set.iter()
        .map(|e| {
            let value = match &e.value {
                FrameValue::Number(n) => LuaValue::Number(*n),
                FrameValue::String(s) => LuaValue::String(s.as_bytes().to_vec()),
            };
            (e.key.clone(), value)
        })
        .collect()
}

fn reader(values: HashMap<String, LuaValue>) -> impl Fn(&String) -> Result<LuaValue, String> {
    move |key: &String| Ok(values.get(key).cloned().unwrap_or(LuaValue::Nil))
}

#[test]
fn strings_are_registered_once() {
    let mut pool = Pool::default();
    let a = pool.register_string(make, "a").unwrap();
    let again = pool.register_string(|_: &str| Err("not called".to_string()), "a");
    assert_eq!(a, StrKey { raw: 1 });
    assert_eq!(again, Ok(a));
    assert_eq!(pool.lua_str(a), "a");
}

#[test]
fn failed_handles_leave_the_string_interned() {
    let mut pool = Pool::default();
    let failed = pool.register_string(|_: &str| Err("no memory".to_string()), "a");
    assert_eq!(failed, Err("no memory".to_string()));
    assert_eq!(pool.spur_from_lua_str(&b"a".to_vec()), Some(StrKey { raw: 1 }));
    assert!(pool.bridge.is_empty());
    assert_eq!(pool.register_string(make, "a"), Ok(StrKey { raw: 1 }));
}

#[test]
fn only_interned_text_has_a_key() {
    let mut pool = Pool::default();
    let b = pool.register_string(make, "b").unwrap();
    assert_eq!(pool.spur_from_lua_str(&b"b".to_vec()), Some(b));
    assert_eq!(pool.spur_from_lua_str(&b"c".to_vec()), None);
    assert_eq!(pool.spur_from_lua_str(&vec![0xff]), None);
}

#[test]
fn frame_field_layouts_are_those_of_the_stored_types() {
    let same = |ft: LuauFieldType, std: StdLayout| {
        let layout = ft.layout();
        assert_eq!((layout.size, layout.align), (std.size(), std.align()));
    };
    same(LuauFieldType::Bool, StdLayout::new::<bool>());
    same(LuauFieldType::Integer, StdLayout::new::<i64>());
    same(LuauFieldType::Number, StdLayout::new::<f64>());
    same(LuauFieldType::LuauInt, StdLayout::new::<i64>());
    same(LuauFieldType::Vector3, StdLayout::new::<[f32; 3]>());
    same(LuauFieldType::Vector4, StdLayout::new::<[f32; 4]>());
    same(LuauFieldType::String, StdLayout::new::<lasso::Spur>());
    same(LuauFieldType::Buffer(13), StdLayout::array::<u8>(13).unwrap());
}

#[test]
fn frames_keep_more_entries_than_fit_in_place() {
    let entries: Vec<(StrKey, LuauFrameIr)> =
        (1..=20).map(|i| (StrKey { raw: i }, LuauFrameIr::Number(i as u64 * 3))).collect();
    let frame = LuauFrameIrLayout::from_entries(&entries);
    assert_eq!(frame.entries(), entries.as_slice());
}

#[test]
fn frames_round_trip() {
    let mut pool = Pool::default();
    let speed = pool.register_string(make, "speed").unwrap();
    let state = pool.register_string(make, "state").unwrap();
    let idle = pool.register_string(make, "idle").unwrap();
    let entries = vec![
        (speed, LuauFrameIr::Number(1.5f64.to_bits())),
        (state, LuauFrameIr::String(idle)),
    ];
    let frame = LuauFrameIrLayout::from_entries(&entries);
    assert!(frame.can_write(&pool));
    let table = reader(store(&frame.write_to_table(&pool)));
    let back =
        LuauFrameIrLayout::read_from_table(&table, &[speed, state], &pool, &to_number).unwrap();
    assert_eq!(back.entries(), entries.as_slice());
}

#[test]
fn reading_keeps_numbers_and_interned_strings() {
    let mut pool = Pool::default();
    let keys: Vec<StrKey> = ["a", "b", "c", "d", "e"]
        .iter()
        .map(|s| pool.register_string(make, s).unwrap())
        .collect();
    let values = HashMap::from([
        ("a".to_string(), LuaValue::Integer(-3)),
        ("b".to_string(), LuaValue::String(b"unknown".to_vec())),
        ("c".to_string(), LuaValue::Boolean(true)),
        ("d".to_string(), LuaValue::String(b"e".to_vec())),
    ]);
    let frame =
        LuauFrameIrLayout::read_from_table(&reader(values), &keys, &pool, &to_number).unwrap();
    assert_eq!(
        frame.entries(),
        &[
            (keys[0], LuauFrameIr::Number((-3.0f64).to_bits())),
            (keys[3], LuauFrameIr::String(keys[4])),
        ]
    );
}

#[test]
fn frames_without_handles_are_noticed() {
    let mut pool = Pool::default();
    let known = pool.register_string(make, "known").unwrap();
    let stray = StrKey { raw: 9 };
    let by_key = LuauFrameIrLayout::from_entries(&vec![(stray, LuauFrameIr::Number(0))]);
    let by_value = LuauFrameIrLayout::from_entries(&vec![(known, LuauFrameIr::String(stray))]);
    assert!(!by_key.can_write(&pool));
    assert!(!by_value.can_write(&pool));
}

#[test]
fn contexts_call_with_a_frame_and_read_one() {
    let mut pool = Pool::default();
    let x = pool.register_string(make, "x").unwrap();
    let y = pool.register_string(make, "y").unwrap();
    let mut context = LuauScriptContext::new("table", "func");
    assert!(context.output_schema.is_empty());
    context.output_schema.push(y);
    let input = LuauFrameIrLayout::from_entries(&vec![(x, LuauFrameIr::Number(2.0f64.to_bits()))]);
    assert!(input.can_write(&pool));
    assert!(LuauFrameIrLayout::can_read(&context.output_schema, &pool));
    let output = context
        .call(
            &input,
            &pool,
            |table: &&str, func: &&str, set: Vec<FrameEntry<'_, String>>| {
                assert_eq!((*table, *func), ("table", "func"));
                assert_eq!(store(&set)["x"], LuaValue::Number(2.0f64.to_bits()));
                Ok(reader(HashMap::from([("y".to_string(), LuaValue::Integer(4))])))
            },
            &to_number,
        )
        .unwrap();
    assert_eq!(output.entries(), &[(y, LuauFrameIr::Number(4.0f64.to_bits()))]);
}

#[test]
fn failing_calls_and_reads_are_errors() {
    let mut pool = Pool::default();
    let y = pool.register_string(make, "y").unwrap();
    let mut context = LuauScriptContext::new(0, 1);
    context.output_schema.push(y);
    let input = LuauFrameIrLayout::from_entries(&vec![]);
    type Reader = fn(&String) -> Result<LuaValue, String>;
    let failed = context.call(
        &input,
        &pool,
        |_: &i32, _: &i32, _: Vec<FrameEntry<'_, String>>| -> Result<Reader, String> {
            Err("script error".to_string())
        },
        &to_number,
    );
    assert_eq!(failed.err(), Some("script error".to_string()));
    let unread = context.call(
        &input,
        &pool,
        |_: &i32, _: &i32, _: Vec<FrameEntry<'_, String>>| -> Result<Reader, String> {
            Ok(|_: &String| Err("no value".to_string()))
        },
        &to_number,
    );
    assert_eq!(unread.err(), Some("no value".to_string()));
    context.output_schema.push(StrKey { raw: 7 });
    assert!(!LuauFrameIrLayout::can_read(&context.output_schema, &pool));
}
