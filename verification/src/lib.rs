//! Verified core of a Luau scripting layer for an entity component system: components that scripts
//! declare, the tables that stand for them in scripts, and the order in which scripts run and
//! their commands are carried out.

pub mod bridge;
pub mod bytes;
pub mod commands;
pub mod entity;
pub mod layout;
pub mod load;
pub mod luau_ir;
pub mod pool;
pub mod resource;
pub mod run;
pub mod runtime;
pub mod schema;
pub mod snapshot;
pub mod staging;
pub mod text;
pub mod value;

pub use bridge::DynamicComponentBridge;
pub use layout::LuauFieldType;
pub use pool::EngineStringPool;
pub use runtime::{
    LuaObserverDescriptor, LuaParam, LuaSystemDescriptor, LuaTime, ResolvedQuery, ScriptingRuntime,
};
pub use schema::{DynamicComponentSchema, SchemaRegistry};
pub use staging::LuaSchedule;
