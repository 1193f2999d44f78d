//! Bridge between an ECS world and a scene-graph engine runtime: a registry of
//! reusable integer handles for engine objects, the class-hierarchy dispatch
//! table that decides which marker components a discovered node receives, and
//! the reader for component lists authored in the engine's editor.

// Handles and per-object tables.
pub mod preregister;
pub mod tracker;

// Building the dispatch table from the engine's class list.
pub mod class_data;
pub mod codegen;
pub mod hash_script;
pub mod naming;
pub mod special_cases;

// What happens to a node at runtime.
pub mod editor_components;
pub mod field;
pub mod node_dispatch;
pub mod schedules;

// Text helpers.
pub mod decimal;
pub mod text;
