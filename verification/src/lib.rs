//! Verified state and decision logic of the training-metrics viewer: Run
//! identities, filters and selections, per-panel read coordination, the
//! background request queue, curve-query decisions, the inspector table,
//! the project sidebar and Metric picker, text fields, screen budgets and
//! the texts formatted from integers.

pub mod budget;
pub mod text;
pub mod ids;
pub mod runs;
pub mod selection;
pub mod model;
pub mod coordination;
pub mod queue;
pub mod gate;
pub mod format;
pub mod inspector;
pub mod table_keys;
pub mod inspector_table;
pub mod assets;
pub mod cursor;
pub mod editing;
pub mod sidebar;
pub mod picker;
pub mod tracks;
pub mod curves;
