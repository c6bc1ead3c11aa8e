//! Logic gate circuits laid out on a grid: gates, wires, the graph that holds
//! them, the order in which it is evaluated and one tick of evaluation, plus the
//! small text formats used to name and reference them.
pub mod rich_text;
pub mod ser;
pub mod tab;
pub mod term;
pub mod theme;
pub mod text;
pub mod tool;
pub mod toolpane;
pub mod color_text;
pub mod console;
pub mod controls;
pub mod gate;
pub mod icons;
pub mod ids;
pub mod input;
pub mod ivec;
pub mod graph;
pub mod properties;
