//! Process-monitor core: the process table (filtering, tree and flat
//! layouts, search), the keyboard/mouse state machine, metric history and
//! the text that the terminal front end draws.

pub mod text;
pub mod signals;
pub mod ordering;
pub mod process;
pub mod rows;
pub mod monitor;
pub mod metrics;
pub mod layout;
pub mod view;
pub mod tree_laws;
