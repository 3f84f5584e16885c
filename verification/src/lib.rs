//! `devix_core` — the verified model of the devix editor engine:
//! layout geometry and scroll math, the structural layout tree, the
//! focus chain, the command registry, key chords, and the small pieces
//! of namespace-path encoding the editor hands around.

pub mod geom;
pub mod input;
pub mod widgets;
pub mod text;
pub mod paths;
pub mod pane;
pub mod plugin;
pub mod settings;
pub mod supervise;
pub mod theme_store;
pub mod editor;
pub mod bus;
pub mod commands;
