//! The control-surface layer of a spectral compressor plugin: the rules by
//! which an editor is derived from a typed tree of parameters and kept in
//! step with the parameter store that the audio engine shares with it.
//!
//! - [`param`] describes one parameter: its identifier, name and kind.
//! - [`store`] is the editor's snapshot of the store, read and written
//!   through one accessor.
//! - [`tree`] groups the parameters of the store for display.
//! - [`placement`] builds a tree from the groups that the store names.
//! - [`dispatch`] chooses the control that edits a parameter and says how
//!   the control answers a gesture.
//! - [`display`] writes the value that a control shows as text.
//! - [`hook`] lets a group label its parameters in its own way.
//! - [`layout`] arranges groups in rows of fixed-width columns.
//! - [`binding`] keeps track of which node shows which parameter and of
//!   what has to be drawn again.
//! - [`window`] holds the size of the editor window and its persisted form.
//! - [`editor`] puts these together for the editor of this plugin.

pub mod binding;
pub mod dispatch;
pub mod display;
pub mod editor;
pub mod hook;
pub mod layout;
pub mod param;
pub mod placement;
pub mod store;
pub mod tree;
pub mod window;
