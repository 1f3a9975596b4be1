//! Syntactic path arithmetic: normalizing paths, making them absolute and
//! finding the path from one place to another, for POSIX and Windows
//! conventions alike and without touching the file system.
//!
//! A path is a text. [`tokenize`] splits it into [`Component`]s, the
//! normalizer ([`to_normalized_components`]) drops `.` and resolves `..`,
//! and the renderer ([`component_vec_to_path_buf`]) writes components back
//! as text. [`Platform`] names the conventions to follow and offers the
//! operations on texts: `normalize`, `absolutize_with`, `relative`,
//! `to_slash`. The traits [`SugarPath`] and [`SugarPathBuf`] offer the same
//! as methods of `str` and `String`, under the conventions of the host.
//!
//! Every operation is specified by a spec function over character
//! sequences, and [`laws`] states and proves what holds of them in general:
//! that normalizing is idempotent, that the path from a place to another
//! leads there, and more.
//!
//! The library never asks for the working directory: operations that need
//! one take it as an argument.

pub mod absolutize;
pub mod component;
pub mod laws;
pub mod normalize;
pub mod platform;
pub mod relative;
pub mod render;
pub mod roundtrip;
pub mod shape;
pub mod slash;
pub mod splitting;
pub mod sugar_path;
pub mod text;
pub mod tokenize;

pub use component::{Component, ComponentVec, Segment};
pub use normalize::to_normalized_components;
pub use platform::Platform;
pub use render::component_vec_to_path_buf;
pub use slash::replace_main_separator;
pub use sugar_path::{AsPath, IntoCowPath, SugarPath, SugarPathBuf};
pub use tokenize::tokenize;
