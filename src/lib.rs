//! Symbol minification for WebAssembly modules and their JavaScript glue.
pub mod api;
pub mod driver;
pub mod glue;
pub mod ident;
pub mod js;
pub mod mapping;
pub mod model;
pub mod symbol;
pub mod tables;
pub mod text;
pub mod wasm;
