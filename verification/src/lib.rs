//! Embeds an ordered list of key/value configuration entries into the memory
//! image of a prebuilt configuration-provider module, and makes the
//! component that serves them.
//!
//! The template is a compiled module that was built with an empty
//! configuration. Its code reads the configuration through a control block
//! at a fixed address. Embedding writes the entries in a fixed wire format
//! into space taken from the initial stack, and the number of entries and the
//! address of their data into the control block.
//!
//! - [`wire`]: the wire format of the entries.
//! - [`module`]: the parts of a module that the embedding reads and changes.
//! - [`layout`]: which data segment covers an address; taking space from the
//!   stack.
//! - [`embed`]: the embedding itself.
//! - [`config`]: the control block, and reading the entries through it as the
//!   code of the module does.
//! - [`metadata`]: the custom section that describes the interface.
//! - [`binary`]: from the bytes of a module to its parts and back.
//! - [`component`]: from a template and entries to the finished component.
//! - [`properties`]: entries given as `key=value` texts.
//! - [`error`]: the failures.
//! - [`text`]: comparing texts.
//! - [`outside`]: the types of other crates.

pub mod binary;
pub mod component;
pub mod config;
pub mod embed;
pub mod error;
pub mod layout;
pub mod metadata;
pub mod module;
pub mod outside;
pub mod properties;
pub mod text;
pub mod wire;
