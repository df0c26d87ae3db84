//! Runtime-code synthesis for a JavaScript module bundler.
//!
//! A bundle needs small bootstrap snippets at execution time: "what is the
//! entry file called", "what is the build's content hash", and so on.  This
//! crate models the machinery that emits those snippets: named runtime
//! capability flags, a filename-template resolver that can defer values to
//! execution time, the runtime-module abstraction with its attach/generate
//! lifecycle, and the emitter that deduplicates and concatenates the
//! generated fragments for one chunk.
#![verifier::loop_isolation(false)]

pub mod chunk;
pub mod deferral;
pub mod emitter;
pub mod get_main_filename;
pub mod globals;
pub mod module;
pub mod template;
