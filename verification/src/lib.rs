//! A verified decoder for the WebAssembly binary module format.
//!
//! `binary::module::Module::new` turns a byte buffer into a `Module` or
//! into the first failure, with the place where it happened. Every
//! decoding function is paired with a model function over `Seq<u8>` and
//! is proved to return exactly what that function says, so what holds of
//! the models holds of the decoder: `binary::laws` states it.

pub mod binary;
