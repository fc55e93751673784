//! Runtime and binary image of the Kaiju language: a byte-addressed memory
//! with a stack and a free-list heap, the big-endian assembly image with its
//! decoder and encoder, the interpreter that runs an image against a
//! host-supplied operation processor, and the passes that a program goes
//! through on its way from the syntax tree to the encoder.

pub mod error;
pub mod wire;
pub mod names;
pub mod image;
pub mod freelist;
pub mod state;
pub mod atom;
pub mod program;
pub mod ast;
pub mod convert;
pub mod auto_types;
pub mod copy;
pub mod resolve;
pub mod checks;
pub mod validator;
pub mod layout;
pub mod assembly;
pub mod link;
pub mod emit;
pub mod consts;
pub mod opnames;
pub mod types;
pub mod lower;
pub mod encode;
pub mod roundtrip;
pub mod roundtrip_data;
pub mod roundtrip_image;
pub mod balance;
pub mod zero_text;
pub mod processor;
pub mod machine;
pub mod vm;
pub mod cstring;
pub mod embed;
pub mod render;
