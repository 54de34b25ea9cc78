//! A client-side record layer and handshake framer for a TLS-family
//! secure transport: bounds-checked wire-format parsing and encoding
//! inside fixed-capacity buffers, with a running transcript hash folded
//! over every handshake message.

pub mod application_data;
pub mod buffer;
pub mod change_cipher_spec;
pub mod client_hello;
pub mod content_types;
pub mod digest;
pub mod encrypted_extensions;
pub mod error;
pub mod extensions;
pub mod finished;
pub mod handshake;
pub mod parse_buffer;
pub mod record;
pub mod server_hello;
pub mod socket;
pub mod wire;
