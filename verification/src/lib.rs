//! Bit-level reading of demo streams and the actor and end-of-match logic of
//! the second parsing pass.
pub mod bitstream;
pub mod bit_source;
pub mod varint;
pub mod read_bits;
pub mod text;
pub mod parser_state;
pub mod actors;
pub mod other_netmessages;
