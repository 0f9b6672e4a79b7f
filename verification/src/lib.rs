pub mod address;
pub mod bits;
pub mod checksum;
pub mod ascii;
pub mod hash;
pub mod hexcode;
pub mod script;
pub mod serialize;
pub mod tx;
pub mod secp;
pub mod script_interpreter;
pub mod outputs;
pub mod incomplete_tx;
pub mod wallet;
pub mod trade;
pub mod message_error;
pub mod message_header;
pub mod message;
pub mod version_message;
