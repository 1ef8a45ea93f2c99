pub mod pragma;
pub mod encode;
pub mod error;
pub mod packet;
pub mod script;
pub mod text;
pub mod vars;
pub mod roundtrip;
pub mod codec_roundtrip;
pub mod transpile;
pub mod script_transpile;
