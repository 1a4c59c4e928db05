pub mod apdu;
pub mod bvlc;
pub mod npdu;
pub mod object_type;
pub mod types;
pub mod wire;
