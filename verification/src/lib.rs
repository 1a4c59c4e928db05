pub mod codec;
pub mod enums;
pub mod services;
pub mod stack;
pub mod text;

pub use enums::PropertyIdentifier;
