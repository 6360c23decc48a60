pub mod codec;
pub mod feedback;
pub mod game;
pub mod partition;
pub mod select;
pub mod word;
