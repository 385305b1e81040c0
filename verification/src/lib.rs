//! Chess training-data library: a bit-packed move codec, a length-prefixed
//! game-record codec, a PGN header/move visitor, a position feature encoder,
//! a compressed training-data file codec, and a batch loader.

pub mod bytes;
pub mod decimal;
pub mod engine;
pub mod errors;
pub mod features;
pub mod game;
pub mod gamedb;
pub mod loader;
pub mod moves;
pub mod pgn;
pub mod recordcodec;
pub mod traindata;

pub use game::Game;
pub use game::Outcome;
pub use gamedb::Decoder;
pub use gamedb::Encoder;
pub use gamedb::RawGameIter;
pub use loader::TrainDataLoader;
pub use moves::Move;
pub use moves::Role;
pub use pgn::PgnVisitor;
pub use traindata::TrainData;
