pub mod moves;
pub mod piece;

pub use moves::MoveChecker;
pub use piece::Id;
pub use piece::Piece;
