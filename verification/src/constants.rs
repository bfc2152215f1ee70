pub mod board_constants;
pub mod directions;
pub mod eveluation_constants;
pub mod squares;
