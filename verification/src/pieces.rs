pub mod bishop;
pub mod distinct;
pub mod generation_laws;
pub mod helper_functions;
pub mod king;
pub mod knight;
pub mod laws;
pub mod mask_counts;
pub mod move_bits;
pub mod names;
pub mod pawn;
pub mod pieces_controller;
pub mod pieces_structs;
pub mod position_laws;
pub mod queen;
pub mod rook;
pub mod rules;
pub mod sight;
pub mod tables;
