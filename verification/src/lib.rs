pub mod piecevalue;
pub mod strings;
pub mod types;
pub mod hand;
pub mod bitboard;
pub mod movetypes;
pub mod huffman_code;
pub mod movepick;
pub mod search;
pub mod thread;
pub mod timeman;
pub mod sfen;
pub mod usioption;
pub mod tt;
pub mod position;
pub mod kppt;
