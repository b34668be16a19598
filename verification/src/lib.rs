//! Rules engine for a game of draughts on an 8x8 board: squares and diagonals,
//! pieces, moves, legal-move derivation with mandatory capture, capture chains
//! of maximum length, promotion and turn keeping.

pub mod cadeias;
pub mod coord;
pub mod desenho;
pub mod jogada;
pub mod jogo;
pub mod leis;
pub mod peca;
pub mod regras;
pub mod seqs;
pub mod unicidade;
