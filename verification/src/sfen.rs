use vstd::prelude::*;
use crate::types::Color;

verus! {

/// The position at the start of a game.
pub const START_SFEN: &'static str = "lnsgkgsnl/1r5b1/ppppppppp/9/9/9/PPPPPPPPP/1B5R1/LNSGKGSNL b - 1";

/// Why an SFEN string does not describe a position.
#[derive(Debug, Clone, PartialEq, Eq)]
pub enum SfenError {
    InvalidNumberOfSections { sections: usize },
    InvalidNumberOfFiles { files: usize },
    InvalidNumberOfRanks { ranks: usize },
    InvalidNumberOfEmptySquares { empty_squares: i64 },
    InvalidPieceCharactors { token: String },
    InvalidHandPieceCharactors { token: String },
    InvalidNumberOfHandPieces { number: i64 },
    EndWithHandPieceNumber { last_number: i64 },
    InvalidNumberOfPawns { number: i64 },
    InvalidNumberOfLances { number: i64 },
    InvalidNumberOfKnights { number: i64 },
    InvalidNumberOfSilvers { number: i64 },
    InvalidNumberOfGolds { number: i64 },
    InvalidNumberOfBishops { number: i64 },
    InvalidNumberOfRooks { number: i64 },
    InvalidSideToMoveCharactors { chars: String },
    InvalidGamePly { chars: String },
    SameHandPieceTwice { token: String },
    KingIsNothing { c: Color },
}

/// The reasons of `SfenError` as mathematical values: the offending text as characters. The
/// last one, a king named among the pieces in hand, is the input that parsing does not accept.
pub enum SfenFault {
    InvalidNumberOfSections(int),
    InvalidNumberOfFiles(int),
    InvalidNumberOfRanks(int),
    InvalidNumberOfEmptySquares(int),
    InvalidPieceCharactors(Seq<char>),
    InvalidHandPieceCharactors(Seq<char>),
    InvalidNumberOfHandPieces(int),
    EndWithHandPieceNumber(int),
    InvalidNumberOfPawns(int),
    InvalidNumberOfLances(int),
    InvalidNumberOfKnights(int),
    InvalidNumberOfSilvers(int),
    InvalidNumberOfGolds(int),
    InvalidNumberOfBishops(int),
    InvalidNumberOfRooks(int),
    InvalidSideToMoveCharactors(Seq<char>),
    InvalidGamePly(Seq<char>),
    SameHandPieceTwice(Seq<char>),
    KingIsNothing(Color),
    KingInHand,
}

impl SfenError {
    /// The reason as a mathematical value.
    pub open spec fn fault(&self) -> SfenFault {
        match self {
            SfenError::InvalidNumberOfSections { sections } => SfenFault::InvalidNumberOfSections(*sections as int),
            SfenError::InvalidNumberOfFiles { files } => SfenFault::InvalidNumberOfFiles(*files as int),
            SfenError::InvalidNumberOfRanks { ranks } => SfenFault::InvalidNumberOfRanks(*ranks as int),
            SfenError::InvalidNumberOfEmptySquares { empty_squares } => SfenFault::InvalidNumberOfEmptySquares(*empty_squares as int),
            SfenError::InvalidPieceCharactors { token } => SfenFault::InvalidPieceCharactors(token@),
            SfenError::InvalidHandPieceCharactors { token } => SfenFault::InvalidHandPieceCharactors(token@),
            SfenError::InvalidNumberOfHandPieces { number } => SfenFault::InvalidNumberOfHandPieces(*number as int),
            SfenError::EndWithHandPieceNumber { last_number } => SfenFault::EndWithHandPieceNumber(*last_number as int),
            SfenError::InvalidNumberOfPawns { number } => SfenFault::InvalidNumberOfPawns(*number as int),
            SfenError::InvalidNumberOfLances { number } => SfenFault::InvalidNumberOfLances(*number as int),
            SfenError::InvalidNumberOfKnights { number } => SfenFault::InvalidNumberOfKnights(*number as int),
            SfenError::InvalidNumberOfSilvers { number } => SfenFault::InvalidNumberOfSilvers(*number as int),
            SfenError::InvalidNumberOfGolds { number } => SfenFault::InvalidNumberOfGolds(*number as int),
            SfenError::InvalidNumberOfBishops { number } => SfenFault::InvalidNumberOfBishops(*number as int),
            SfenError::InvalidNumberOfRooks { number } => SfenFault::InvalidNumberOfRooks(*number as int),
            SfenError::InvalidSideToMoveCharactors { chars } => SfenFault::InvalidSideToMoveCharactors(chars@),
            SfenError::InvalidGamePly { chars } => SfenFault::InvalidGamePly(chars@),
            SfenError::SameHandPieceTwice { token } => SfenFault::SameHandPieceTwice(token@),
            SfenError::KingIsNothing { c } => SfenFault::KingIsNothing(*c),
        }
    }
}

} // verus!
