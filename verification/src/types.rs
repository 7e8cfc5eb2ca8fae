use vstd::prelude::*;
use crate::strings::{push_char, push_decimal};

verus! {

/// A type-level boolean.
pub trait Bool {
    const BOOL: bool;
}

/// The type-level `true`.
pub struct True;

/// The type-level `false`.
pub struct False;

impl Bool for True {
    const BOOL: bool = true;
}

impl Bool for False {
    const BOOL: bool = false;
}

/// The side to move: black (sente) moves first.
#[allow(non_camel_case_types)]
#[derive(Debug, Copy, Clone, PartialEq, Eq, Structural)]
pub enum Color {
    BLACK,
    WHITE,
}

impl Color {
    pub const NUM: usize = 2;
    pub const ALL: [Color; 2] = [Color::BLACK, Color::WHITE];
    pub const ALL_FROM_BLACK: [Color; 2] = [Color::BLACK, Color::WHITE];

    /// The number that this value stands for.
    pub open spec fn val(self) -> int {
        match self {
            Color::BLACK => 0,
            Color::WHITE => 1,
        }
    }

    /// The value whose number is `i` (meaningful on the numbers that `val` takes).
    pub open spec fn from_val(i: int) -> Color {
        if i == 0 { Color::BLACK } else
        { Color::WHITE }
    }

    pub broadcast proof fn lemma_from_val(x: Color)
        ensures #[trigger] Color::from_val(x.val()) == x,
    {
    }

    pub broadcast proof fn lemma_val_range(x: Color)
        ensures 0 <= #[trigger] x.val() && x.val() <= 1,
    {
    }

    /// The number that this value stands for.
    pub fn to_i32(self) -> (r: i32)
        ensures r == self.val(), 0 <= r <= 1,
    {
        match self {
            Color::BLACK => 0,
            Color::WHITE => 1,
        }
    }


    /// The other side.
    pub fn inverse(self) -> (r: Color)
        ensures r.val() == 1 - self.val(),
    {
        match self {
            Color::BLACK => Color::WHITE,
            Color::WHITE => Color::BLACK,
        }
    }

    /// The side that owns a piece (black for the empty square).
    pub fn new(pc: Piece) -> (r: Color)
        ensures r.val() == pc.val() / 16,
    {
        let x = pc.to_i32();
        let y = (x & Piece::WHITE_BIT) >> Piece::WHITE_BIT_SHIFT;
        assert(0 <= x < 31 ==> (x & 16) >> 4 == x / 16) by (bit_vector);
        if y == 0 { Color::BLACK } else { Color::WHITE }
    }

}

/// A file (column) of the board, numbered from the right as seen by black.
#[allow(non_camel_case_types)]
#[derive(Debug, Copy, Clone, PartialEq, Eq, Structural)]
pub enum File {
    FILE1,
    FILE2,
    FILE3,
    FILE4,
    FILE5,
    FILE6,
    FILE7,
    FILE8,
    FILE9,
}

/// The file with the given number (`0` is the first file).
#[allow(non_snake_case)]
pub fn File(i: i32) -> (r: File)
    requires 0 <= i < 9,
    ensures r.val() == i,
{
    match i {
        0 => File::FILE1,
        1 => File::FILE2,
        2 => File::FILE3,
        3 => File::FILE4,
        4 => File::FILE5,
        5 => File::FILE6,
        6 => File::FILE7,
        7 => File::FILE8,
        _ => File::FILE9,
    }
}

impl File {
    pub const NUM: usize = 9;
    pub const ALL_FROM_LEFT: [File; 9] = [File::FILE9, File::FILE8, File::FILE7, File::FILE6, File::FILE5, File::FILE4, File::FILE3, File::FILE2, File::FILE1];
    pub const ALL: [File; 9] = [File::FILE1, File::FILE2, File::FILE3, File::FILE4, File::FILE5, File::FILE6, File::FILE7, File::FILE8, File::FILE9];

    /// The number that this value stands for.
    pub open spec fn val(self) -> int {
        match self {
            File::FILE1 => 0,
            File::FILE2 => 1,
            File::FILE3 => 2,
            File::FILE4 => 3,
            File::FILE5 => 4,
            File::FILE6 => 5,
            File::FILE7 => 6,
            File::FILE8 => 7,
            File::FILE9 => 8,
        }
    }

    /// The value whose number is `i` (meaningful on the numbers that `val` takes).
    pub open spec fn from_val(i: int) -> File {
        if i == 0 { File::FILE1 } else
        if i == 1 { File::FILE2 } else
        if i == 2 { File::FILE3 } else
        if i == 3 { File::FILE4 } else
        if i == 4 { File::FILE5 } else
        if i == 5 { File::FILE6 } else
        if i == 6 { File::FILE7 } else
        if i == 7 { File::FILE8 } else
        { File::FILE9 }
    }

    pub broadcast proof fn lemma_from_val(x: File)
        ensures #[trigger] File::from_val(x.val()) == x,
    {
    }

    pub broadcast proof fn lemma_val_range(x: File)
        ensures 0 <= #[trigger] x.val() && x.val() <= 8,
    {
    }

    /// The number that this value stands for.
    pub fn to_i32(self) -> (r: i32)
        ensures r == self.val(), 0 <= r <= 8,
    {
        match self {
            File::FILE1 => 0,
            File::FILE2 => 1,
            File::FILE3 => 2,
            File::FILE4 => 3,
            File::FILE5 => 4,
            File::FILE6 => 5,
            File::FILE7 => 6,
            File::FILE8 => 7,
            File::FILE9 => 8,
        }
    }


    /// The file of a square.
    pub fn new(sq: Square) -> (r: File)
        ensures r.val() == sq.val() / 9,
    {
        File(sq.to_i32() / 9)
    }

    /// The file seen from the other side.
    pub fn inverse(self) -> (r: File)
        ensures r.val() == 8 - self.val(),
    {
        File(File::NUM as i32 - 1 - self.to_i32())
    }

    pub fn to_usi_char(self) -> (r: char)
        ensures r as int == '1' as int + self.val(),
    {
        match self {
            File::FILE1 => '1',
            File::FILE2 => '2',
            File::FILE3 => '3',
            File::FILE4 => '4',
            File::FILE5 => '5',
            File::FILE6 => '6',
            File::FILE7 => '7',
            File::FILE8 => '8',
            File::FILE9 => '9',
        }
    }

    pub fn new_from_usi_char(c: char) -> (r: Option<File>)
        ensures
            r is Some <==> '1' <= c <= '9',
            r matches Some(x) ==> x.val() == c as int - '1' as int,
    {
        match c {
            '1' => Some(File::FILE1),
            '2' => Some(File::FILE2),
            '3' => Some(File::FILE3),
            '4' => Some(File::FILE4),
            '5' => Some(File::FILE5),
            '6' => Some(File::FILE6),
            '7' => Some(File::FILE7),
            '8' => Some(File::FILE8),
            '9' => Some(File::FILE9),
            _ => None,
        }
    }

    pub fn to_csa_char(self) -> (r: char)
        ensures r as int == '1' as int + self.val(),
    {
        match self {
            File::FILE1 => '1',
            File::FILE2 => '2',
            File::FILE3 => '3',
            File::FILE4 => '4',
            File::FILE5 => '5',
            File::FILE6 => '6',
            File::FILE7 => '7',
            File::FILE8 => '8',
            File::FILE9 => '9',
        }
    }

    pub fn new_from_csa_char(c: char) -> (r: Option<File>)
        ensures
            r is Some <==> '1' <= c <= '9',
            r matches Some(x) ==> x.val() == c as int - '1' as int,
    {
        match c {
            '1' => Some(File::FILE1),
            '2' => Some(File::FILE2),
            '3' => Some(File::FILE3),
            '4' => Some(File::FILE4),
            '5' => Some(File::FILE5),
            '6' => Some(File::FILE6),
            '7' => Some(File::FILE7),
            '8' => Some(File::FILE8),
            '9' => Some(File::FILE9),
            _ => None,
        }
    }

}

/// A rank (row) of the board, numbered from the top as seen by black.
#[allow(non_camel_case_types)]
#[derive(Debug, Copy, Clone, PartialEq, Eq, Structural)]
pub enum Rank {
    RANK1,
    RANK2,
    RANK3,
    RANK4,
    RANK5,
    RANK6,
    RANK7,
    RANK8,
    RANK9,
}

/// The rank with the given number (`0` is the first rank).
#[allow(non_snake_case)]
pub fn Rank(i: i32) -> (r: Rank)
    requires 0 <= i < 9,
    ensures r.val() == i,
{
    match i {
        0 => Rank::RANK1,
        1 => Rank::RANK2,
        2 => Rank::RANK3,
        3 => Rank::RANK4,
        4 => Rank::RANK5,
        5 => Rank::RANK6,
        6 => Rank::RANK7,
        7 => Rank::RANK8,
        _ => Rank::RANK9,
    }
}

impl Rank {
    pub const NUM: usize = 9;
    pub const ALL_FROM_UPPER: [Rank; 9] = [Rank::RANK1, Rank::RANK2, Rank::RANK3, Rank::RANK4, Rank::RANK5, Rank::RANK6, Rank::RANK7, Rank::RANK8, Rank::RANK9];
    pub const ALL: [Rank; 9] = [Rank::RANK1, Rank::RANK2, Rank::RANK3, Rank::RANK4, Rank::RANK5, Rank::RANK6, Rank::RANK7, Rank::RANK8, Rank::RANK9];

    /// The number that this value stands for.
    pub open spec fn val(self) -> int {
        match self {
            Rank::RANK1 => 0,
            Rank::RANK2 => 1,
            Rank::RANK3 => 2,
            Rank::RANK4 => 3,
            Rank::RANK5 => 4,
            Rank::RANK6 => 5,
            Rank::RANK7 => 6,
            Rank::RANK8 => 7,
            Rank::RANK9 => 8,
        }
    }

    /// The value whose number is `i` (meaningful on the numbers that `val` takes).
    pub open spec fn from_val(i: int) -> Rank {
        if i == 0 { Rank::RANK1 } else
        if i == 1 { Rank::RANK2 } else
        if i == 2 { Rank::RANK3 } else
        if i == 3 { Rank::RANK4 } else
        if i == 4 { Rank::RANK5 } else
        if i == 5 { Rank::RANK6 } else
        if i == 6 { Rank::RANK7 } else
        if i == 7 { Rank::RANK8 } else
        { Rank::RANK9 }
    }

    pub broadcast proof fn lemma_from_val(x: Rank)
        ensures #[trigger] Rank::from_val(x.val()) == x,
    {
    }

    pub broadcast proof fn lemma_val_range(x: Rank)
        ensures 0 <= #[trigger] x.val() && x.val() <= 8,
    {
    }

    /// The number that this value stands for.
    pub fn to_i32(self) -> (r: i32)
        ensures r == self.val(), 0 <= r <= 8,
    {
        match self {
            Rank::RANK1 => 0,
            Rank::RANK2 => 1,
            Rank::RANK3 => 2,
            Rank::RANK4 => 3,
            Rank::RANK5 => 4,
            Rank::RANK6 => 5,
            Rank::RANK7 => 6,
            Rank::RANK8 => 7,
            Rank::RANK9 => 8,
        }
    }


    /// The rank of a square.
    pub fn new(sq: Square) -> (r: Rank)
        ensures r.val() == sq.val() % 9,
    {
        Rank(sq.to_i32() % 9)
    }

    /// The rank that is `rank_as_black` when counted from side `c`.
    pub fn new_from_color_and_rank_as_black(c: Color, rank_as_black: RankAsBlack) -> (r: Rank)
        ensures r.val() == if c == Color::BLACK { rank_as_black.val() } else { 8 - rank_as_black.val() },
    {
        match c {
            Color::BLACK => Rank(rank_as_black.to_i32()),
            Color::WHITE => Rank(rank_as_black.to_i32()).inverse(),
        }
    }

    /// The rank seen from the other side.
    pub fn inverse(self) -> (r: Rank)
        ensures r.val() == 8 - self.val(),
    {
        Rank(Rank::NUM as i32 - 1 - self.to_i32())
    }

    /// Whether a piece of side `us` on this rank stands in the promotion zone:
    /// the three ranks nearest to the opponent.
    pub open spec fn spec_is_opponent_field(self, us: Color) -> bool {
        if us == Color::BLACK { self.val() < 3 } else { self.val() >= 6 }
    }

    pub fn is_opponent_field(self, us: Color) -> (r: bool)
        ensures r == self.spec_is_opponent_field(us),
    {
        let u = us.to_i32();
        assert(0 <= u < 2 ==> u << 4 == 16 * u) by (bit_vector);
        let shift: u32 = ((u << 4) + self.to_i32()) as u32;
        let r = (0x1c0_0007u32 & (1u32 << shift)) != 0;
        assert(shift < 25 ==> (((0x1c0_0007u32 & (1u32 << shift)) != 0) <==> (shift < 3 || (22 <= shift && shift < 25)))) by (bit_vector);
        r
    }

    /// Whether this rank lies strictly ahead, for side `us`, of the rank `rank_as_black`
    /// counted from `us`.
    pub open spec fn spec_is_in_front_of(self, us: Color, rank_as_black: RankAsBlack) -> bool {
        rank_as_black.val() > (if us == Color::BLACK { self.val() } else { 8 - self.val() })
    }

    pub fn is_in_front_of(self, us: Color, rank_as_black: RankAsBlack) -> (r: bool)
        ensures r == self.spec_is_in_front_of(us, rank_as_black),
    {
        match us {
            Color::BLACK => self.to_i32() < Rank::new_from_color_and_rank_as_black(Color::BLACK, rank_as_black).to_i32(),
            Color::WHITE => self.to_i32() > Rank::new_from_color_and_rank_as_black(Color::WHITE, rank_as_black).to_i32(),
        }
    }

    pub fn new_from_usi_char(c: char) -> (r: Option<Rank>)
        ensures
            r is Some <==> 'a' <= c <= 'i',
            r matches Some(x) ==> x.val() == c as int - 'a' as int,
    {
        match c {
            'a' => Some(Rank::RANK1),
            'b' => Some(Rank::RANK2),
            'c' => Some(Rank::RANK3),
            'd' => Some(Rank::RANK4),
            'e' => Some(Rank::RANK5),
            'f' => Some(Rank::RANK6),
            'g' => Some(Rank::RANK7),
            'h' => Some(Rank::RANK8),
            'i' => Some(Rank::RANK9),
            _ => None,
        }
    }

    pub fn new_from_csa_char(c: char) -> (r: Option<Rank>)
        ensures
            r is Some <==> '1' <= c <= '9',
            r matches Some(x) ==> x.val() == c as int - '1' as int,
    {
        match c {
            '1' => Some(Rank::RANK1),
            '2' => Some(Rank::RANK2),
            '3' => Some(Rank::RANK3),
            '4' => Some(Rank::RANK4),
            '5' => Some(Rank::RANK5),
            '6' => Some(Rank::RANK6),
            '7' => Some(Rank::RANK7),
            '8' => Some(Rank::RANK8),
            '9' => Some(Rank::RANK9),
            _ => None,
        }
    }

    pub fn to_usi_char(self) -> (r: char)
        ensures r as int == 'a' as int + self.val(),
    {
        match self {
            Rank::RANK1 => 'a',
            Rank::RANK2 => 'b',
            Rank::RANK3 => 'c',
            Rank::RANK4 => 'd',
            Rank::RANK5 => 'e',
            Rank::RANK6 => 'f',
            Rank::RANK7 => 'g',
            Rank::RANK8 => 'h',
            Rank::RANK9 => 'i',
        }
    }

    pub fn to_csa_char(self) -> (r: char)
        ensures r as int == '1' as int + self.val(),
    {
        match self {
            Rank::RANK1 => '1',
            Rank::RANK2 => '2',
            Rank::RANK3 => '3',
            Rank::RANK4 => '4',
            Rank::RANK5 => '5',
            Rank::RANK6 => '6',
            Rank::RANK7 => '7',
            Rank::RANK8 => '8',
            Rank::RANK9 => '9',
        }
    }

}

/// A rank counted from the point of view of one side: the first rank is the one farthest from that side.
#[allow(non_camel_case_types)]
#[derive(Debug, Copy, Clone, PartialEq, Eq, Structural)]
pub enum RankAsBlack {
    RANK1,
    RANK2,
    RANK3,
    RANK4,
    RANK5,
    RANK6,
    RANK7,
    RANK8,
    RANK9,
}

impl RankAsBlack {
    pub const NUM: usize = 9;
    pub const ALL: [RankAsBlack; 9] = [RankAsBlack::RANK1, RankAsBlack::RANK2, RankAsBlack::RANK3, RankAsBlack::RANK4, RankAsBlack::RANK5, RankAsBlack::RANK6, RankAsBlack::RANK7, RankAsBlack::RANK8, RankAsBlack::RANK9];

    /// The number that this value stands for.
    pub open spec fn val(self) -> int {
        match self {
            RankAsBlack::RANK1 => 0,
            RankAsBlack::RANK2 => 1,
            RankAsBlack::RANK3 => 2,
            RankAsBlack::RANK4 => 3,
            RankAsBlack::RANK5 => 4,
            RankAsBlack::RANK6 => 5,
            RankAsBlack::RANK7 => 6,
            RankAsBlack::RANK8 => 7,
            RankAsBlack::RANK9 => 8,
        }
    }

    /// The value whose number is `i` (meaningful on the numbers that `val` takes).
    pub open spec fn from_val(i: int) -> RankAsBlack {
        if i == 0 { RankAsBlack::RANK1 } else
        if i == 1 { RankAsBlack::RANK2 } else
        if i == 2 { RankAsBlack::RANK3 } else
        if i == 3 { RankAsBlack::RANK4 } else
        if i == 4 { RankAsBlack::RANK5 } else
        if i == 5 { RankAsBlack::RANK6 } else
        if i == 6 { RankAsBlack::RANK7 } else
        if i == 7 { RankAsBlack::RANK8 } else
        { RankAsBlack::RANK9 }
    }

    pub broadcast proof fn lemma_from_val(x: RankAsBlack)
        ensures #[trigger] RankAsBlack::from_val(x.val()) == x,
    {
    }

    pub broadcast proof fn lemma_val_range(x: RankAsBlack)
        ensures 0 <= #[trigger] x.val() && x.val() <= 8,
    {
    }

    /// The number that this value stands for.
    pub fn to_i32(self) -> (r: i32)
        ensures r == self.val(), 0 <= r <= 8,
    {
        match self {
            RankAsBlack::RANK1 => 0,
            RankAsBlack::RANK2 => 1,
            RankAsBlack::RANK3 => 2,
            RankAsBlack::RANK4 => 3,
            RankAsBlack::RANK5 => 4,
            RankAsBlack::RANK6 => 5,
            RankAsBlack::RANK7 => 6,
            RankAsBlack::RANK8 => 7,
            RankAsBlack::RANK9 => 8,
        }
    }


    /// The rank `r` counted from side `c`.
    pub fn new(c: Color, r: Rank) -> (res: RankAsBlack)
        ensures res.val() == if c == Color::BLACK { r.val() } else { 8 - r.val() },
    {
        let v = match c {
            Color::BLACK => r.to_i32(),
            Color::WHITE => r.inverse().to_i32(),
        };
        match v {
            0 => RankAsBlack::RANK1,
            1 => RankAsBlack::RANK2,
            2 => RankAsBlack::RANK3,
            3 => RankAsBlack::RANK4,
            4 => RankAsBlack::RANK5,
            5 => RankAsBlack::RANK6,
            6 => RankAsBlack::RANK7,
            7 => RankAsBlack::RANK8,
            _ => RankAsBlack::RANK9,
        }
    }

}

/// A square of the board: `SQxy` is file `x`, rank `y`.
#[allow(non_camel_case_types)]
#[derive(Debug, Copy, Clone, PartialEq, Eq, Structural)]
pub enum Square {
    SQ11,
    SQ12,
    SQ13,
    SQ14,
    SQ15,
    SQ16,
    SQ17,
    SQ18,
    SQ19,
    SQ21,
    SQ22,
    SQ23,
    SQ24,
    SQ25,
    SQ26,
    SQ27,
    SQ28,
    SQ29,
    SQ31,
    SQ32,
    SQ33,
    SQ34,
    SQ35,
    SQ36,
    SQ37,
    SQ38,
    SQ39,
    SQ41,
    SQ42,
    SQ43,
    SQ44,
    SQ45,
    SQ46,
    SQ47,
    SQ48,
    SQ49,
    SQ51,
    SQ52,
    SQ53,
    SQ54,
    SQ55,
    SQ56,
    SQ57,
    SQ58,
    SQ59,
    SQ61,
    SQ62,
    SQ63,
    SQ64,
    SQ65,
    SQ66,
    SQ67,
    SQ68,
    SQ69,
    SQ71,
    SQ72,
    SQ73,
    SQ74,
    SQ75,
    SQ76,
    SQ77,
    SQ78,
    SQ79,
    SQ81,
    SQ82,
    SQ83,
    SQ84,
    SQ85,
    SQ86,
    SQ87,
    SQ88,
    SQ89,
    SQ91,
    SQ92,
    SQ93,
    SQ94,
    SQ95,
    SQ96,
    SQ97,
    SQ98,
    SQ99,
}

/// The square with the given number: file times nine plus rank.
#[allow(non_snake_case)]
pub fn Square(i: i32) -> (r: Square)
    requires 0 <= i < 81,
    ensures r.val() == i,
{
    match i {
        0 => Square::SQ11,
        1 => Square::SQ12,
        2 => Square::SQ13,
        3 => Square::SQ14,
        4 => Square::SQ15,
        5 => Square::SQ16,
        6 => Square::SQ17,
        7 => Square::SQ18,
        8 => Square::SQ19,
        9 => Square::SQ21,
        10 => Square::SQ22,
        11 => Square::SQ23,
        12 => Square::SQ24,
        13 => Square::SQ25,
        14 => Square::SQ26,
        15 => Square::SQ27,
        16 => Square::SQ28,
        17 => Square::SQ29,
        18 => Square::SQ31,
        19 => Square::SQ32,
        20 => Square::SQ33,
        21 => Square::SQ34,
        22 => Square::SQ35,
        23 => Square::SQ36,
        24 => Square::SQ37,
        25 => Square::SQ38,
        26 => Square::SQ39,
        27 => Square::SQ41,
        28 => Square::SQ42,
        29 => Square::SQ43,
        30 => Square::SQ44,
        31 => Square::SQ45,
        32 => Square::SQ46,
        33 => Square::SQ47,
        34 => Square::SQ48,
        35 => Square::SQ49,
        36 => Square::SQ51,
        37 => Square::SQ52,
        38 => Square::SQ53,
        39 => Square::SQ54,
        40 => Square::SQ55,
        41 => Square::SQ56,
        42 => Square::SQ57,
        43 => Square::SQ58,
        44 => Square::SQ59,
        45 => Square::SQ61,
        46 => Square::SQ62,
        47 => Square::SQ63,
        48 => Square::SQ64,
        49 => Square::SQ65,
        50 => Square::SQ66,
        51 => Square::SQ67,
        52 => Square::SQ68,
        53 => Square::SQ69,
        54 => Square::SQ71,
        55 => Square::SQ72,
        56 => Square::SQ73,
        57 => Square::SQ74,
        58 => Square::SQ75,
        59 => Square::SQ76,
        60 => Square::SQ77,
        61 => Square::SQ78,
        62 => Square::SQ79,
        63 => Square::SQ81,
        64 => Square::SQ82,
        65 => Square::SQ83,
        66 => Square::SQ84,
        67 => Square::SQ85,
        68 => Square::SQ86,
        69 => Square::SQ87,
        70 => Square::SQ88,
        71 => Square::SQ89,
        72 => Square::SQ91,
        73 => Square::SQ92,
        74 => Square::SQ93,
        75 => Square::SQ94,
        76 => Square::SQ95,
        77 => Square::SQ96,
        78 => Square::SQ97,
        79 => Square::SQ98,
        _ => Square::SQ99,
    }
}

impl Square {
    pub const NUM: usize = 81;
    pub const DELTA_N: i32 = -1;
    pub const DELTA_E: i32 = -9;
    pub const DELTA_S: i32 = 1;
    pub const DELTA_W: i32 = 9;
    pub const DELTA_NE: i32 = -10;
    pub const DELTA_SE: i32 = -8;
    pub const DELTA_SW: i32 = 10;
    pub const DELTA_NW: i32 = 8;
    pub const DELTA_NNE: i32 = -11;
    pub const DELTA_SSE: i32 = -7;
    pub const DELTA_SSW: i32 = 11;
    pub const DELTA_NNW: i32 = 7;
    pub const ALL: [Square; 81] = [Square::SQ11, Square::SQ12, Square::SQ13, Square::SQ14, Square::SQ15, Square::SQ16, Square::SQ17, Square::SQ18, Square::SQ19, Square::SQ21, Square::SQ22, Square::SQ23, Square::SQ24, Square::SQ25, Square::SQ26, Square::SQ27, Square::SQ28, Square::SQ29, Square::SQ31, Square::SQ32, Square::SQ33, Square::SQ34, Square::SQ35, Square::SQ36, Square::SQ37, Square::SQ38, Square::SQ39, Square::SQ41, Square::SQ42, Square::SQ43, Square::SQ44, Square::SQ45, Square::SQ46, Square::SQ47, Square::SQ48, Square::SQ49, Square::SQ51, Square::SQ52, Square::SQ53, Square::SQ54, Square::SQ55, Square::SQ56, Square::SQ57, Square::SQ58, Square::SQ59, Square::SQ61, Square::SQ62, Square::SQ63, Square::SQ64, Square::SQ65, Square::SQ66, Square::SQ67, Square::SQ68, Square::SQ69, Square::SQ71, Square::SQ72, Square::SQ73, Square::SQ74, Square::SQ75, Square::SQ76, Square::SQ77, Square::SQ78, Square::SQ79, Square::SQ81, Square::SQ82, Square::SQ83, Square::SQ84, Square::SQ85, Square::SQ86, Square::SQ87, Square::SQ88, Square::SQ89, Square::SQ91, Square::SQ92, Square::SQ93, Square::SQ94, Square::SQ95, Square::SQ96, Square::SQ97, Square::SQ98, Square::SQ99];

    /// The number that this value stands for.
    pub open spec fn val(self) -> int {
        match self {
            Square::SQ11 => 0,
            Square::SQ12 => 1,
            Square::SQ13 => 2,
            Square::SQ14 => 3,
            Square::SQ15 => 4,
            Square::SQ16 => 5,
            Square::SQ17 => 6,
            Square::SQ18 => 7,
            Square::SQ19 => 8,
            Square::SQ21 => 9,
            Square::SQ22 => 10,
            Square::SQ23 => 11,
            Square::SQ24 => 12,
            Square::SQ25 => 13,
            Square::SQ26 => 14,
            Square::SQ27 => 15,
            Square::SQ28 => 16,
            Square::SQ29 => 17,
            Square::SQ31 => 18,
            Square::SQ32 => 19,
            Square::SQ33 => 20,
            Square::SQ34 => 21,
            Square::SQ35 => 22,
            Square::SQ36 => 23,
            Square::SQ37 => 24,
            Square::SQ38 => 25,
            Square::SQ39 => 26,
            Square::SQ41 => 27,
            Square::SQ42 => 28,
            Square::SQ43 => 29,
            Square::SQ44 => 30,
            Square::SQ45 => 31,
            Square::SQ46 => 32,
            Square::SQ47 => 33,
            Square::SQ48 => 34,
            Square::SQ49 => 35,
            Square::SQ51 => 36,
            Square::SQ52 => 37,
            Square::SQ53 => 38,
            Square::SQ54 => 39,
            Square::SQ55 => 40,
            Square::SQ56 => 41,
            Square::SQ57 => 42,
            Square::SQ58 => 43,
            Square::SQ59 => 44,
            Square::SQ61 => 45,
            Square::SQ62 => 46,
            Square::SQ63 => 47,
            Square::SQ64 => 48,
            Square::SQ65 => 49,
            Square::SQ66 => 50,
            Square::SQ67 => 51,
            Square::SQ68 => 52,
            Square::SQ69 => 53,
            Square::SQ71 => 54,
            Square::SQ72 => 55,
            Square::SQ73 => 56,
            Square::SQ74 => 57,
            Square::SQ75 => 58,
            Square::SQ76 => 59,
            Square::SQ77 => 60,
            Square::SQ78 => 61,
            Square::SQ79 => 62,
            Square::SQ81 => 63,
            Square::SQ82 => 64,
            Square::SQ83 => 65,
            Square::SQ84 => 66,
            Square::SQ85 => 67,
            Square::SQ86 => 68,
            Square::SQ87 => 69,
            Square::SQ88 => 70,
            Square::SQ89 => 71,
            Square::SQ91 => 72,
            Square::SQ92 => 73,
            Square::SQ93 => 74,
            Square::SQ94 => 75,
            Square::SQ95 => 76,
            Square::SQ96 => 77,
            Square::SQ97 => 78,
            Square::SQ98 => 79,
            Square::SQ99 => 80,
        }
    }

    /// The value whose number is `i` (meaningful on the numbers that `val` takes).
    pub open spec fn from_val(i: int) -> Square {
        if i == 0 { Square::SQ11 } else
        if i == 1 { Square::SQ12 } else
        if i == 2 { Square::SQ13 } else
        if i == 3 { Square::SQ14 } else
        if i == 4 { Square::SQ15 } else
        if i == 5 { Square::SQ16 } else
        if i == 6 { Square::SQ17 } else
        if i == 7 { Square::SQ18 } else
        if i == 8 { Square::SQ19 } else
        if i == 9 { Square::SQ21 } else
        if i == 10 { Square::SQ22 } else
        if i == 11 { Square::SQ23 } else
        if i == 12 { Square::SQ24 } else
        if i == 13 { Square::SQ25 } else
        if i == 14 { Square::SQ26 } else
        if i == 15 { Square::SQ27 } else
        if i == 16 { Square::SQ28 } else
        if i == 17 { Square::SQ29 } else
        if i == 18 { Square::SQ31 } else
        if i == 19 { Square::SQ32 } else
        if i == 20 { Square::SQ33 } else
        if i == 21 { Square::SQ34 } else
        if i == 22 { Square::SQ35 } else
        if i == 23 { Square::SQ36 } else
        if i == 24 { Square::SQ37 } else
        if i == 25 { Square::SQ38 } else
        if i == 26 { Square::SQ39 } else
        if i == 27 { Square::SQ41 } else
        if i == 28 { Square::SQ42 } else
        if i == 29 { Square::SQ43 } else
        if i == 30 { Square::SQ44 } else
        if i == 31 { Square::SQ45 } else
        if i == 32 { Square::SQ46 } else
        if i == 33 { Square::SQ47 } else
        if i == 34 { Square::SQ48 } else
        if i == 35 { Square::SQ49 } else
        if i == 36 { Square::SQ51 } else
        if i == 37 { Square::SQ52 } else
        if i == 38 { Square::SQ53 } else
        if i == 39 { Square::SQ54 } else
        if i == 40 { Square::SQ55 } else
        if i == 41 { Square::SQ56 } else
        if i == 42 { Square::SQ57 } else
        if i == 43 { Square::SQ58 } else
        if i == 44 { Square::SQ59 } else
        if i == 45 { Square::SQ61 } else
        if i == 46 { Square::SQ62 } else
        if i == 47 { Square::SQ63 } else
        if i == 48 { Square::SQ64 } else
        if i == 49 { Square::SQ65 } else
        if i == 50 { Square::SQ66 } else
        if i == 51 { Square::SQ67 } else
        if i == 52 { Square::SQ68 } else
        if i == 53 { Square::SQ69 } else
        if i == 54 { Square::SQ71 } else
        if i == 55 { Square::SQ72 } else
        if i == 56 { Square::SQ73 } else
        if i == 57 { Square::SQ74 } else
        if i == 58 { Square::SQ75 } else
        if i == 59 { Square::SQ76 } else
        if i == 60 { Square::SQ77 } else
        if i == 61 { Square::SQ78 } else
        if i == 62 { Square::SQ79 } else
        if i == 63 { Square::SQ81 } else
        if i == 64 { Square::SQ82 } else
        if i == 65 { Square::SQ83 } else
        if i == 66 { Square::SQ84 } else
        if i == 67 { Square::SQ85 } else
        if i == 68 { Square::SQ86 } else
        if i == 69 { Square::SQ87 } else
        if i == 70 { Square::SQ88 } else
        if i == 71 { Square::SQ89 } else
        if i == 72 { Square::SQ91 } else
        if i == 73 { Square::SQ92 } else
        if i == 74 { Square::SQ93 } else
        if i == 75 { Square::SQ94 } else
        if i == 76 { Square::SQ95 } else
        if i == 77 { Square::SQ96 } else
        if i == 78 { Square::SQ97 } else
        if i == 79 { Square::SQ98 } else
        { Square::SQ99 }
    }

    pub broadcast proof fn lemma_from_val(x: Square)
        ensures #[trigger] Square::from_val(x.val()) == x,
    {
    }

    pub broadcast proof fn lemma_val_range(x: Square)
        ensures 0 <= #[trigger] x.val() && x.val() <= 80,
    {
    }

    /// The number that this value stands for.
    pub fn to_i32(self) -> (r: i32)
        ensures r == self.val(), 0 <= r <= 80,
    {
        match self {
            Square::SQ11 => 0,
            Square::SQ12 => 1,
            Square::SQ13 => 2,
            Square::SQ14 => 3,
            Square::SQ15 => 4,
            Square::SQ16 => 5,
            Square::SQ17 => 6,
            Square::SQ18 => 7,
            Square::SQ19 => 8,
            Square::SQ21 => 9,
            Square::SQ22 => 10,
            Square::SQ23 => 11,
            Square::SQ24 => 12,
            Square::SQ25 => 13,
            Square::SQ26 => 14,
            Square::SQ27 => 15,
            Square::SQ28 => 16,
            Square::SQ29 => 17,
            Square::SQ31 => 18,
            Square::SQ32 => 19,
            Square::SQ33 => 20,
            Square::SQ34 => 21,
            Square::SQ35 => 22,
            Square::SQ36 => 23,
            Square::SQ37 => 24,
            Square::SQ38 => 25,
            Square::SQ39 => 26,
            Square::SQ41 => 27,
            Square::SQ42 => 28,
            Square::SQ43 => 29,
            Square::SQ44 => 30,
            Square::SQ45 => 31,
            Square::SQ46 => 32,
            Square::SQ47 => 33,
            Square::SQ48 => 34,
            Square::SQ49 => 35,
            Square::SQ51 => 36,
            Square::SQ52 => 37,
            Square::SQ53 => 38,
            Square::SQ54 => 39,
            Square::SQ55 => 40,
            Square::SQ56 => 41,
            Square::SQ57 => 42,
            Square::SQ58 => 43,
            Square::SQ59 => 44,
            Square::SQ61 => 45,
            Square::SQ62 => 46,
            Square::SQ63 => 47,
            Square::SQ64 => 48,
            Square::SQ65 => 49,
            Square::SQ66 => 50,
            Square::SQ67 => 51,
            Square::SQ68 => 52,
            Square::SQ69 => 53,
            Square::SQ71 => 54,
            Square::SQ72 => 55,
            Square::SQ73 => 56,
            Square::SQ74 => 57,
            Square::SQ75 => 58,
            Square::SQ76 => 59,
            Square::SQ77 => 60,
            Square::SQ78 => 61,
            Square::SQ79 => 62,
            Square::SQ81 => 63,
            Square::SQ82 => 64,
            Square::SQ83 => 65,
            Square::SQ84 => 66,
            Square::SQ85 => 67,
            Square::SQ86 => 68,
            Square::SQ87 => 69,
            Square::SQ88 => 70,
            Square::SQ89 => 71,
            Square::SQ91 => 72,
            Square::SQ92 => 73,
            Square::SQ93 => 74,
            Square::SQ94 => 75,
            Square::SQ95 => 76,
            Square::SQ96 => 77,
            Square::SQ97 => 78,
            Square::SQ98 => 79,
            Square::SQ99 => 80,
        }
    }


    /// The square on file `f` and rank `r`.
    pub fn new(f: File, r: Rank) -> (res: Square)
        ensures res.val() == f.val() * 9 + r.val(),
    {
        Square(f.to_i32() * 9 + r.to_i32())
    }

    /// The square seen from the other side (the board turned half round).
    pub fn inverse(self) -> (r: Square)
        ensures r.val() == square_inverse(self.val()),
    {
        Square(Square::NUM as i32 - 1 - self.to_i32())
    }

    /// The square mirrored left to right: same rank, file seen from the other side.
    pub fn inverse_file(self) -> (r: Square)
        ensures r.val() == square_inverse_file(self.val()),
    {
        Square::new(File::new(self).inverse(), Rank::new(self))
    }

    /// The square in USI notation, such as `7g`.
    pub fn to_usi_string(self) -> (s: String)
        ensures s@ == seq![
            ('1' as int + self.val() / 9) as char,
            ('a' as int + self.val() % 9) as char,
        ],
    {
        let mut s = String::new();
        push_char(&mut s, File::new(self).to_usi_char());
        push_char(&mut s, Rank::new(self).to_usi_char());
        s
    }

    /// The square in CSA notation, such as `77`.
    pub fn to_csa_string(self) -> (s: String)
        ensures s@ == seq![
            ('1' as int + self.val() / 9) as char,
            ('1' as int + self.val() % 9) as char,
        ],
    {
        let mut s = String::new();
        push_char(&mut s, File::new(self).to_csa_char());
        push_char(&mut s, Rank::new(self).to_csa_char());
        s
    }

    /// Every value of this type is a square of the board.
    pub fn is_ok(self) -> (r: bool)
        ensures r,
    {
        0 <= self.to_i32() && self.to_i32() < Square::NUM as i32
    }

    /// The square `delta` steps away in numbering, if it is on the board.
    pub fn checked_add(self, delta: i32) -> (r: Option<Square>)
        ensures
            r is Some <==> 0 <= self.val() + delta < 81,
            r matches Some(s) ==> s.val() == self.val() + delta,
    {
        let n: i64 = self.to_i32() as i64 + delta as i64;
        if 0 <= n && n < Square::NUM as i64 {
            return Some(Square(n as i32));
        }
        None
    }

    /// The square `delta` steps away in numbering, which the caller knows is on the board.
    pub fn add_unchecked(self, delta: i32) -> (r: Square)
        requires 0 <= self.val() + delta < 81,
        ensures r.val() == self.val() + delta,
    {
        Square(self.to_i32() + delta)
    }

}

/// How two squares lie relative to each other: on one file, one rank, one diagonal, or none of these (`MISC`), with the direction from the first to the second.
#[allow(non_camel_case_types)]
#[derive(Debug, Copy, Clone, PartialEq, Eq, Structural)]
pub enum Relation {
    MISC,
    FILE_SN,
    FILE_NS,
    RANK_EW,
    RANK_WE,
    DIAG_NESW,
    DIAG_SENW,
    DIAG_SWNE,
    DIAG_NWSE,
}

impl Relation {
    /// The number that this value stands for.
    pub open spec fn val(self) -> int {
        match self {
            Relation::MISC => 1,
            Relation::FILE_SN => 2,
            Relation::FILE_NS => 4,
            Relation::RANK_EW => 8,
            Relation::RANK_WE => 16,
            Relation::DIAG_NESW => 32,
            Relation::DIAG_SENW => 64,
            Relation::DIAG_SWNE => 128,
            Relation::DIAG_NWSE => 256,
        }
    }

    /// The value whose number is `i` (meaningful on the numbers that `val` takes).
    pub open spec fn from_val(i: int) -> Relation {
        if i == 1 { Relation::MISC } else
        if i == 2 { Relation::FILE_SN } else
        if i == 4 { Relation::FILE_NS } else
        if i == 8 { Relation::RANK_EW } else
        if i == 16 { Relation::RANK_WE } else
        if i == 32 { Relation::DIAG_NESW } else
        if i == 64 { Relation::DIAG_SENW } else
        if i == 128 { Relation::DIAG_SWNE } else
        { Relation::DIAG_NWSE }
    }

    pub broadcast proof fn lemma_from_val(x: Relation)
        ensures #[trigger] Relation::from_val(x.val()) == x,
    {
    }

    pub broadcast proof fn lemma_val_range(x: Relation)
        ensures 1 <= #[trigger] x.val() && x.val() <= 256,
    {
    }

    /// The number that this value stands for.
    pub fn to_i32(self) -> (r: i32)
        ensures r == self.val(), 1 <= r <= 256,
    {
        match self {
            Relation::MISC => 1,
            Relation::FILE_SN => 2,
            Relation::FILE_NS => 4,
            Relation::RANK_EW => 8,
            Relation::RANK_WE => 16,
            Relation::DIAG_NESW => 32,
            Relation::DIAG_SENW => 64,
            Relation::DIAG_SWNE => 128,
            Relation::DIAG_NWSE => 256,
        }
    }


    /// The relation of `to` as seen from `from`.
    pub open spec fn spec_new(from: Square, to: Square) -> Relation {
        let f_from = from.val() / 9;
        let r_from = from.val() % 9;
        let f_to = to.val() / 9;
        let r_to = to.val() % 9;
        if from == to {
            Relation::MISC
        } else if f_from == f_to {
            if r_from < r_to { Relation::FILE_NS } else { Relation::FILE_SN }
        } else if r_from == r_to {
            if f_from < f_to { Relation::RANK_EW } else { Relation::RANK_WE }
        } else if r_from - r_to == f_from - f_to {
            if r_from < r_to { Relation::DIAG_NESW } else { Relation::DIAG_SWNE }
        } else if r_from - r_to == f_to - f_from {
            if r_from < r_to { Relation::DIAG_NWSE } else { Relation::DIAG_SENW }
        } else {
            Relation::MISC
        }
    }

    pub fn new(from: Square, to: Square) -> (r: Relation)
        ensures r == Relation::spec_new(from, to),
    {
        let f_from = from.to_i32() / 9;
        let r_from = from.to_i32() % 9;
        let f_to = to.to_i32() / 9;
        let r_to = to.to_i32() % 9;
        if from == to {
            Relation::MISC
        } else if f_from == f_to {
            if r_from < r_to { Relation::FILE_NS } else { Relation::FILE_SN }
        } else if r_from == r_to {
            if f_from < f_to { Relation::RANK_EW } else { Relation::RANK_WE }
        } else if r_from - r_to == f_from - f_to {
            if r_from < r_to { Relation::DIAG_NESW } else { Relation::DIAG_SWNE }
        } else if r_from - r_to == f_to - f_from {
            if r_from < r_to { Relation::DIAG_NWSE } else { Relation::DIAG_SENW }
        } else {
            Relation::MISC
        }
    }

    pub fn is_file(self) -> (r: bool)
        ensures r == (self == Relation::FILE_SN || self == Relation::FILE_NS),
    {
        let b = self.to_i32();
        assert(self.val() == 1 || self.val() == 2 || self.val() == 4 || self.val() == 8 || self.val() == 16 || self.val() == 32 || self.val() == 64 || self.val() == 128 || self.val() == 256);
        assert((b == 1 || b == 2 || b == 4 || b == 8 || b == 16 || b == 32 || b == 64 || b == 128 || b == 256) ==> ((b & 0b110 != 0) <==> (b == 2 || b == 4))) by (bit_vector);
        (b & 0b0000_0000_0000_0110) != 0
    }

    pub fn is_rank(self) -> (r: bool)
        ensures r == (self == Relation::RANK_EW || self == Relation::RANK_WE),
    {
        let b = self.to_i32();
        assert((b == 1 || b == 2 || b == 4 || b == 8 || b == 16 || b == 32 || b == 64 || b == 128 || b == 256) ==> ((b & 0b1_1000 != 0) <==> (b == 8 || b == 16))) by (bit_vector);
        (b & 0b0000_0000_0001_1000) != 0
    }

    pub fn is_diag_ne(self) -> (r: bool)
        ensures r == (self == Relation::DIAG_NESW || self == Relation::DIAG_SWNE),
    {
        let b = self.to_i32();
        assert((b == 1 || b == 2 || b == 4 || b == 8 || b == 16 || b == 32 || b == 64 || b == 128 || b == 256) ==> ((b & 0b1010_0000 != 0) <==> (b == 32 || b == 128))) by (bit_vector);
        (b & 0b0000_0000_1010_0000) != 0
    }

    pub fn is_diag_se(self) -> (r: bool)
        ensures r == (self == Relation::DIAG_SENW || self == Relation::DIAG_NWSE),
    {
        let b = self.to_i32();
        assert((b == 1 || b == 2 || b == 4 || b == 8 || b == 16 || b == 32 || b == 64 || b == 128 || b == 256) ==> ((b & 0b1_0100_0000 != 0) <==> (b == 64 || b == 256))) by (bit_vector);
        (b & 0b0000_0001_0100_0000) != 0
    }

    pub fn is_cross(self) -> (r: bool)
        ensures r == (self.is_file_spec() || self.is_rank_spec()),
    {
        let b = self.to_i32();
        assert((b == 1 || b == 2 || b == 4 || b == 8 || b == 16 || b == 32 || b == 64 || b == 128 || b == 256) ==> ((b & 0b1_1110 != 0) <==> (b == 2 || b == 4 || b == 8 || b == 16))) by (bit_vector);
        (b & 0b0000_0000_0001_1110) != 0
    }

    pub fn is_diag(self) -> (r: bool)
        ensures r == (self.is_diag_spec()),
    {
        let b = self.to_i32();
        assert((b == 1 || b == 2 || b == 4 || b == 8 || b == 16 || b == 32 || b == 64 || b == 128 || b == 256) ==> ((b & 0b1_1110_0000 != 0) <==> (b == 32 || b == 64 || b == 128 || b == 256))) by (bit_vector);
        (b & 0b0000_0001_1110_0000) != 0
    }

    pub open spec fn is_file_spec(self) -> bool {
        self == Relation::FILE_SN || self == Relation::FILE_NS
    }

    pub open spec fn is_rank_spec(self) -> bool {
        self == Relation::RANK_EW || self == Relation::RANK_WE
    }

    pub open spec fn is_diag_spec(self) -> bool {
        self == Relation::DIAG_NESW || self == Relation::DIAG_SENW || self == Relation::DIAG_SWNE || self == Relation::DIAG_NWSE
    }
}

/// Whether the three squares lie on one line (file, rank or diagonal) with `sq2` outside
/// the stretch between `sq0` and `sq1`.
pub open spec fn spec_is_aligned_and_sq2_is_not_between_sq0_and_sq1(sq0: Square, sq1: Square, sq2: Square) -> bool {
    Relation::spec_new(sq0, sq2) != Relation::MISC && Relation::spec_new(sq0, sq2) == Relation::spec_new(sq1, sq2)
}

pub fn is_aligned_and_sq2_is_not_between_sq0_and_sq1(sq0: Square, sq1: Square, sq2: Square) -> (r: bool)
    ensures r == spec_is_aligned_and_sq2_is_not_between_sq0_and_sq1(sq0, sq1, sq2),
{
    let relation_sq0_sq2 = Relation::new(sq0, sq2);
    relation_sq0_sq2 != Relation::MISC && relation_sq0_sq2 == Relation::new(sq1, sq2)
}

/// The kind of bound that a stored search score is: none, an upper bound, a lower bound, or exact (both).
#[allow(non_camel_case_types)]
#[derive(Debug, Copy, Clone, PartialEq, Eq, Structural)]
pub enum Bound {
    BOUND_NONE,
    UPPER,
    LOWER,
    EXACT,
}

impl Bound {
    /// The number that this value stands for.
    pub open spec fn val(self) -> int {
        match self {
            Bound::BOUND_NONE => 0,
            Bound::UPPER => 1,
            Bound::LOWER => 2,
            Bound::EXACT => 3,
        }
    }

    /// The value whose number is `i` (meaningful on the numbers that `val` takes).
    pub open spec fn from_val(i: int) -> Bound {
        if i == 0 { Bound::BOUND_NONE } else
        if i == 1 { Bound::UPPER } else
        if i == 2 { Bound::LOWER } else
        { Bound::EXACT }
    }

    pub broadcast proof fn lemma_from_val(x: Bound)
        ensures #[trigger] Bound::from_val(x.val()) == x,
    {
    }

    pub broadcast proof fn lemma_val_range(x: Bound)
        ensures 0 <= #[trigger] x.val() && x.val() <= 3,
    {
    }

    /// The number that this value stands for.
    pub fn to_i32(self) -> (r: i32)
        ensures r == self.val(), 0 <= r <= 3,
    {
        match self {
            Bound::BOUND_NONE => 0,
            Bound::UPPER => 1,
            Bound::LOWER => 2,
            Bound::EXACT => 3,
        }
    }


    pub fn include_lower(&self) -> (r: bool)
        ensures r == (*self == Bound::LOWER || *self == Bound::EXACT),
    {
        let b = self.to_i32();
        assert(0 <= b < 4 ==> ((b & 2 != 0) <==> (b == 2 || b == 3))) by (bit_vector);
        (b & 2) != 0
    }

    pub fn include_upper(&self) -> (r: bool)
        ensures r == (*self == Bound::UPPER || *self == Bound::EXACT),
    {
        let b = self.to_i32();
        assert(0 <= b < 4 ==> ((b & 1 != 0) <==> (b == 1 || b == 3))) by (bit_vector);
        (b & 1) != 0
    }
}

/// The maximum search depth in plies.
pub const MAX_PLY: i32 = 246;

/// A search score, in units where a pawn is worth `PAWN_VALUE`.
#[derive(Debug, Clone, Copy, PartialEq, Eq, Structural, PartialOrd, Ord, Hash)]
pub struct Value(pub i32);

impl Value {
    pub const ZERO: i32 = 0;
    pub const DRAW: i32 = 0;
    pub const KNOWN_WIN: i32 = 10000;
    pub const MAX_EVALUATE: i32 = 30000;
    pub const MATE_VAL: i32 = 32600;
    pub const MATE: i32 = 32600;
    pub const MATED: i32 = -32600;
    pub const MATE_IN_MAX_PLY: i32 = Value::MATE_VAL - MAX_PLY;
    pub const MATED_IN_MAX_PLY: i32 = -Value::MATE_VAL + MAX_PLY;
    pub const INFINITE: i32 = 32601;
    pub const NONE: i32 = 32602;

    /// The score as a USI `info score` argument: `cp N` (centipawns) or `mate N` (plies to mate,
    /// negative when being mated).
    pub open spec fn spec_to_usi(self) -> Seq<char> {
        let v = self.0 as int;
        if Value::MATED_IN_MAX_PLY < v && v < Value::MATE_IN_MAX_PLY {
            seq!['c', 'p', ' '] + crate::strings::int_decimal(crate::strings::trunc_div(v * 100, crate::piecevalue::PAWN_VALUE as int))
        } else {
            seq!['m', 'a', 't', 'e', ' '] + crate::strings::int_decimal(if 0 < v { Value::MATE - v + 1 } else { Value::MATED - v })
        }
    }

    pub fn to_usi(self) -> (s: String)
        ensures s@ == self.spec_to_usi(),
    {
        let mut s = String::new();
        if Value::MATED_IN_MAX_PLY < self.0 && self.0 < Value::MATE_IN_MAX_PLY {
            push_char(&mut s, 'c');
            push_char(&mut s, 'p');
            push_char(&mut s, ' ');
            let x = self.0 * 100;
            let q = if x >= 0 { x / crate::piecevalue::PAWN_VALUE } else { -((-x) / crate::piecevalue::PAWN_VALUE) };
            push_decimal(&mut s, q as i64);
        } else {
            push_char(&mut s, 'm');
            push_char(&mut s, 'a');
            push_char(&mut s, 't');
            push_char(&mut s, 'e');
            push_char(&mut s, ' ');
            let n: i64 = if Value::ZERO < self.0 { (Value::MATE - self.0 + 1) as i64 } else { Value::MATED as i64 - self.0 as i64 };
            push_decimal(&mut s, n);
        }
        s
    }

    /// The score of giving mate in `ply` plies.
    pub fn mate_in(ply: i32) -> (r: Value)
        requires i32::MIN <= Value::MATE - ply <= i32::MAX,
        ensures r.0 == Value::MATE - ply,
    {
        Value(Value::MATE - ply)
    }

    /// The score of being mated in `ply` plies.
    pub fn mated_in(ply: i32) -> (r: Value)
        requires i32::MIN <= Value::MATED + ply <= i32::MAX,
        ensures r.0 == Value::MATED + ply,
    {
        Value(-Value::MATE + ply)
    }

    pub fn abs(self) -> (r: Self)
        requires self.0 != i32::MIN,
        ensures r.0 == if self.0 < 0 { -self.0 } else { self.0 as int },
    {
        Value(if self.0 < 0 { -self.0 } else { self.0 })
    }
}

/// A kind of piece, without its owner; `OCCUPIED` stands for any piece.
#[allow(non_camel_case_types)]
#[derive(Debug, Copy, Clone, PartialEq, Eq, Structural)]
pub enum PieceType {
    OCCUPIED,
    PAWN,
    LANCE,
    KNIGHT,
    SILVER,
    BISHOP,
    ROOK,
    GOLD,
    KING,
    PRO_PAWN,
    PRO_LANCE,
    PRO_KNIGHT,
    PRO_SILVER,
    HORSE,
    DRAGON,
}

impl PieceType {
    const PROMOTION: i32 = 8;
    pub const NUM: usize = 15;
    pub const HAND_NUM: usize = 8;
    const IS_SLIDER_VAL: u32 = (1 << 2) | (1 << 5) | (1 << 6) | (1 << 13) | (1 << 14);

    /// The kinds of piece that can be held in hand, in the order of SFEN.
    pub const ALL_HAND_FOR_SFEN: [PieceType; 7] = [PieceType::ROOK, PieceType::BISHOP, PieceType::GOLD, PieceType::SILVER, PieceType::KNIGHT, PieceType::LANCE, PieceType::PAWN];
    pub const ALL_HAND: [PieceType; 7] = [PieceType::PAWN, PieceType::LANCE, PieceType::KNIGHT, PieceType::SILVER, PieceType::BISHOP, PieceType::ROOK, PieceType::GOLD];

    /// The number that this value stands for.
    pub open spec fn val(self) -> int {
        match self {
            PieceType::OCCUPIED => 0,
            PieceType::PAWN => 1,
            PieceType::LANCE => 2,
            PieceType::KNIGHT => 3,
            PieceType::SILVER => 4,
            PieceType::BISHOP => 5,
            PieceType::ROOK => 6,
            PieceType::GOLD => 7,
            PieceType::KING => 8,
            PieceType::PRO_PAWN => 9,
            PieceType::PRO_LANCE => 10,
            PieceType::PRO_KNIGHT => 11,
            PieceType::PRO_SILVER => 12,
            PieceType::HORSE => 13,
            PieceType::DRAGON => 14,
        }
    }

    /// The value whose number is `i` (meaningful on the numbers that `val` takes).
    pub open spec fn from_val(i: int) -> PieceType {
        if i == 0 { PieceType::OCCUPIED } else
        if i == 1 { PieceType::PAWN } else
        if i == 2 { PieceType::LANCE } else
        if i == 3 { PieceType::KNIGHT } else
        if i == 4 { PieceType::SILVER } else
        if i == 5 { PieceType::BISHOP } else
        if i == 6 { PieceType::ROOK } else
        if i == 7 { PieceType::GOLD } else
        if i == 8 { PieceType::KING } else
        if i == 9 { PieceType::PRO_PAWN } else
        if i == 10 { PieceType::PRO_LANCE } else
        if i == 11 { PieceType::PRO_KNIGHT } else
        if i == 12 { PieceType::PRO_SILVER } else
        if i == 13 { PieceType::HORSE } else
        { PieceType::DRAGON }
    }

    pub broadcast proof fn lemma_from_val(x: PieceType)
        ensures #[trigger] PieceType::from_val(x.val()) == x,
    {
    }

    pub broadcast proof fn lemma_val_range(x: PieceType)
        ensures 0 <= #[trigger] x.val() && x.val() <= 14,
    {
    }

    /// The number that this value stands for.
    pub fn to_i32(self) -> (r: i32)
        ensures r == self.val(), 0 <= r <= 14,
    {
        match self {
            PieceType::OCCUPIED => 0,
            PieceType::PAWN => 1,
            PieceType::LANCE => 2,
            PieceType::KNIGHT => 3,
            PieceType::SILVER => 4,
            PieceType::BISHOP => 5,
            PieceType::ROOK => 6,
            PieceType::GOLD => 7,
            PieceType::KING => 8,
            PieceType::PRO_PAWN => 9,
            PieceType::PRO_LANCE => 10,
            PieceType::PRO_KNIGHT => 11,
            PieceType::PRO_SILVER => 12,
            PieceType::HORSE => 13,
            PieceType::DRAGON => 14,
        }
    }

    /// The value with number `i`.
    pub fn from_i32(i: i32) -> (r: PieceType)
        requires 0 <= i < 15,
        ensures r.val() == i,
    {
        match i {
            0 => PieceType::OCCUPIED,
            1 => PieceType::PAWN,
            2 => PieceType::LANCE,
            3 => PieceType::KNIGHT,
            4 => PieceType::SILVER,
            5 => PieceType::BISHOP,
            6 => PieceType::ROOK,
            7 => PieceType::GOLD,
            8 => PieceType::KING,
            9 => PieceType::PRO_PAWN,
            10 => PieceType::PRO_LANCE,
            11 => PieceType::PRO_KNIGHT,
            12 => PieceType::PRO_SILVER,
            13 => PieceType::HORSE,
            _ => PieceType::DRAGON,
        }
    }


    /// The kind of a piece (`OCCUPIED` for the empty square).
    pub fn new(pc: Piece) -> (r: PieceType)
        ensures r.val() == pc.val() % 16,
    {
        let x = pc.to_i32();
        assert(0 <= x < 31 ==> x & 15 == x % 16) by (bit_vector);
        PieceType::from_i32(x & (Piece::WHITE_BIT - 1))
    }

    /// Whether the piece slides any distance along a line: lance, bishop, rook, horse, dragon.
    pub open spec fn spec_is_slider(self) -> bool {
        self == PieceType::LANCE || self == PieceType::BISHOP || self == PieceType::ROOK
            || self == PieceType::HORSE || self == PieceType::DRAGON
    }

    pub fn is_slider(self) -> (r: bool)
        ensures r == self.spec_is_slider(),
    {
        let x = self.to_i32() as u32;
        assert(x < 15 ==> ((((1u32 << 2) | (1u32 << 5) | (1u32 << 6) | (1u32 << 13) | (1u32 << 14)) & (1u32 << x)) != 0
            <==> (x == 2 || x == 5 || x == 6 || x == 13 || x == 14))) by (bit_vector);
        (PieceType::IS_SLIDER_VAL & (1u32 << x)) != 0
    }

    /// Whether the kind can promote: pawn, lance, knight, silver, bishop, rook.
    pub open spec fn spec_is_promotable(self) -> bool {
        1 <= self.val() <= 6
    }

    pub fn is_promotable(self) -> (r: bool)
        ensures r == self.spec_is_promotable(),
    {
        matches!(
            self,
            PieceType::PAWN | PieceType::LANCE | PieceType::KNIGHT | PieceType::SILVER | PieceType::BISHOP | PieceType::ROOK
        )
    }

    /// The promoted kind.
    pub fn to_promote(self) -> (r: PieceType)
        requires self.spec_is_promotable(),
        ensures r.val() == self.val() + 8,
    {
        PieceType::from_i32(self.to_i32() + PieceType::PROMOTION)
    }

    /// The unpromoted kind (the kind itself if it is not promoted).
    pub fn to_demote_if_possible(self) -> (r: PieceType)
        requires self != PieceType::OCCUPIED && self != PieceType::KING,
        ensures r.val() == if self.val() > 8 { self.val() - 8 } else { self.val() },
    {
        match self {
            PieceType::PAWN | PieceType::PRO_PAWN => PieceType::PAWN,
            PieceType::LANCE | PieceType::PRO_LANCE => PieceType::LANCE,
            PieceType::KNIGHT | PieceType::PRO_KNIGHT => PieceType::KNIGHT,
            PieceType::SILVER | PieceType::PRO_SILVER => PieceType::SILVER,
            PieceType::BISHOP | PieceType::HORSE => PieceType::BISHOP,
            PieceType::ROOK | PieceType::DRAGON => PieceType::ROOK,
            _ => PieceType::GOLD,
        }
    }

    /// The kind in USI notation (`+` marks a promoted piece).
    pub open spec fn usi_chars(self) -> Seq<char> {
        match self {
            PieceType::OCCUPIED => Seq::empty(),
            PieceType::PAWN => seq!['P'],
            PieceType::LANCE => seq!['L'],
            PieceType::KNIGHT => seq!['N'],
            PieceType::SILVER => seq!['S'],
            PieceType::BISHOP => seq!['B'],
            PieceType::ROOK => seq!['R'],
            PieceType::GOLD => seq!['G'],
            PieceType::KING => seq!['K'],
            PieceType::PRO_PAWN => seq!['+', 'P'],
            PieceType::PRO_LANCE => seq!['+', 'L'],
            PieceType::PRO_KNIGHT => seq!['+', 'N'],
            PieceType::PRO_SILVER => seq!['+', 'S'],
            PieceType::HORSE => seq!['+', 'B'],
            PieceType::DRAGON => seq!['+', 'R'],
        }
    }

    pub fn to_usi_str(self) -> (r: &'static str)
        requires self != PieceType::OCCUPIED,
        ensures r@ == self.usi_chars(),
    {
        match self {
            PieceType::OCCUPIED => "",
            PieceType::PAWN => { proof { reveal_strlit("P"); } "P" },
            PieceType::LANCE => { proof { reveal_strlit("L"); } "L" },
            PieceType::KNIGHT => { proof { reveal_strlit("N"); } "N" },
            PieceType::SILVER => { proof { reveal_strlit("S"); } "S" },
            PieceType::BISHOP => { proof { reveal_strlit("B"); } "B" },
            PieceType::ROOK => { proof { reveal_strlit("R"); } "R" },
            PieceType::GOLD => { proof { reveal_strlit("G"); } "G" },
            PieceType::KING => { proof { reveal_strlit("K"); } "K" },
            PieceType::PRO_PAWN => { proof { reveal_strlit("+P"); } "+P" },
            PieceType::PRO_LANCE => { proof { reveal_strlit("+L"); } "+L" },
            PieceType::PRO_KNIGHT => { proof { reveal_strlit("+N"); } "+N" },
            PieceType::PRO_SILVER => { proof { reveal_strlit("+S"); } "+S" },
            PieceType::HORSE => { proof { reveal_strlit("+B"); } "+B" },
            PieceType::DRAGON => { proof { reveal_strlit("+R"); } "+R" },
        }
    }

    /// The kind in CSA notation, two letters.
    pub open spec fn csa_chars(self) -> Seq<char> {
        match self {
            PieceType::OCCUPIED => Seq::empty(),
            PieceType::PAWN => seq!['F', 'U'],
            PieceType::LANCE => seq!['K', 'Y'],
            PieceType::KNIGHT => seq!['K', 'E'],
            PieceType::SILVER => seq!['G', 'I'],
            PieceType::BISHOP => seq!['K', 'A'],
            PieceType::ROOK => seq!['H', 'I'],
            PieceType::GOLD => seq!['K', 'I'],
            PieceType::KING => seq!['O', 'U'],
            PieceType::PRO_PAWN => seq!['T', 'O'],
            PieceType::PRO_LANCE => seq!['N', 'Y'],
            PieceType::PRO_KNIGHT => seq!['N', 'K'],
            PieceType::PRO_SILVER => seq!['N', 'G'],
            PieceType::HORSE => seq!['U', 'M'],
            PieceType::DRAGON => seq!['R', 'Y'],
        }
    }

    pub fn to_csa_str(self) -> (r: &'static str)
        requires self != PieceType::OCCUPIED,
        ensures r@ == self.csa_chars(),
    {
        match self {
            PieceType::OCCUPIED => "",
            PieceType::PAWN => { proof { reveal_strlit("FU"); } "FU" },
            PieceType::LANCE => { proof { reveal_strlit("KY"); } "KY" },
            PieceType::KNIGHT => { proof { reveal_strlit("KE"); } "KE" },
            PieceType::SILVER => { proof { reveal_strlit("GI"); } "GI" },
            PieceType::BISHOP => { proof { reveal_strlit("KA"); } "KA" },
            PieceType::ROOK => { proof { reveal_strlit("HI"); } "HI" },
            PieceType::GOLD => { proof { reveal_strlit("KI"); } "KI" },
            PieceType::KING => { proof { reveal_strlit("OU"); } "OU" },
            PieceType::PRO_PAWN => { proof { reveal_strlit("TO"); } "TO" },
            PieceType::PRO_LANCE => { proof { reveal_strlit("NY"); } "NY" },
            PieceType::PRO_KNIGHT => { proof { reveal_strlit("NK"); } "NK" },
            PieceType::PRO_SILVER => { proof { reveal_strlit("NG"); } "NG" },
            PieceType::HORSE => { proof { reveal_strlit("UM"); } "UM" },
            PieceType::DRAGON => { proof { reveal_strlit("RY"); } "RY" },
        }
    }

    pub fn new_from_str_for_drop_move(s: &str) -> (r: Option<PieceType>)
        ensures r == piece_type_from_drop_chars(s@),
    {
        Self::parse_drop(s)
    }

    pub fn new_from_csa_str(s: &str) -> (r: Option<PieceType>)
        ensures r == piece_type_from_csa_chars(s@),
    {
        Self::parse_csa(s)
    }

    pub fn parse_drop(s: &str) -> (r: Option<PieceType>)
        ensures r == piece_type_from_drop_chars(s@),
    {
        let n = s.unicode_len();
        if n == 1 {
            let c = s.get_char(0);
            match c {
                'P' => Some(PieceType::PAWN),
                'L' => Some(PieceType::LANCE),
                'N' => Some(PieceType::KNIGHT),
                'S' => Some(PieceType::SILVER),
                'B' => Some(PieceType::BISHOP),
                'R' => Some(PieceType::ROOK),
                'G' => Some(PieceType::GOLD),
                'K' => Some(PieceType::KING),
                _ => None,
            }
        } else {
            None
        }
    }

    pub fn parse_csa(s: &str) -> (r: Option<PieceType>)
        ensures r == piece_type_from_csa_chars(s@),
    {
        let n = s.unicode_len();
        if n == 1 {
            let c = s.get_char(0);
            match c {
                _ => None,
            }
        } else if n == 2 {
            let c0 = s.get_char(0);
            let c1 = s.get_char(1);
            match (c0, c1) {
                ('F', 'U') => Some(PieceType::PAWN),
                ('K', 'Y') => Some(PieceType::LANCE),
                ('K', 'E') => Some(PieceType::KNIGHT),
                ('G', 'I') => Some(PieceType::SILVER),
                ('K', 'A') => Some(PieceType::BISHOP),
                ('H', 'I') => Some(PieceType::ROOK),
                ('K', 'I') => Some(PieceType::GOLD),
                ('O', 'U') => Some(PieceType::KING),
                ('T', 'O') => Some(PieceType::PRO_PAWN),
                ('N', 'Y') => Some(PieceType::PRO_LANCE),
                ('N', 'K') => Some(PieceType::PRO_KNIGHT),
                ('N', 'G') => Some(PieceType::PRO_SILVER),
                ('U', 'M') => Some(PieceType::HORSE),
                ('R', 'Y') => Some(PieceType::DRAGON),
                _ => None,
            }
        } else {
            None
        }
    }

}

/// The kind named by the piece letter of a USI drop move, such as `P` in `P*5e`.
pub open spec fn piece_type_from_drop_chars(s: Seq<char>) -> Option<PieceType> {
    if s.len() == 1 {
        match s[0] {
            'P' => Some(PieceType::PAWN),
            'L' => Some(PieceType::LANCE),
            'N' => Some(PieceType::KNIGHT),
            'S' => Some(PieceType::SILVER),
            'B' => Some(PieceType::BISHOP),
            'R' => Some(PieceType::ROOK),
            'G' => Some(PieceType::GOLD),
            'K' => Some(PieceType::KING),
            _ => None,
        }
    } else {
        None
    }
}

/// The kind named by a CSA piece code, such as `FU`.
pub open spec fn piece_type_from_csa_chars(s: Seq<char>) -> Option<PieceType> {
    if s.len() == 1 {
        match s[0] {
            _ => None,
        }
    } else if s.len() == 2 {
        match (s[0], s[1]) {
            ('F', 'U') => Some(PieceType::PAWN),
            ('K', 'Y') => Some(PieceType::LANCE),
            ('K', 'E') => Some(PieceType::KNIGHT),
            ('G', 'I') => Some(PieceType::SILVER),
            ('K', 'A') => Some(PieceType::BISHOP),
            ('H', 'I') => Some(PieceType::ROOK),
            ('K', 'I') => Some(PieceType::GOLD),
            ('O', 'U') => Some(PieceType::KING),
            ('T', 'O') => Some(PieceType::PRO_PAWN),
            ('N', 'Y') => Some(PieceType::PRO_LANCE),
            ('N', 'K') => Some(PieceType::PRO_KNIGHT),
            ('N', 'G') => Some(PieceType::PRO_SILVER),
            ('U', 'M') => Some(PieceType::HORSE),
            ('R', 'Y') => Some(PieceType::DRAGON),
            _ => None,
        }
    } else {
        None
    }
}

/// A piece with its owner (`B_` black, `W_` white), or `EMPTY` for an empty square.
#[allow(non_camel_case_types)]
#[derive(Debug, Copy, Clone, PartialEq, Eq, Structural)]
pub enum Piece {
    EMPTY,
    B_PAWN,
    B_LANCE,
    B_KNIGHT,
    B_SILVER,
    B_BISHOP,
    B_ROOK,
    B_GOLD,
    B_KING,
    B_PRO_PAWN,
    B_PRO_LANCE,
    B_PRO_KNIGHT,
    B_PRO_SILVER,
    B_HORSE,
    B_DRAGON,
    W_PAWN,
    W_LANCE,
    W_KNIGHT,
    W_SILVER,
    W_BISHOP,
    W_ROOK,
    W_GOLD,
    W_KING,
    W_PRO_PAWN,
    W_PRO_LANCE,
    W_PRO_KNIGHT,
    W_PRO_SILVER,
    W_HORSE,
    W_DRAGON,
}

impl Piece {
    pub const PROMOTION: i32 = 8;
    pub const WHITE_BIT_SHIFT: i32 = 4;
    pub const WHITE_BIT: i32 = 16;
    pub const NUM: usize = 31;

    /// The number that this value stands for.
    pub open spec fn val(self) -> int {
        match self {
            Piece::EMPTY => 0,
            Piece::B_PAWN => 1,
            Piece::B_LANCE => 2,
            Piece::B_KNIGHT => 3,
            Piece::B_SILVER => 4,
            Piece::B_BISHOP => 5,
            Piece::B_ROOK => 6,
            Piece::B_GOLD => 7,
            Piece::B_KING => 8,
            Piece::B_PRO_PAWN => 9,
            Piece::B_PRO_LANCE => 10,
            Piece::B_PRO_KNIGHT => 11,
            Piece::B_PRO_SILVER => 12,
            Piece::B_HORSE => 13,
            Piece::B_DRAGON => 14,
            Piece::W_PAWN => 17,
            Piece::W_LANCE => 18,
            Piece::W_KNIGHT => 19,
            Piece::W_SILVER => 20,
            Piece::W_BISHOP => 21,
            Piece::W_ROOK => 22,
            Piece::W_GOLD => 23,
            Piece::W_KING => 24,
            Piece::W_PRO_PAWN => 25,
            Piece::W_PRO_LANCE => 26,
            Piece::W_PRO_KNIGHT => 27,
            Piece::W_PRO_SILVER => 28,
            Piece::W_HORSE => 29,
            Piece::W_DRAGON => 30,
        }
    }

    /// The value whose number is `i` (meaningful on the numbers that `val` takes).
    pub open spec fn from_val(i: int) -> Piece {
        if i == 0 { Piece::EMPTY } else
        if i == 1 { Piece::B_PAWN } else
        if i == 2 { Piece::B_LANCE } else
        if i == 3 { Piece::B_KNIGHT } else
        if i == 4 { Piece::B_SILVER } else
        if i == 5 { Piece::B_BISHOP } else
        if i == 6 { Piece::B_ROOK } else
        if i == 7 { Piece::B_GOLD } else
        if i == 8 { Piece::B_KING } else
        if i == 9 { Piece::B_PRO_PAWN } else
        if i == 10 { Piece::B_PRO_LANCE } else
        if i == 11 { Piece::B_PRO_KNIGHT } else
        if i == 12 { Piece::B_PRO_SILVER } else
        if i == 13 { Piece::B_HORSE } else
        if i == 14 { Piece::B_DRAGON } else
        if i == 17 { Piece::W_PAWN } else
        if i == 18 { Piece::W_LANCE } else
        if i == 19 { Piece::W_KNIGHT } else
        if i == 20 { Piece::W_SILVER } else
        if i == 21 { Piece::W_BISHOP } else
        if i == 22 { Piece::W_ROOK } else
        if i == 23 { Piece::W_GOLD } else
        if i == 24 { Piece::W_KING } else
        if i == 25 { Piece::W_PRO_PAWN } else
        if i == 26 { Piece::W_PRO_LANCE } else
        if i == 27 { Piece::W_PRO_KNIGHT } else
        if i == 28 { Piece::W_PRO_SILVER } else
        if i == 29 { Piece::W_HORSE } else
        { Piece::W_DRAGON }
    }

    pub broadcast proof fn lemma_from_val(x: Piece)
        ensures #[trigger] Piece::from_val(x.val()) == x,
    {
    }

    pub broadcast proof fn lemma_val_range(x: Piece)
        ensures 0 <= #[trigger] x.val() && (x.val() <= 14 || 17 <= x.val() <= 30),
    {
    }

    /// The number that this value stands for.
    pub fn to_i32(self) -> (r: i32)
        ensures r == self.val(), (0 <= r <= 14 || 17 <= r <= 30),
    {
        match self {
            Piece::EMPTY => 0,
            Piece::B_PAWN => 1,
            Piece::B_LANCE => 2,
            Piece::B_KNIGHT => 3,
            Piece::B_SILVER => 4,
            Piece::B_BISHOP => 5,
            Piece::B_ROOK => 6,
            Piece::B_GOLD => 7,
            Piece::B_KING => 8,
            Piece::B_PRO_PAWN => 9,
            Piece::B_PRO_LANCE => 10,
            Piece::B_PRO_KNIGHT => 11,
            Piece::B_PRO_SILVER => 12,
            Piece::B_HORSE => 13,
            Piece::B_DRAGON => 14,
            Piece::W_PAWN => 17,
            Piece::W_LANCE => 18,
            Piece::W_KNIGHT => 19,
            Piece::W_SILVER => 20,
            Piece::W_BISHOP => 21,
            Piece::W_ROOK => 22,
            Piece::W_GOLD => 23,
            Piece::W_KING => 24,
            Piece::W_PRO_PAWN => 25,
            Piece::W_PRO_LANCE => 26,
            Piece::W_PRO_KNIGHT => 27,
            Piece::W_PRO_SILVER => 28,
            Piece::W_HORSE => 29,
            Piece::W_DRAGON => 30,
        }
    }

    /// The value with number `i`.
    pub fn from_i32(i: i32) -> (r: Piece)
        requires 0 <= i <= 14 || 17 <= i <= 30,
        ensures r.val() == i,
    {
        match i {
            0 => Piece::EMPTY,
            1 => Piece::B_PAWN,
            2 => Piece::B_LANCE,
            3 => Piece::B_KNIGHT,
            4 => Piece::B_SILVER,
            5 => Piece::B_BISHOP,
            6 => Piece::B_ROOK,
            7 => Piece::B_GOLD,
            8 => Piece::B_KING,
            9 => Piece::B_PRO_PAWN,
            10 => Piece::B_PRO_LANCE,
            11 => Piece::B_PRO_KNIGHT,
            12 => Piece::B_PRO_SILVER,
            13 => Piece::B_HORSE,
            14 => Piece::B_DRAGON,
            17 => Piece::W_PAWN,
            18 => Piece::W_LANCE,
            19 => Piece::W_KNIGHT,
            20 => Piece::W_SILVER,
            21 => Piece::W_BISHOP,
            22 => Piece::W_ROOK,
            23 => Piece::W_GOLD,
            24 => Piece::W_KING,
            25 => Piece::W_PRO_PAWN,
            26 => Piece::W_PRO_LANCE,
            27 => Piece::W_PRO_KNIGHT,
            28 => Piece::W_PRO_SILVER,
            29 => Piece::W_HORSE,
            _ => Piece::W_DRAGON,
        }
    }


    /// The piece of kind `pt` owned by `c`.
    pub fn new(c: Color, pt: PieceType) -> (r: Piece)
        requires !(c == Color::WHITE && pt == PieceType::OCCUPIED),
        ensures r.val() == 16 * c.val() + pt.val(),
    {
        let cv = c.to_i32();
        let pv = pt.to_i32();
        assert(0 <= cv < 2 && 0 <= pv < 15 ==> (cv << 4) | pv == 16 * cv + pv) by (bit_vector);
        Piece::from_i32((cv << 4) | pv)
    }

    /// The same kind of piece owned by the other side.
    pub fn inverse(self) -> (r: Piece)
        requires self != Piece::EMPTY,
        ensures r.val() == if self.val() < 16 { self.val() + 16 } else { self.val() - 16 },
    {
        let pt = PieceType::new(self);
        let c = Color::new(self);
        Piece::new(c.inverse(), pt)
    }

    /// Whether the piece can promote.
    pub open spec fn spec_is_promotable(self) -> bool {
        1 <= self.val() % 16 <= 6
    }

    pub fn is_promotable(self) -> (r: bool)
        ensures r == self.spec_is_promotable(),
    {
        matches!(
            self,
            Piece::B_PAWN | Piece::B_LANCE | Piece::B_KNIGHT | Piece::B_SILVER | Piece::B_BISHOP | Piece::B_ROOK
                | Piece::W_PAWN | Piece::W_LANCE | Piece::W_KNIGHT | Piece::W_SILVER | Piece::W_BISHOP | Piece::W_ROOK
        )
    }

    /// The promoted piece.
    pub fn to_promote(self) -> (r: Piece)
        requires self.spec_is_promotable(),
        ensures r.val() == self.val() + 8,
    {
        Piece::from_i32(self.to_i32() + Piece::PROMOTION)
    }

    /// The unpromoted piece of a promoted one.
    pub fn to_demote(self) -> (r: Piece)
        requires 9 <= self.val() % 16 <= 14,
        ensures r.val() == self.val() - 8,
    {
        Piece::from_i32(self.to_i32() - Piece::PROMOTION)
    }

    /// Whether the piece is a king.
    pub open spec fn is_king_spec(self) -> bool {
        self == Piece::B_KING || self == Piece::W_KING
    }

    pub fn is_king(self) -> (r: bool)
        ensures r == self.is_king_spec(),
    {
        PieceType::new(self) == PieceType::KING
    }

    /// The piece in USI (SFEN) notation: upper case for black, lower case for white.
    pub open spec fn usi_chars(self) -> Seq<char> {
        match self {
            Piece::EMPTY => seq![],
            Piece::B_PAWN => seq!['P'],
            Piece::B_LANCE => seq!['L'],
            Piece::B_KNIGHT => seq!['N'],
            Piece::B_SILVER => seq!['S'],
            Piece::B_BISHOP => seq!['B'],
            Piece::B_ROOK => seq!['R'],
            Piece::B_GOLD => seq!['G'],
            Piece::B_KING => seq!['K'],
            Piece::B_PRO_PAWN => seq!['+', 'P'],
            Piece::B_PRO_LANCE => seq!['+', 'L'],
            Piece::B_PRO_KNIGHT => seq!['+', 'N'],
            Piece::B_PRO_SILVER => seq!['+', 'S'],
            Piece::B_HORSE => seq!['+', 'B'],
            Piece::B_DRAGON => seq!['+', 'R'],
            Piece::W_PAWN => seq!['p'],
            Piece::W_LANCE => seq!['l'],
            Piece::W_KNIGHT => seq!['n'],
            Piece::W_SILVER => seq!['s'],
            Piece::W_BISHOP => seq!['b'],
            Piece::W_ROOK => seq!['r'],
            Piece::W_GOLD => seq!['g'],
            Piece::W_KING => seq!['k'],
            Piece::W_PRO_PAWN => seq!['+', 'p'],
            Piece::W_PRO_LANCE => seq!['+', 'l'],
            Piece::W_PRO_KNIGHT => seq!['+', 'n'],
            Piece::W_PRO_SILVER => seq!['+', 's'],
            Piece::W_HORSE => seq!['+', 'b'],
            Piece::W_DRAGON => seq!['+', 'r'],
        }
    }

    pub fn to_usi_str(self) -> (r: &'static str)
        ensures r@ == self.usi_chars(),
    {
        match self {
            Piece::EMPTY => { proof { reveal_strlit(""); } "" },
            Piece::B_PAWN => { proof { reveal_strlit("P"); } "P" },
            Piece::B_LANCE => { proof { reveal_strlit("L"); } "L" },
            Piece::B_KNIGHT => { proof { reveal_strlit("N"); } "N" },
            Piece::B_SILVER => { proof { reveal_strlit("S"); } "S" },
            Piece::B_BISHOP => { proof { reveal_strlit("B"); } "B" },
            Piece::B_ROOK => { proof { reveal_strlit("R"); } "R" },
            Piece::B_GOLD => { proof { reveal_strlit("G"); } "G" },
            Piece::B_KING => { proof { reveal_strlit("K"); } "K" },
            Piece::B_PRO_PAWN => { proof { reveal_strlit("+P"); } "+P" },
            Piece::B_PRO_LANCE => { proof { reveal_strlit("+L"); } "+L" },
            Piece::B_PRO_KNIGHT => { proof { reveal_strlit("+N"); } "+N" },
            Piece::B_PRO_SILVER => { proof { reveal_strlit("+S"); } "+S" },
            Piece::B_HORSE => { proof { reveal_strlit("+B"); } "+B" },
            Piece::B_DRAGON => { proof { reveal_strlit("+R"); } "+R" },
            Piece::W_PAWN => { proof { reveal_strlit("p"); } "p" },
            Piece::W_LANCE => { proof { reveal_strlit("l"); } "l" },
            Piece::W_KNIGHT => { proof { reveal_strlit("n"); } "n" },
            Piece::W_SILVER => { proof { reveal_strlit("s"); } "s" },
            Piece::W_BISHOP => { proof { reveal_strlit("b"); } "b" },
            Piece::W_ROOK => { proof { reveal_strlit("r"); } "r" },
            Piece::W_GOLD => { proof { reveal_strlit("g"); } "g" },
            Piece::W_KING => { proof { reveal_strlit("k"); } "k" },
            Piece::W_PRO_PAWN => { proof { reveal_strlit("+p"); } "+p" },
            Piece::W_PRO_LANCE => { proof { reveal_strlit("+l"); } "+l" },
            Piece::W_PRO_KNIGHT => { proof { reveal_strlit("+n"); } "+n" },
            Piece::W_PRO_SILVER => { proof { reveal_strlit("+s"); } "+s" },
            Piece::W_HORSE => { proof { reveal_strlit("+b"); } "+b" },
            Piece::W_DRAGON => { proof { reveal_strlit("+r"); } "+r" },
        }
    }

    /// The piece in CSA notation: `+` black or `-` white, then the kind.
    pub open spec fn csa_chars(self) -> Seq<char> {
        match self {
            Piece::EMPTY => seq![' ', '*', ' '],
            Piece::B_PAWN => seq!['+', 'F', 'U'],
            Piece::B_LANCE => seq!['+', 'K', 'Y'],
            Piece::B_KNIGHT => seq!['+', 'K', 'E'],
            Piece::B_SILVER => seq!['+', 'G', 'I'],
            Piece::B_BISHOP => seq!['+', 'K', 'A'],
            Piece::B_ROOK => seq!['+', 'H', 'I'],
            Piece::B_GOLD => seq!['+', 'K', 'I'],
            Piece::B_KING => seq!['+', 'O', 'U'],
            Piece::B_PRO_PAWN => seq!['+', 'T', 'O'],
            Piece::B_PRO_LANCE => seq!['+', 'N', 'Y'],
            Piece::B_PRO_KNIGHT => seq!['+', 'N', 'K'],
            Piece::B_PRO_SILVER => seq!['+', 'N', 'G'],
            Piece::B_HORSE => seq!['+', 'U', 'M'],
            Piece::B_DRAGON => seq!['+', 'R', 'Y'],
            Piece::W_PAWN => seq!['-', 'F', 'U'],
            Piece::W_LANCE => seq!['-', 'K', 'Y'],
            Piece::W_KNIGHT => seq!['-', 'K', 'E'],
            Piece::W_SILVER => seq!['-', 'G', 'I'],
            Piece::W_BISHOP => seq!['-', 'K', 'A'],
            Piece::W_ROOK => seq!['-', 'H', 'I'],
            Piece::W_GOLD => seq!['-', 'K', 'I'],
            Piece::W_KING => seq!['-', 'O', 'U'],
            Piece::W_PRO_PAWN => seq!['-', 'T', 'O'],
            Piece::W_PRO_LANCE => seq!['-', 'N', 'Y'],
            Piece::W_PRO_KNIGHT => seq!['-', 'N', 'K'],
            Piece::W_PRO_SILVER => seq!['-', 'N', 'G'],
            Piece::W_HORSE => seq!['-', 'U', 'M'],
            Piece::W_DRAGON => seq!['-', 'R', 'Y'],
        }
    }

    pub fn to_csa_str(self) -> (r: &'static str)
        ensures r@ == self.csa_chars(),
    {
        match self {
            Piece::EMPTY => { proof { reveal_strlit(" * "); } " * " },
            Piece::B_PAWN => { proof { reveal_strlit("+FU"); } "+FU" },
            Piece::B_LANCE => { proof { reveal_strlit("+KY"); } "+KY" },
            Piece::B_KNIGHT => { proof { reveal_strlit("+KE"); } "+KE" },
            Piece::B_SILVER => { proof { reveal_strlit("+GI"); } "+GI" },
            Piece::B_BISHOP => { proof { reveal_strlit("+KA"); } "+KA" },
            Piece::B_ROOK => { proof { reveal_strlit("+HI"); } "+HI" },
            Piece::B_GOLD => { proof { reveal_strlit("+KI"); } "+KI" },
            Piece::B_KING => { proof { reveal_strlit("+OU"); } "+OU" },
            Piece::B_PRO_PAWN => { proof { reveal_strlit("+TO"); } "+TO" },
            Piece::B_PRO_LANCE => { proof { reveal_strlit("+NY"); } "+NY" },
            Piece::B_PRO_KNIGHT => { proof { reveal_strlit("+NK"); } "+NK" },
            Piece::B_PRO_SILVER => { proof { reveal_strlit("+NG"); } "+NG" },
            Piece::B_HORSE => { proof { reveal_strlit("+UM"); } "+UM" },
            Piece::B_DRAGON => { proof { reveal_strlit("+RY"); } "+RY" },
            Piece::W_PAWN => { proof { reveal_strlit("-FU"); } "-FU" },
            Piece::W_LANCE => { proof { reveal_strlit("-KY"); } "-KY" },
            Piece::W_KNIGHT => { proof { reveal_strlit("-KE"); } "-KE" },
            Piece::W_SILVER => { proof { reveal_strlit("-GI"); } "-GI" },
            Piece::W_BISHOP => { proof { reveal_strlit("-KA"); } "-KA" },
            Piece::W_ROOK => { proof { reveal_strlit("-HI"); } "-HI" },
            Piece::W_GOLD => { proof { reveal_strlit("-KI"); } "-KI" },
            Piece::W_KING => { proof { reveal_strlit("-OU"); } "-OU" },
            Piece::W_PRO_PAWN => { proof { reveal_strlit("-TO"); } "-TO" },
            Piece::W_PRO_LANCE => { proof { reveal_strlit("-NY"); } "-NY" },
            Piece::W_PRO_KNIGHT => { proof { reveal_strlit("-NK"); } "-NK" },
            Piece::W_PRO_SILVER => { proof { reveal_strlit("-NG"); } "-NG" },
            Piece::W_HORSE => { proof { reveal_strlit("-UM"); } "-UM" },
            Piece::W_DRAGON => { proof { reveal_strlit("-RY"); } "-RY" },
        }
    }

    pub fn new_from_str(s: &str) -> (r: Option<Piece>)
        ensures r == piece_from_sfen_chars(s@),
    {
        Self::parse_board(s)
    }

    pub fn new_hand_piece_from_str(s: &str) -> (r: Option<Piece>)
        ensures r == hand_piece_from_sfen_chars(s@),
    {
        Self::parse_hand(s)
    }

    pub fn parse_board(s: &str) -> (r: Option<Piece>)
        ensures r == piece_from_sfen_chars(s@),
    {
        let n = s.unicode_len();
        if n == 1 {
            let c = s.get_char(0);
            match c {
                'P' => Some(Piece::B_PAWN),
                'p' => Some(Piece::W_PAWN),
                'L' => Some(Piece::B_LANCE),
                'l' => Some(Piece::W_LANCE),
                'N' => Some(Piece::B_KNIGHT),
                'n' => Some(Piece::W_KNIGHT),
                'S' => Some(Piece::B_SILVER),
                's' => Some(Piece::W_SILVER),
                'B' => Some(Piece::B_BISHOP),
                'b' => Some(Piece::W_BISHOP),
                'R' => Some(Piece::B_ROOK),
                'r' => Some(Piece::W_ROOK),
                'G' => Some(Piece::B_GOLD),
                'g' => Some(Piece::W_GOLD),
                'K' => Some(Piece::B_KING),
                'k' => Some(Piece::W_KING),
                _ => None,
            }
        } else if n == 2 {
            let c0 = s.get_char(0);
            let c1 = s.get_char(1);
            match (c0, c1) {
                ('+', 'P') => Some(Piece::B_PRO_PAWN),
                ('+', 'p') => Some(Piece::W_PRO_PAWN),
                ('+', 'L') => Some(Piece::B_PRO_LANCE),
                ('+', 'l') => Some(Piece::W_PRO_LANCE),
                ('+', 'N') => Some(Piece::B_PRO_KNIGHT),
                ('+', 'n') => Some(Piece::W_PRO_KNIGHT),
                ('+', 'S') => Some(Piece::B_PRO_SILVER),
                ('+', 's') => Some(Piece::W_PRO_SILVER),
                ('+', 'B') => Some(Piece::B_HORSE),
                ('+', 'b') => Some(Piece::W_HORSE),
                ('+', 'R') => Some(Piece::B_DRAGON),
                ('+', 'r') => Some(Piece::W_DRAGON),
                _ => None,
            }
        } else {
            None
        }
    }

    pub fn parse_hand(s: &str) -> (r: Option<Piece>)
        ensures r == hand_piece_from_sfen_chars(s@),
    {
        let n = s.unicode_len();
        if n == 1 {
            let c = s.get_char(0);
            match c {
                'P' => Some(Piece::B_PAWN),
                'p' => Some(Piece::W_PAWN),
                'L' => Some(Piece::B_LANCE),
                'l' => Some(Piece::W_LANCE),
                'N' => Some(Piece::B_KNIGHT),
                'n' => Some(Piece::W_KNIGHT),
                'S' => Some(Piece::B_SILVER),
                's' => Some(Piece::W_SILVER),
                'B' => Some(Piece::B_BISHOP),
                'b' => Some(Piece::W_BISHOP),
                'R' => Some(Piece::B_ROOK),
                'r' => Some(Piece::W_ROOK),
                'G' => Some(Piece::B_GOLD),
                'g' => Some(Piece::W_GOLD),
                'K' => Some(Piece::B_KING),
                'k' => Some(Piece::W_KING),
                _ => None,
            }
        } else {
            None
        }
    }

}

/// The piece named by an SFEN board token, such as `P`, `p` or `+P`.
pub open spec fn piece_from_sfen_chars(s: Seq<char>) -> Option<Piece> {
    if s.len() == 1 {
        match s[0] {
            'P' => Some(Piece::B_PAWN),
            'p' => Some(Piece::W_PAWN),
            'L' => Some(Piece::B_LANCE),
            'l' => Some(Piece::W_LANCE),
            'N' => Some(Piece::B_KNIGHT),
            'n' => Some(Piece::W_KNIGHT),
            'S' => Some(Piece::B_SILVER),
            's' => Some(Piece::W_SILVER),
            'B' => Some(Piece::B_BISHOP),
            'b' => Some(Piece::W_BISHOP),
            'R' => Some(Piece::B_ROOK),
            'r' => Some(Piece::W_ROOK),
            'G' => Some(Piece::B_GOLD),
            'g' => Some(Piece::W_GOLD),
            'K' => Some(Piece::B_KING),
            'k' => Some(Piece::W_KING),
            _ => None,
        }
    } else if s.len() == 2 {
        match (s[0], s[1]) {
            ('+', 'P') => Some(Piece::B_PRO_PAWN),
            ('+', 'p') => Some(Piece::W_PRO_PAWN),
            ('+', 'L') => Some(Piece::B_PRO_LANCE),
            ('+', 'l') => Some(Piece::W_PRO_LANCE),
            ('+', 'N') => Some(Piece::B_PRO_KNIGHT),
            ('+', 'n') => Some(Piece::W_PRO_KNIGHT),
            ('+', 'S') => Some(Piece::B_PRO_SILVER),
            ('+', 's') => Some(Piece::W_PRO_SILVER),
            ('+', 'B') => Some(Piece::B_HORSE),
            ('+', 'b') => Some(Piece::W_HORSE),
            ('+', 'R') => Some(Piece::B_DRAGON),
            ('+', 'r') => Some(Piece::W_DRAGON),
            _ => None,
        }
    } else {
        None
    }
}

/// The piece named by an SFEN hand token, a single letter.
pub open spec fn hand_piece_from_sfen_chars(s: Seq<char>) -> Option<Piece> {
    if s.len() == 1 {
        match s[0] {
            'P' => Some(Piece::B_PAWN),
            'p' => Some(Piece::W_PAWN),
            'L' => Some(Piece::B_LANCE),
            'l' => Some(Piece::W_LANCE),
            'N' => Some(Piece::B_KNIGHT),
            'n' => Some(Piece::W_KNIGHT),
            'S' => Some(Piece::B_SILVER),
            's' => Some(Piece::W_SILVER),
            'B' => Some(Piece::B_BISHOP),
            'b' => Some(Piece::W_BISHOP),
            'R' => Some(Piece::B_ROOK),
            'r' => Some(Piece::W_ROOK),
            'G' => Some(Piece::B_GOLD),
            'g' => Some(Piece::W_GOLD),
            'K' => Some(Piece::B_KING),
            'k' => Some(Piece::W_KING),
            _ => None,
        }
    } else {
        None
    }
}

/// The kind `PAWN` at the type level.
pub struct PawnType;

/// The kind `LANCE` at the type level.
pub struct LanceType;

/// The kind `KNIGHT` at the type level.
pub struct KnightType;

/// The kind `SILVER` at the type level.
pub struct SilverType;

/// The kind `BISHOP` at the type level.
pub struct BishopType;

/// The kind `ROOK` at the type level.
pub struct RookType;

/// The kind `GOLD` at the type level.
pub struct GoldType;

/// The kind `KING` at the type level.
pub struct KingType;

/// The kind `PRO_PAWN` at the type level.
pub struct ProPawnType;

/// The kind `PRO_LANCE` at the type level.
pub struct ProLanceType;

/// The kind `PRO_KNIGHT` at the type level.
pub struct ProKnightType;

/// The kind `PRO_SILVER` at the type level.
pub struct ProSilverType;

/// The kind `HORSE` at the type level.
pub struct HorseType;

/// The kind `DRAGON` at the type level.
pub struct DragonType;

/// A kind of piece given at the type level.
pub trait PieceTypeTrait {
    const PIECE_TYPE: PieceType;
}

impl PieceTypeTrait for PawnType {
    const PIECE_TYPE: PieceType = PieceType::PAWN;
}

impl PieceTypeTrait for LanceType {
    const PIECE_TYPE: PieceType = PieceType::LANCE;
}

impl PieceTypeTrait for KnightType {
    const PIECE_TYPE: PieceType = PieceType::KNIGHT;
}

impl PieceTypeTrait for SilverType {
    const PIECE_TYPE: PieceType = PieceType::SILVER;
}

impl PieceTypeTrait for BishopType {
    const PIECE_TYPE: PieceType = PieceType::BISHOP;
}

impl PieceTypeTrait for RookType {
    const PIECE_TYPE: PieceType = PieceType::ROOK;
}

impl PieceTypeTrait for GoldType {
    const PIECE_TYPE: PieceType = PieceType::GOLD;
}

impl PieceTypeTrait for KingType {
    const PIECE_TYPE: PieceType = PieceType::KING;
}

impl PieceTypeTrait for ProPawnType {
    const PIECE_TYPE: PieceType = PieceType::PRO_PAWN;
}

impl PieceTypeTrait for ProLanceType {
    const PIECE_TYPE: PieceType = PieceType::PRO_LANCE;
}

impl PieceTypeTrait for ProKnightType {
    const PIECE_TYPE: PieceType = PieceType::PRO_KNIGHT;
}

impl PieceTypeTrait for ProSilverType {
    const PIECE_TYPE: PieceType = PieceType::PRO_SILVER;
}

impl PieceTypeTrait for HorseType {
    const PIECE_TYPE: PieceType = PieceType::HORSE;
}

impl PieceTypeTrait for DragonType {
    const PIECE_TYPE: PieceType = PieceType::DRAGON;
}


/// A search depth in plies.
#[derive(Debug, Clone, Copy, PartialEq, Eq, Structural, PartialOrd, Ord)]
pub struct Depth(pub i32);

impl Depth {
    pub const ONE_PLY: i32 = 1;
    pub const ZERO: i32 = 0;
    pub const QS_CHECKS: i32 = 0;
    pub const QS_NO_CHECKS: i32 = -1;
    pub const QS_RECAPTURES: i32 = -5;
    pub const NONE: i32 = -6;
    pub const OFFSET: i32 = -7;
    pub const MAX: i32 = MAX_PLY;
}

/// A Zobrist hash key of a position; bit 0 tells the side to move.
#[derive(Clone, Copy, PartialEq, Eq, Structural, Hash, Debug)]
pub struct Key(pub u64);

/// A hash key without its side-to-move bit.
#[derive(Clone, Copy, PartialEq, Eq, Structural, Hash, Debug)]
pub struct KeyExcludedTurn(pub u64);

/// The multiplier and increment of the linear congruential step that `Key::make_key` uses.
pub const KEY_MULTIPLIER: u64 = 6364136223846793005;
pub const KEY_INCREMENT: u64 = 1442695040888963407;

proof fn lemma_lcg_step(seed: u64, m: u64, a: u64)
    requires
        m as int == (seed as int * KEY_MULTIPLIER as int) % 0x1_0000_0000_0000_0000,
        a as int == if m as int + KEY_INCREMENT as int > u64::MAX { m as int + KEY_INCREMENT as int - 0x1_0000_0000_0000_0000 } else { m as int + KEY_INCREMENT as int },
    ensures
        a as int == (seed as int * KEY_MULTIPLIER as int + KEY_INCREMENT as int) % 0x1_0000_0000_0000_0000,
{
    let big = 0x1_0000_0000_0000_0000int;
    let prod = seed as int * KEY_MULTIPLIER as int;
    vstd::arithmetic::div_mod::lemma_add_mod_noop(prod, KEY_INCREMENT as int, big);
    vstd::arithmetic::div_mod::lemma_small_mod(KEY_INCREMENT as nat, big as nat);
    let q = m as int + KEY_INCREMENT as int;
    if q >= big {
        vstd::arithmetic::div_mod::lemma_mod_sub_multiples_vanish(q, big);
        vstd::arithmetic::div_mod::lemma_small_mod((q - big) as nat, big as nat);
    } else {
        vstd::arithmetic::div_mod::lemma_small_mod(q as nat, big as nat);
    }
}

impl Key {
    /// One step of a 64-bit linear congruential generator, with bit 0 cleared.
    pub open spec fn spec_make_key(seed: u64) -> u64 {
        (((seed as int * KEY_MULTIPLIER as int + KEY_INCREMENT as int) % 0x1_0000_0000_0000_0000) as u64) & 0xffff_ffff_ffff_fffeu64
    }

    pub fn make_key(seed: u64) -> (r: Key)
        ensures r.0 == Key::spec_make_key(seed),
    {
        let m = seed.wrapping_mul(KEY_MULTIPLIER);
        let a = m.wrapping_add(KEY_INCREMENT);
        proof {
            lemma_lcg_step(seed, m, a);
            assert(!1u64 == 0xffff_ffff_ffff_fffeu64) by (bit_vector);
        }
        Key(a & !1u64)
    }

    pub fn excluded_turn(self) -> (r: KeyExcludedTurn)
        ensures r.0 == self.0 >> 1,
    {
        KeyExcludedTurn(self.0 >> 1)
    }

    pub fn turn_bit(self) -> (r: u64)
        ensures r == self.0 & 1,
    {
        self.0 & 1
    }
}

/// The number of the square that square `sq` becomes when the board is turned round.
pub open spec fn square_inverse(sq: int) -> int {
    80 - sq
}

/// The number of the square that square `sq` becomes when the files are mirrored.
pub open spec fn square_inverse_file(sq: int) -> int {
    (8 - sq / 9) * 9 + sq % 9
}

/// Turning the board round twice, or mirroring its files twice, gives back every square;
/// a square is the one of its own file and rank.
pub proof fn lemma_square_symmetries(sq: Square)
    ensures
        square_inverse(square_inverse(sq.val())) == sq.val(),
        square_inverse_file(square_inverse_file(sq.val())) == sq.val(),
        0 <= square_inverse(sq.val()) < 81,
        0 <= square_inverse_file(sq.val()) < 81,
        (sq.val() / 9) * 9 + sq.val() % 9 == sq.val(),
        Square::from_val((sq.val() / 9) * 9 + sq.val() % 9) == sq,
{
    broadcast use Square::lemma_val_range, Square::lemma_from_val;
    let v = sq.val();
    let w = square_inverse_file(v);
    assert(w / 9 == 8 - v / 9 && w % 9 == v % 9);
}

/// The relation of `from` and `to` seen from the other end: the same line, the other way.
pub open spec fn relation_reversed(r: Relation) -> Relation {
    match r {
        Relation::FILE_SN => Relation::FILE_NS,
        Relation::FILE_NS => Relation::FILE_SN,
        Relation::RANK_EW => Relation::RANK_WE,
        Relation::RANK_WE => Relation::RANK_EW,
        Relation::DIAG_NESW => Relation::DIAG_SWNE,
        Relation::DIAG_SWNE => Relation::DIAG_NESW,
        Relation::DIAG_NWSE => Relation::DIAG_SENW,
        Relation::DIAG_SENW => Relation::DIAG_NWSE,
        _ => r,
    }
}

/// Two different squares of one file are related along the file, of one rank along the
/// rank; a square has no relation to itself; and the relation seen from the other square is
/// the same line the other way.
pub proof fn lemma_relation_lines(from: Square, to: Square)
    ensures
        from == to ==> Relation::spec_new(from, to) == Relation::MISC,
        from != to && from.val() / 9 == to.val() / 9 ==> Relation::spec_new(from, to).is_file_spec(),
        from != to && from.val() % 9 == to.val() % 9 ==> Relation::spec_new(from, to).is_rank_spec(),
        Relation::spec_new(to, from) == relation_reversed(Relation::spec_new(from, to)),
{
    broadcast use Square::lemma_val_range, Square::lemma_from_val;
    if from != to {
        assert(from.val() != to.val()) by {
            Square::lemma_from_val(from);
            Square::lemma_from_val(to);
        }
        if from.val() / 9 == to.val() / 9 {
            assert(from.val() % 9 != to.val() % 9);
        }
    }
}

/// Turning a piece over twice gives back the piece.
pub proof fn lemma_piece_inverse_involution(pc: Piece)
    requires pc != Piece::EMPTY,
    ensures
        ({
            let once = if pc.val() < 16 { pc.val() + 16 } else { pc.val() - 16 };
            &&& (if once < 16 { once + 16 } else { once - 16 }) == pc.val()
            &&& (once < 16) != (pc.val() < 16)
        }),
{
    broadcast use Piece::lemma_val_range;
}

} // verus!
