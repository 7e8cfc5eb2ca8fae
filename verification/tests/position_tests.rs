use apery::bitboard::{AttackTable, BetweenTable, Bitboard};
use apery::hand::Hand;
use apery::movetypes::Move;
use apery::huffman_code::HuffmanCodedPosition;
use apery::position::PositionBase;
use apery::sfen::{SfenError, START_SFEN};
use apery::types::{Color, Piece, PieceType, Square, Value};

fn parse(sfen: &str) -> Result<PositionBase, SfenError> {
    let args: Vec<&str> = sfen.split_whitespace().collect();
    PositionBase::new_from_sfen_args(args.as_slice())
}

#[test]
fn test_position_set() {
    let sfens = [
        "lnsgkgsnl/1r5b1/ppppppppp/9/9/9/PPPPPPPPP/1B5R1/LNSGKGSNL b - 1",
        "l6nl/5+P1gk/2np1S3/p1p4Pp/3P2Sp1/1PPb2P1P/P5GS1/R8/LN4bKL w RGgsn5p 1",
        "l4S2l/4g1gs1/5p1p1/pr2N1pkp/4Gn3/PP3PPPP/2GPP4/1K7/L3r+s2L w BS2N5Pb 20",
        "6n1l/2+S1k4/2lp4p/1np1B2b1/3PP4/1N1S3rP/1P2+pPP+p1/1p1G5/3KG2r1 b GSN2L4Pgs2p 399",
    ];
    for sfen in sfens.iter() {
        match parse(sfen) {
            Ok(pos) => assert_eq!(pos.to_sfen(), sfen.to_string()),
            Err(_) => assert_eq!("".to_string(), sfen.to_string()),
        }
    }

    let sfens = [
        (
            "l6nl/5+P1gk/2np1S3/p1p4Pp/3P2Sp1/1PPb2P1P/P5GS1/R8/LN4bKL w RRGgsn5p 1",
            Some(Piece::B_ROOK),
        ),
        (
            "l4S2l/4g1gs1/5p1p1/pr2N1pkp/4Gn3/PP3PPPP/2GPP4/1K7/L3r+s2L w BS2S2N5Pb 20",
            Some(Piece::B_SILVER),
        ),
        (
            "6n1l/2+S1k4/2lp4p/1np1B2b1/3PP4/1N1S3rP/1P2+pPP+p1/1p1G5/3KG2r1 b GSN2L4Pgss2p 399",
            Some(Piece::W_SILVER),
        ),
    ];
    for &(sfen, pc_twice) in sfens.iter() {
        match parse(sfen) {
            Ok(_) => assert_eq!("".to_string(), sfen.to_string()),
            Err(err) => match err {
                SfenError::SameHandPieceTwice { token } => {
                    assert_eq!(Piece::new_hand_piece_from_str(&token), pc_twice);
                }
                _ => panic!(),
            },
        }
    }

    let sfens = [
        (
            "lnsgkgsnl/1r5b1/ppppppppp/9/9/9/PPPPPPPPP/1B5R1/LNSG1GSNL b - 1",
            Color::BLACK,
        ),
        (
            "lnsg1gsnl/1r5b1/ppppppppp/9/9/9/PPPPPPPPP/1B5R1/LNSGKGSNL b - 1",
            Color::WHITE,
        ),
    ];
    for &(sfen, color_of_king_nothing) in sfens.iter() {
        match parse(sfen) {
            Ok(_) => assert_eq!("".to_string(), sfen.to_string()),
            Err(err) => match err {
                SfenError::KingIsNothing { c } => {
                    assert_eq!(c, color_of_king_nothing);
                }
                _ => panic!(),
            },
        }
    }

    let sfens = [
        ("l6nl/5+P1gk/2np1S3/p1p4Pp/3P2Sp1/1PPb2P1P/P5GS1/R8/LN4bKL w RGgsn5p9 1", 9),
        ("l6nl/5+P1gk/2np1S3/p1p4Pp/3P2Sp1/1PPb2P1P/P5GS1/R8/LN4bKL w RGgsn5p99 1", 99),
    ];
    for &(sfen, last_hand_number) in sfens.iter() {
        match parse(sfen) {
            Ok(_) => unreachable!(),
            Err(err) => match err {
                SfenError::EndWithHandPieceNumber { last_number } => {
                    assert_eq!(last_number, last_hand_number);
                }
                _ => unreachable!(),
            },
        }
    }
}

#[test]
fn test_start_position_board() {
    let pos = parse(START_SFEN).unwrap();
    assert_eq!(pos.side_to_move(), Color::BLACK);
    assert_eq!(pos.game_ply(), 1);
    assert_eq!(pos.king_square(Color::BLACK), Square::SQ59);
    assert_eq!(pos.king_square(Color::WHITE), Square::SQ51);
    assert_eq!(pos.piece_on(Square::SQ11), Piece::W_LANCE);
    assert_eq!(pos.piece_on(Square::SQ99), Piece::B_LANCE);
    assert_eq!(pos.piece_on(Square::SQ28), Piece::B_ROOK);
    assert_eq!(pos.piece_on(Square::SQ82), Piece::W_ROOK);
    assert_eq!(pos.piece_on(Square::SQ55), Piece::EMPTY);
    assert_eq!(pos.hand(Color::BLACK), Hand(0));
    assert_eq!(pos.occupied_bb().count_ones(), 40);
    assert_eq!(pos.empty_bb().count_ones(), 41);
    assert_eq!(pos.pieces_c(Color::WHITE).count_ones(), 20);
    assert_eq!(pos.pieces_p(PieceType::PAWN).count_ones(), 18);
    assert_eq!(pos.pieces_cp(Color::BLACK, PieceType::GOLD).count_ones(), 2);
    assert_eq!(pos.pieces_golds().count_ones(), 4);
    assert_eq!(pos.pieces_pp(PieceType::BISHOP, PieceType::ROOK).count_ones(), 4);
    assert!(pos.pieces_p(PieceType::KING).is_set(Square::SQ59));
}

#[test]
fn test_sfen_errors() {
    match PositionBase::new_from_sfen_args(&["9/9/9", "b", "-"]) {
        Err(SfenError::InvalidNumberOfSections { sections }) => assert_eq!(sections, 3),
        _ => panic!(),
    }
    match parse("4k4/9/9/9/9/9/9/4K4 b - 1") {
        Err(SfenError::InvalidNumberOfRanks { ranks }) => assert_eq!(ranks, 8),
        _ => panic!(),
    }
    match parse("4k5/9/9/9/9/9/9/9/4K4 b - 1") {
        Err(SfenError::InvalidNumberOfEmptySquares { empty_squares }) => assert_eq!(empty_squares, 5),
        _ => panic!(),
    }
    match parse("4k4P/9/9/9/9/9/9/9/4K4 b - 1") {
        Err(SfenError::InvalidNumberOfFiles { files }) => assert_eq!(files, 9),
        _ => panic!(),
    }
    match parse("4k3x/9/9/9/9/9/9/9/4K4 b - 1") {
        Err(SfenError::InvalidPieceCharactors { token }) => assert_eq!(token, "x"),
        _ => panic!(),
    }
    match parse("4k3+G/9/9/9/9/9/9/9/4K4 b - 1") {
        Err(SfenError::InvalidPieceCharactors { token }) => assert_eq!(token, "+G"),
        _ => panic!(),
    }
    match parse("4k4/9/9/9/9/9/9/9/4K4 x - 1") {
        Err(SfenError::InvalidSideToMoveCharactors { chars }) => assert_eq!(chars, "x"),
        _ => panic!(),
    }
    match parse("4k4/9/9/9/9/9/9/9/4K4 b 0P 1") {
        Err(SfenError::InvalidNumberOfHandPieces { number }) => assert_eq!(number, 0),
        _ => panic!(),
    }
    match parse("4k4/9/9/9/9/9/9/9/4K4 b 19P 1") {
        Err(SfenError::InvalidNumberOfPawns { number }) => assert_eq!(number, 19),
        _ => panic!(),
    }
    match parse("4k4/9/9/9/9/9/9/9/4K4 b 3R 1") {
        Err(SfenError::InvalidNumberOfRooks { number }) => assert_eq!(number, 3),
        _ => panic!(),
    }
    match parse("4k4/9/9/9/9/9/9/9/4K4 b X 1") {
        Err(SfenError::InvalidHandPieceCharactors { token }) => assert_eq!(token, "X"),
        _ => panic!(),
    }
    match parse("4k4/9/9/9/9/9/9/9/4K4 b - 0") {
        Err(SfenError::InvalidGamePly { chars }) => assert_eq!(chars, "0"),
        _ => panic!(),
    }
    match parse("4k4/9/9/9/9/9/9/9/4K4 b - x") {
        Err(SfenError::InvalidGamePly { chars }) => assert_eq!(chars, "x"),
        _ => panic!(),
    }
    // Pawns on the board and in hand count together.
    match parse("4k4/ppppppppp/9/9/9/9/PPPPPPPPP/9/4K4 b P 1") {
        Err(SfenError::InvalidNumberOfPawns { number }) => assert_eq!(number, 19),
        _ => panic!(),
    }
    match parse("4k4/9/9/9/9/9/9/GGGG5/4K4 b G 1") {
        Err(SfenError::InvalidNumberOfGolds { number }) => assert_eq!(number, 5),
        _ => panic!(),
    }
}

#[test]
fn test_sfen_lenient_forms() {
    // A short rank leaves the rest of it empty, and a ply may carry a plus sign.
    let pos = parse("4k/9/9/9/9/9/9/9/4K4 w - +12").unwrap();
    assert_eq!(pos.to_sfen(), "4k4/9/9/9/9/9/9/9/4K4 w - 12");
    // Extra arguments after the ply are not read.
    let pos = PositionBase::new_from_sfen_args(&["4k4/9/9/9/9/9/9/9/4K4", "b", "2P", "7", "moves"]).unwrap();
    assert_eq!(pos.hand(Color::BLACK).num(PieceType::PAWN), 2);
    assert_eq!(pos.to_sfen(), "4k4/9/9/9/9/9/9/9/4K4 b 2P 7");
}

#[test]
fn test_position_attackers_to() {
    let table = AttackTable::new();
    let sfens = ["lnsgkgsnl/1r5b1/ppppppppp/9/9/9/PPPPPPPPP/1B5R1/LNSGKGSNL b - 1"];
    for sfen in sfens.iter() {
        match parse(sfen) {
            Ok(pos) => {
                assert_eq!(pos.to_sfen(), sfen.to_string());
                let attackers = pos.attackers_to(Color::WHITE, Square::SQ52, &pos.occupied_bb(), &table);
                assert_eq!(attackers.count_ones(), 4);
                assert!(attackers.is_set(Square::SQ41));
                assert!(attackers.is_set(Square::SQ51));
                assert!(attackers.is_set(Square::SQ61));
                assert!(attackers.is_set(Square::SQ82));
            }
            Err(_) => assert_eq!("".to_string(), sfen.to_string()),
        }
    }
    let sfen = "k8/5+R3/3b1l3/4s4/5pg1+r/4GP3/5LN2/9/K4L3 b - 1";
    match parse(sfen) {
        Ok(pos) => {
            let to = Square::SQ45;
            let attackers = pos.attackers_to_both_color(to, &pos.occupied_bb(), &table);
            assert_eq!(attackers.count_ones(), 6);
            assert!(attackers.is_set(Square::SQ35));
            assert!(attackers.is_set(Square::SQ37));
            assert!(attackers.is_set(Square::SQ43));
            assert!(attackers.is_set(Square::SQ46));
            assert!(attackers.is_set(Square::SQ54));
            assert!(attackers.is_set(Square::SQ56));
        }
        Err(_) => assert_eq!("".to_string(), sfen.to_string()),
    }
}

#[test]
fn test_attackers_without_king_lance_pawn() {
    let table = AttackTable::new();
    let pos = parse("lnsgkgsnl/1r5b1/ppppppppp/9/9/9/PPPPPPPPP/1B5R1/LNSGKGSNL b - 1").unwrap();
    let occupied = pos.occupied_bb();
    // The white king on 5a defends 5b; without it three defenders stay.
    let attackers = pos.attackers_to_except_king(Color::WHITE, Square::SQ52, &occupied, &table);
    assert_eq!(attackers.count_ones(), 3);
    assert!(!attackers.is_set(Square::SQ51));
    // Only the lance on 9i defends 9h; leaving out lances and pawns leaves none.
    let attackers = pos.attackers_to(Color::BLACK, Square::SQ98, &occupied, &table);
    assert_eq!(attackers.count_ones(), 1);
    assert!(attackers.is_set(Square::SQ99));
    let attackers = pos.attackers_to_except_king_lance_pawn(Color::BLACK, Square::SQ98, &occupied, &table);
    assert_eq!(attackers.count_ones(), 0);
}

#[test]
fn test_position_slider_blockers() {
    let table = AttackTable::new();
    let between = BetweenTable::new();
    let sfen = "4k4/4l4/4P4/9/4K4/9/9/9/9 b - 1";
    match parse(sfen) {
        Ok(pos) => {
            assert_eq!(pos.to_sfen(), sfen.to_string());
            let blockers_and_pinners_for_king =
                pos.slider_blockers_and_pinners(Color::WHITE, pos.king_square(Color::BLACK), &table, &between);
            assert_eq!(blockers_and_pinners_for_king.0, Bitboard::square_mask(Square::SQ53));
            assert_eq!(blockers_and_pinners_for_king.1, Bitboard::square_mask(Square::SQ52));
        }
        Err(_) => assert_eq!("".to_string(), sfen.to_string()),
    }
}

#[test]
fn test_slider_blockers_of_other_side() {
    let table = AttackTable::new();
    let between = BetweenTable::new();
    // The white bishop on 9a aims at the black king on 5e through the white pawn on 7c: the pawn
    // blocks, but pins nothing of black. Two pieces between the rook on 5i and the king block nothing.
    let pos = parse("b3k4/9/2p6/9/4K4/9/4P4/4P4/4r4 b - 1").unwrap();
    let (blockers, pinners) = pos.slider_blockers_and_pinners(Color::WHITE, pos.king_square(Color::BLACK), &table, &between);
    assert_eq!(blockers, Bitboard::square_mask(Square::SQ73));
    assert_eq!(pinners.count_ones(), 0);
}

#[test]
fn test_huffman_code() {
    let pos = parse(START_SFEN).unwrap();
    let hcp = HuffmanCodedPosition::from(&pos);
    match PositionBase::new_from_huffman_coded_position(&hcp) {
        Ok(pos_from_hcp) => {
            let sfen = pos_from_hcp.to_sfen();
            assert_eq!(START_SFEN, &sfen);
        }
        Err(err) => {
            panic!("{:?}", err);
        }
    }
}

#[test]
fn test_huffman_code_with_black_hand() {
    // All forty pieces, some in black's hand: the packing fills the 256 bits exactly.
    let sfen = "lnsgkgsnl/1r5b1/ppppppppp/9/9/9/PPPPPPPPP/7R1/LNSGKGSNL w B 7";
    let pos = parse(sfen).unwrap();
    let hcp = HuffmanCodedPosition::from(&pos);
    assert_eq!(hcp.ply, 7);
    let decoded = PositionBase::new_from_huffman_coded_position(&hcp).unwrap();
    assert_eq!(decoded.to_sfen(), sfen);
}

#[test]
fn test_huffman_code_white_hand_read_as_black() {
    // The decoding reports every hand code as black's: white's bishop in hand comes back in black's hand.
    let pos = parse("lnsgkgsnl/1r7/ppppppppp/9/9/9/PPPPPPPPP/1B5R1/LNSGKGSNL b b 1").unwrap();
    let hcp = HuffmanCodedPosition::from(&pos);
    let decoded = PositionBase::new_from_huffman_coded_position(&hcp).unwrap();
    assert_eq!(decoded.to_sfen(), "lnsgkgsnl/1r7/ppppppppp/9/9/9/PPPPPPPPP/1B5R1/LNSGKGSNL b B 1");
}

#[test]
fn test_huffman_code_kings_and_side() {
    let pos = parse(START_SFEN).unwrap();
    let hcp = HuffmanCodedPosition::from(&pos);
    // Bit 0: black to move; bits 1 to 7: the black king's square (5i is square 44).
    assert_eq!(hcp.buf[0] & 1, 0);
    assert_eq!(hcp.buf[0] >> 1, 44);
}

#[test]
fn test_sfen_round_trip_keeps_position() {
    let sfens = [
        "lnsgkgsnl/1r5b1/ppppppppp/9/9/9/PPPPPPPPP/1B5R1/LNSGKGSNL b - 1",
        "8k/9/9/9/9/9/9/9/K8 w 2R2B4G4S4N4L18P 12345",
        "4k4/9/9/9/9/9/9/9/4K4 b - 2147483647",
    ];
    for sfen in sfens.iter() {
        let first = parse(sfen).ok().unwrap();
        let text = first.to_sfen();
        let second = parse(&text).ok().unwrap();
        assert_eq!(second.to_sfen(), text);
        let mut sq = Square::SQ11;
        for i in 0..81 {
            assert_eq!(first.piece_on(sq), second.piece_on(sq));
            if i < 80 {
                sq = sq.add_unchecked(1);
            }
        }
        assert_eq!(first.hand(Color::BLACK), second.hand(Color::BLACK));
        assert_eq!(first.hand(Color::WHITE), second.hand(Color::WHITE));
        assert_eq!(first.side_to_move(), second.side_to_move());
        assert_eq!(first.game_ply(), second.game_ply());
        assert_eq!(first.king_square(Color::BLACK), second.king_square(Color::BLACK));
        assert_eq!(first.king_square(Color::WHITE), second.king_square(Color::WHITE));
    }
}

#[test]
fn test_to_csa_string_start_position() {
    let pos = parse(START_SFEN).unwrap();
    let expected = [
        "'  9  8  7  6  5  4  3  2  1",
        "P1-KY-KE-GI-KI-OU-KI-GI-KE-KY",
        "P2 * -HI *  *  *  *  * -KA * ",
        "P3-FU-FU-FU-FU-FU-FU-FU-FU-FU",
        "P4 *  *  *  *  *  *  *  *  * ",
        "P5 *  *  *  *  *  *  *  *  * ",
        "P6 *  *  *  *  *  *  *  *  * ",
        "P7+FU+FU+FU+FU+FU+FU+FU+FU+FU",
        "P8 * +KA *  *  *  *  * +HI * ",
        "P9+KY+KE+GI+KI+OU+KI+GI+KE+KY",
        "+",
        "",
    ]
    .join("\n");
    assert_eq!(pos.to_csa_string(), expected);
}

#[test]
fn test_to_csa_string_with_hands() {
    let pos = parse("8k/9/9/9/9/9/9/9/K8 w 2Pr 1").unwrap();
    let expected = [
        "'  9  8  7  6  5  4  3  2  1",
        "P1 *  *  *  *  *  *  *  * -OU",
        "P2 *  *  *  *  *  *  *  *  * ",
        "P3 *  *  *  *  *  *  *  *  * ",
        "P4 *  *  *  *  *  *  *  *  * ",
        "P5 *  *  *  *  *  *  *  *  * ",
        "P6 *  *  *  *  *  *  *  *  * ",
        "P7 *  *  *  *  *  *  *  *  * ",
        "P8 *  *  *  *  *  *  *  *  * ",
        "P9+OU *  *  *  *  *  *  *  * ",
        "P+00FU00FU",
        "P-00HI",
        "-",
        "",
    ]
    .join("\n");
    assert_eq!(pos.to_csa_string(), expected);
}

fn see(sfen: &str, m: Move, threshold: i32) -> bool {
    let pos = parse(sfen).unwrap();
    let t = AttackTable::new();
    let between = BetweenTable::new();
    pos.see_ge(m, Value(threshold), &t, &between)
}

#[test]
fn test_see_ge_quiet_move() {
    let m = Move::new_unpromote(Square::SQ77, Square::SQ76, Piece::B_PAWN);
    assert!(see(START_SFEN, m, 0));
    assert!(!see(START_SFEN, m, 1));
}

#[test]
fn test_see_ge_defended_and_undefended_captures() {
    let m = Move::new_unpromote(Square::SQ59, Square::SQ55, Piece::B_ROOK);
    // The pawn is defended by the gold: the rook is lost for a pawn.
    let defended = "4k4/9/9/3g5/4p4/9/9/9/4R3K b - 1";
    assert!(!see(defended, m, 0));
    assert!(!see(defended, m, -1000));
    assert!(see(defended, m, -1800));
    assert!(!see(defended, m, -1799));
    // The same pawn alone.
    let alone = "4k4/9/9/9/4p4/9/9/9/4R3K b - 1";
    assert!(see(alone, m, 0));
    assert!(see(alone, m, 180));
    assert!(!see(alone, m, 181));
}

#[test]
fn test_see_ge_drop() {
    let m = Move::new_drop(Piece::B_PAWN, Square::SQ55);
    assert!(!see("4k4/9/9/3g5/9/9/9/9/8K b P 1", m, 0));
    assert!(see("4k4/9/9/9/9/9/9/9/8K b P 1", m, 0));
}

#[test]
fn test_see_ge_pinned_defender() {
    let m = Move::new_unpromote(Square::SQ35, Square::SQ43, Piece::B_KNIGHT);
    // The gold cannot take back: it shields its king from the rook.
    assert!(see("4k4/4g4/5p3/9/6N2/9/9/9/4R3K b - 1", m, 0));
    // Without the rook it takes back, and the knight is lost for a pawn.
    assert!(!see("4k4/4g4/5p3/9/6N2/9/9/9/8K b - 1", m, 0));
}

#[test]
fn test_see_ge_king_takes_back() {
    let m = Move::new_unpromote(Square::SQ53, Square::SQ52, Piece::B_GOLD);
    // The king takes the gold back.
    assert!(!see("4k4/4p4/4G4/9/9/9/9/9/8K b - 1", m, 0));
    // The lance behind the gold keeps the king from taking back.
    assert!(see("4k4/4p4/4G4/9/9/9/9/9/4L3K b - 1", m, 0));
}

#[test]
fn test_is_drop_pawn_mate() {
    let t = AttackTable::new();
    let between = BetweenTable::new();
    let mated = parse("8k/9/8G/9/9/9/9/9/K6R1 b P 1").unwrap();
    assert!(mated.is_drop_pawn_mate(Color::BLACK, Square::SQ12, &t, &between));
    // The king escapes to 2a.
    let escapes = parse("8k/9/8G/9/9/9/9/9/K8 b P 1").unwrap();
    assert!(!escapes.is_drop_pawn_mate(Color::BLACK, Square::SQ12, &t, &between));
    // The silver takes the pawn.
    let taken = parse("7sk/9/8G/9/9/9/9/9/K6R1 b P 1").unwrap();
    assert!(!taken.is_drop_pawn_mate(Color::BLACK, Square::SQ12, &t, &between));
    // Nothing backs the pawn up: the king takes it.
    let alone = parse("8k/9/9/9/9/9/9/9/K6R1 b P 1").unwrap();
    assert!(!alone.is_drop_pawn_mate(Color::BLACK, Square::SQ12, &t, &between));
}

fn pseudo_legal(sfen: &str, m: Move, searching: bool) -> bool {
    let pos = parse(sfen).unwrap();
    let t = AttackTable::new();
    let between = BetweenTable::new();
    pos.pseudo_legal(m, searching, &t, &between)
}

#[test]
fn test_pseudo_legal_board_moves() {
    let push = Move::new_unpromote(Square::SQ77, Square::SQ76, Piece::B_PAWN);
    assert!(pseudo_legal(START_SFEN, push, true));
    assert!(pseudo_legal(START_SFEN, push, false));
    // Two squares at once.
    assert!(!pseudo_legal(START_SFEN, Move::new_unpromote(Square::SQ77, Square::SQ75, Piece::B_PAWN), false));
    // Nothing stands on 5e.
    assert!(!pseudo_legal(START_SFEN, Move::new_unpromote(Square::SQ55, Square::SQ54, Piece::B_PAWN), false));
    // A white pawn, with black to move.
    assert!(!pseudo_legal(START_SFEN, Move::new_unpromote(Square::SQ33, Square::SQ34, Piece::W_PAWN), false));
    // The move names another piece than the one on the square.
    assert!(!pseudo_legal(START_SFEN, Move::new_unpromote(Square::SQ77, Square::SQ76, Piece::B_LANCE), false));
    // No piece in hand.
    assert!(!pseudo_legal(START_SFEN, Move::new_drop(Piece::B_PAWN, Square::SQ55), false));
}

#[test]
fn test_pseudo_legal_promotion_rules() {
    let sfen = "4k4/9/9/4P4/9/9/9/9/4K4 b - 1";
    let plain = Move::new_unpromote(Square::SQ54, Square::SQ53, Piece::B_PAWN);
    let promote = Move::new_promote(Square::SQ54, Square::SQ53, Piece::B_PAWN);
    assert!(!pseudo_legal(sfen, plain, true));
    assert!(pseudo_legal(sfen, plain, false));
    assert!(pseudo_legal(sfen, promote, true));
    assert!(pseudo_legal(sfen, promote, false));
    // A pawn may not stay unpromoted on the last rank.
    let last = Move::new_unpromote(Square::SQ52, Square::SQ51, Piece::B_PAWN);
    assert!(!pseudo_legal("k8/4P4/9/9/9/9/9/9/4K4 b - 1", last, false));
}

#[test]
fn test_pseudo_legal_in_check() {
    let sfen = "4k4/9/9/9/9/9/9/4r4/4K4 b G 1";
    assert!(!pseudo_legal(sfen, Move::new_unpromote(Square::SQ59, Square::SQ48, Piece::B_KING), false));
    assert!(pseudo_legal(sfen, Move::new_unpromote(Square::SQ59, Square::SQ49, Piece::B_KING), false));
    assert!(pseudo_legal(sfen, Move::new_unpromote(Square::SQ59, Square::SQ58, Piece::B_KING), false));
    // A drop does not answer the check of an adjacent rook.
    assert!(!pseudo_legal(sfen, Move::new_drop(Piece::B_GOLD, Square::SQ55), false));
    // A drop between the king and a distant rook does.
    let far = "4k4/9/9/4r4/9/9/9/9/4K4 b G 1";
    assert!(pseudo_legal(far, Move::new_drop(Piece::B_GOLD, Square::SQ56), false));
    assert!(!pseudo_legal(far, Move::new_drop(Piece::B_GOLD, Square::SQ46), false));
}

#[test]
fn test_pseudo_legal_pawn_drops() {
    let sfen = "4k4/9/9/9/9/9/4P4/9/4K4 b P 1";
    assert!(!pseudo_legal(sfen, Move::new_drop(Piece::B_PAWN, Square::SQ55), false));
    assert!(pseudo_legal(sfen, Move::new_drop(Piece::B_PAWN, Square::SQ45), false));
    let mate = "8k/9/8G/9/9/9/9/9/K6R1 b P 1";
    assert!(!pseudo_legal(mate, Move::new_drop(Piece::B_PAWN, Square::SQ12), false));
    assert!(pseudo_legal(mate, Move::new_drop(Piece::B_PAWN, Square::SQ35), false));
}

#[test]
fn test_move_is_capture() {
    let pos = parse("4k4/9/9/4p4/4P4/9/9/9/4K4 b - 1").unwrap();
    let take = Move::new_unpromote(Square::SQ55, Square::SQ54, Piece::B_PAWN);
    assert!(take.is_capture(&pos));
    assert!(take.is_capture_or_pawn_promotion(&pos));
    let quiet = Move::new_unpromote(Square::SQ59, Square::SQ49, Piece::B_KING);
    assert!(!quiet.is_capture(&pos));
    assert!(!quiet.is_capture_or_pawn_promotion(&pos));
    let promote = Move::new_promote(Square::SQ52, Square::SQ51, Piece::B_PAWN);
    let pos2 = parse("k8/4P4/9/9/9/9/9/9/4K4 b - 1").unwrap();
    assert!(!promote.is_capture(&pos2));
    assert!(promote.is_capture_or_pawn_promotion(&pos2));
}

#[test]
fn test_legal_pins_and_king_moves() {
    let t = AttackTable::new();
    let between = BetweenTable::new();
    let pinned = parse("k3r4/9/9/9/9/9/9/4G4/4K4 b - 1").unwrap();
    assert!(!pinned.legal(Move::new_unpromote(Square::SQ58, Square::SQ48, Piece::B_GOLD), &t, &between));
    assert!(pinned.legal(Move::new_unpromote(Square::SQ58, Square::SQ57, Piece::B_GOLD), &t, &between));
    assert!(pinned.legal(Move::new_unpromote(Square::SQ59, Square::SQ49, Piece::B_KING), &t, &between));
    let watched = parse("k4r3/9/9/9/9/9/9/4G4/4K4 b - 1").unwrap();
    assert!(!watched.legal(Move::new_unpromote(Square::SQ59, Square::SQ49, Piece::B_KING), &t, &between));
    assert!(watched.legal(Move::new_unpromote(Square::SQ58, Square::SQ48, Piece::B_GOLD), &t, &between));
    assert!(watched.legal(Move::new_drop(Piece::B_PAWN, Square::SQ55), &t, &between));
}

#[test]
fn test_gives_check() {
    let t = AttackTable::new();
    let between = BetweenTable::new();
    let start = parse(START_SFEN).unwrap();
    assert!(!start.gives_check(Move::new_unpromote(Square::SQ77, Square::SQ76, Piece::B_PAWN), &t, &between));
    let drops = parse("4k4/9/9/9/9/9/9/9/4K4 b G 1").unwrap();
    assert!(drops.gives_check(Move::new_drop(Piece::B_GOLD, Square::SQ52), &t, &between));
    assert!(!drops.gives_check(Move::new_drop(Piece::B_GOLD, Square::SQ53), &t, &between));
    let discovered = parse("4k4/9/9/9/9/9/9/4S4/4R3K b - 1").unwrap();
    assert!(discovered.gives_check(Move::new_unpromote(Square::SQ58, Square::SQ47, Piece::B_SILVER), &t, &between));
    assert!(!discovered.gives_check(Move::new_unpromote(Square::SQ58, Square::SQ57, Piece::B_SILVER), &t, &between));
    let knight = parse("4k4/9/9/5N3/9/9/9/9/4K4 b - 1").unwrap();
    assert!(!knight.gives_check(Move::new_unpromote(Square::SQ44, Square::SQ52, Piece::B_KNIGHT), &t, &between));
    assert!(knight.gives_check(Move::new_promote(Square::SQ44, Square::SQ52, Piece::B_KNIGHT), &t, &between));
}

#[test]
fn test_is_entering_king_win() {
    let t = AttackTable::new();
    let win = parse("1+P+P+P1+P+P+P1/1B2K2R1/2GG1GG2/9/9/9/9/9/4k4 b 8P 1").unwrap();
    assert!(win.is_entering_king_win(&t));
    // One point short.
    let short = parse("1+P+P+P1+P+P+P1/1B2K2R1/2GG1GG2/9/9/9/9/9/4k4 b 7P 1").unwrap();
    assert!(!short.is_entering_king_win(&t));
    // In check from the rook.
    let checked = parse("1+P+P+P1+P+P+P1/1B2K2R1/2GG1GG2/9/4r4/9/9/9/4k4 b 8P 1").unwrap();
    assert!(!checked.is_entering_king_win(&t));
    // The king is not in the far ranks.
    let outside = parse("1+P+P+P1+P+P+P1/1B5R1/2GG1GG2/4K4/9/9/9/9/4k4 b 8P 1").unwrap();
    assert!(!outside.is_entering_king_win(&t));
    assert!(!parse(START_SFEN).unwrap().is_entering_king_win(&t));
}

#[test]
fn test_see_ge_threshold_monotone() {
    let sfens = [
        ("4k4/9/9/3g5/4p4/9/9/9/4R3K b - 1", Move::new_unpromote(Square::SQ59, Square::SQ55, Piece::B_ROOK)),
        ("4k4/4g4/5p3/9/6N2/9/9/9/8K b - 1", Move::new_unpromote(Square::SQ35, Square::SQ43, Piece::B_KNIGHT)),
        ("4k4/4p4/4G4/9/9/9/9/9/4L3K b - 1", Move::new_unpromote(Square::SQ53, Square::SQ52, Piece::B_GOLD)),
    ];
    let tables = AttackTable::new();
    let between = BetweenTable::new();
    for (sfen, m) in sfens.iter() {
        let pos = parse(sfen).unwrap();
        let mut seen_false = false;
        let mut t = -3000;
        while t <= 3000 {
            let r = pos.see_ge(*m, Value(t), &tables, &between);
            assert!(!(seen_false && r));
            seen_false = seen_false || !r;
            t += 50;
        }
        assert!(seen_false);
    }
}

#[test]
fn test_pseudo_legal() {
    let sfen = "4k4/4l4/9/9/4K4/9/9/9/9 b - 1";
    let pos = parse(sfen).unwrap();
    let t = AttackTable::new();
    let between = BetweenTable::new();
    assert!(!pos.pseudo_legal(Move::new_unpromote(Square::SQ55, Square::SQ56, Piece::B_KING), true, &t, &between));
}

#[test]
fn test_position_gives_check() {
    const CHECK: bool = true;
    const NOT_CHECK: bool = false;
    let t = AttackTable::new();
    let between = BetweenTable::new();
    let array = [
        (
            "8k/9/9/9/9/9/9/9/K8 b Rr 1",
            vec![("R*1b", CHECK), ("R*1h", CHECK), ("R*2b", NOT_CHECK)],
        ),
        (
            "8k/9/9/9/9/9/9/9/K8 w Rr 1",
            vec![("R*9h", CHECK), ("R*9b", CHECK), ("R*8h", NOT_CHECK)],
        ),
        ("8k/9/9/9/9/9/9/8G/K7L b Rr 1", vec![("1h2h", CHECK), ("1h1g", NOT_CHECK)]),
    ];
    for (sfen, move_candidates) in array.iter() {
        let pos = parse(sfen).unwrap();
        for &(move_str, is_check) in move_candidates {
            let m = Move::new_from_usi_str(move_str, &pos, &t, &between);
            assert!(m.is_some());
            assert_eq!(pos.gives_check(m.unwrap(), &t, &between), is_check);
        }
    }
}

#[test]
fn test_move_new_from_usi_str() {
    let t = AttackTable::new();
    let between = BetweenTable::new();
    let pos = parse(START_SFEN).unwrap();
    let m = Move::new_from_usi_str("7g7f", &pos, &t, &between).unwrap();
    assert!(m == Move::new_unpromote(Square::SQ77, Square::SQ76, Piece::B_PAWN));
    assert!(Move::new_from_usi_str("7g7e", &pos, &t, &between).is_none());
    assert!(Move::new_from_usi_str("7g7f+", &pos, &t, &between).is_none());
    assert!(Move::new_from_usi_str("P*5e", &pos, &t, &between).is_none());
    assert!(Move::new_from_usi_str("7g", &pos, &t, &between).is_none());
    assert!(Move::new_from_usi_str("0g7f", &pos, &t, &between).is_none());
}

#[test]
fn sfen_digits_of_other_scripts_name_no_piece() {
    match parse("lnsgkgsnl/1r5b1/ppppppppp/9/9/\u{669}/PPPPPPPPP/1B5R1/LNSGKGSNL b - 1") {
        Err(SfenError::InvalidPieceCharactors { token }) => assert_eq!(token, "\u{669}"),
        _ => panic!("expected an invalid piece"),
    }
    match parse("lnsgkgsnl/1r5b1/ppppppppp/9/9/1\u{966}/PPPPPPPPP/1B5R1/LNSGKGSNL b - 1") {
        Err(SfenError::InvalidPieceCharactors { token }) => assert_eq!(token, "1\u{966}"),
        _ => panic!("expected an invalid piece"),
    }
    match parse("lnsgkgsnl/1r5b1/ppppppppp/9/9/9/PPPPPPPPP/1B5R1/LNSGKGSNL b \u{ff12}P 1") {
        Err(SfenError::InvalidHandPieceCharactors { token }) => assert_eq!(token, "\u{ff12}"),
        _ => panic!("expected an invalid hand piece"),
    }
    // Other characters are passed over.
    assert!(parse("lnsgkgsnl/1r5b1/ppppppppp/9/9/9/PPPPPPPPP/1B5R1/LNSGKGSNL b - 1").is_ok());
}
