use apery::huffman_code::{
    hand_piece_from_huffman_code, piece_from_huffman_code, BitStreamReader, BitStreamWriter, GameResult,
    HuffmanCode, HuffmanCodeForFieldError, HuffmanCodeForHandError, HuffmanCodedPositionAndEval,
};
use apery::types::{Color, Piece, PieceType};

#[test]
fn test_huffmancodedpositionandeval_size() {
    assert_eq!(std::mem::size_of::<GameResult>(), 1);
    assert_eq!(std::mem::size_of::<HuffmanCodedPositionAndEval>(), 42);
}

#[test]
fn huffman_code_of_board_pieces_decodes_back() {
    for pc in [Piece::EMPTY, Piece::B_PAWN, Piece::W_GOLD, Piece::B_DRAGON, Piece::W_PRO_SILVER] {
        let hc = HuffmanCode::new(pc);
        assert_eq!(piece_from_huffman_code(&hc), Ok(pc));
    }
    let hc = HuffmanCode::new(Piece::B_PAWN);
    assert_eq!(hc.value, 0b1);
    assert_eq!(hc.bit_length, 4);
}

#[test]
fn huffman_code_of_hand_pieces_decodes_back() {
    let hc = HuffmanCode::new_from_color_and_hand_piece_type(Color::BLACK, PieceType::ROOK);
    assert_eq!(hc.value, 0b111111);
    assert_eq!(hc.bit_length, 7);
    assert_eq!(hand_piece_from_huffman_code(&hc), Ok((Color::BLACK, PieceType::ROOK)));
}

#[test]
fn huffman_code_errors() {
    let short = HuffmanCode { value: 0b11, bit_length: 2 };
    assert_eq!(piece_from_huffman_code(&short), Err(HuffmanCodeForFieldError::UndecidedYet));
    let long = HuffmanCode { value: 0, bit_length: 9 };
    assert_eq!(piece_from_huffman_code(&long), Err(HuffmanCodeForFieldError::OverMaxBitLength));
    let short = HuffmanCode { value: 0b1, bit_length: 1 };
    assert_eq!(hand_piece_from_huffman_code(&short), Err(HuffmanCodeForHandError::UndecidedYet));
    let long = HuffmanCode { value: 0, bit_length: 8 };
    assert_eq!(hand_piece_from_huffman_code(&long), Err(HuffmanCodeForHandError::OverMaxBitLength));
}

#[test]
fn bit_stream_reads_back_what_was_written() {
    let mut buf = [0u8; 4];
    {
        let mut w = BitStreamWriter::new(&mut buf);
        w.put_bit_from_lsb(1);
        w.put_bits_from_lsb(0b1010110, 7);
        w.put_bits_from_lsb(0b101, 3);
    }
    assert_eq!(buf[0], 0b1010_1101);
    let mut r = BitStreamReader::new(&buf);
    assert_eq!(r.get_bit_from_lsb(), 1);
    assert_eq!(r.get_bits_from_lsb(7), 0b1010110);
    assert_eq!(r.get_bits_from_lsb(3), 0b101);
}
