use chess_threats::bitboard::BitBoard;
use chess_threats::chess_color::ChessColor;
use chess_threats::chess_piece::ChessPiece;
use chess_threats::constants::Constants;

#[test]
fn test_bitboard_start_board() {
    let board: [[u64; 6]; 2] = BitBoard::new().board;

    assert_eq!(board[ChessColor::White as usize][ChessPiece::Pawn as usize], 65_280, "White pawns.");
    assert_eq!(
        board[ChessColor::Black as usize][ChessPiece::Pawn as usize],
        71_776_119_061_217_280,
        "Black pawns."
    );

    assert_eq!(board[ChessColor::White as usize][ChessPiece::Rook as usize], 129, "White rooks.");
    assert_eq!(
        board[ChessColor::Black as usize][ChessPiece::Rook as usize],
        9_295_429_630_892_703_744,
        "Black rooks."
    );

    assert_eq!(board[ChessColor::White as usize][ChessPiece::Knight as usize], 66, "White knights.");
    assert_eq!(
        board[ChessColor::Black as usize][ChessPiece::Knight as usize],
        4_755_801_206_503_243_776,
        "Black knights."
    );

    assert_eq!(board[ChessColor::White as usize][ChessPiece::Bishop as usize], 36, "White bishops.");
    assert_eq!(
        board[ChessColor::Black as usize][ChessPiece::Bishop as usize],
        2_594_073_385_365_405_696,
        "Black bishops."
    );

    assert_eq!(board[ChessColor::White as usize][ChessPiece::Queen as usize], 16, "White queen.");
    assert_eq!(
        board[ChessColor::Black as usize][ChessPiece::Queen as usize],
        1_152_921_504_606_846_976,
        "Black queen."
    );

    assert_eq!(board[ChessColor::White as usize][ChessPiece::King as usize], 8, "White king.");
    assert_eq!(
        board[ChessColor::Black as usize][ChessPiece::King as usize],
        576_460_752_303_423_488,
        "Black king."
    );

    assert_eq!(
        board[0][0] + board[0][1] + board[0][2] + board[0][3] + board[0][4] + board[0][5]
            + board[1][0] + board[1][1] + board[1][2] + board[1][3] + board[1][4] + board[1][5],
        board[0][0] | board[0][1] | board[0][2] | board[0][3] | board[0][4] | board[0][5]
            | board[1][0] | board[1][1] | board[1][2] | board[1][3] + board[1][4] | board[1][5],
        "Check for overlapping pieces"
    )
}

#[test]
fn test_get_threatened_spaces_pawn() {
    let constants: Constants = Constants::new();
    let mut bitboard: BitBoard = BitBoard::new();
    bitboard.board = [[0; 6]; 2];
    bitboard.board[ChessColor::White as usize][ChessPiece::Pawn as usize] = 21_504;

    assert_eq!(bitboard.get_threatened_spaces(ChessColor::White, &constants), 11_141_120);
    assert_eq!(bitboard.get_threatened_spaces(ChessColor::Black, &constants), 0);

    bitboard.board[ChessColor::White as usize][ChessPiece::Pawn as usize] = 0;
    bitboard.board[ChessColor::Black as usize][ChessPiece::Pawn as usize] = 21_504;

    assert_eq!(bitboard.get_threatened_spaces(ChessColor::White, &constants), 0);
    assert_eq!(bitboard.get_threatened_spaces(ChessColor::Black, &constants), 170);
}

#[test]
fn test_get_threatened_spaces_rook() {
    let constants: Constants = Constants::new();
    let mut bitboard: BitBoard = BitBoard::new();
    bitboard.board = [[0; 6]; 2];
    bitboard.board[ChessColor::White as usize][ChessPiece::Rook as usize] = 35_184_376_284_160;

    assert_eq!(
        bitboard.get_threatened_spaces(ChessColor::White, &constants),
        7_234_152_523_743_886_180
    );
    assert_eq!(bitboard.get_threatened_spaces(ChessColor::Black, &constants), 0);

    bitboard.board[ChessColor::White as usize][ChessPiece::Rook as usize] = 0;
    bitboard.board[ChessColor::Black as usize][ChessPiece::Rook as usize] = 35_184_376_284_160;

    assert_eq!(bitboard.get_threatened_spaces(ChessColor::White, &constants), 0);
    assert_eq!(
        bitboard.get_threatened_spaces(ChessColor::Black, &constants),
        7_234_152_523_743_886_180
    );
}

#[test]
fn test_get_threatened_spaces_bishop() {
    let constants: Constants = Constants::new();
    let mut bitboard: BitBoard = BitBoard::new();
    bitboard.board = [[0; 6]; 2];
    bitboard.board[ChessColor::White as usize][ChessPiece::Bishop as usize] = 35_184_376_284_160;

    assert_eq!(
        bitboard.get_threatened_spaces(ChessColor::White, &constants),
        10_003_700_321_274_995_227
    );
    assert_eq!(bitboard.get_threatened_spaces(ChessColor::Black, &constants), 0);

    bitboard.board[ChessColor::White as usize][ChessPiece::Bishop as usize] = 0;
    bitboard.board[ChessColor::Black as usize][ChessPiece::Bishop as usize] = 35_184_376_284_160;

    assert_eq!(bitboard.get_threatened_spaces(ChessColor::White, &constants), 0);
    assert_eq!(
        bitboard.get_threatened_spaces(ChessColor::Black, &constants),
        10_003_700_321_274_995_227
    );
}

#[test]
fn test_get_threatened_spaces_knight() {
    let constants: Constants = Constants::new();
    let mut bitboard: BitBoard = BitBoard::new();
    bitboard.board = [[0; 6]; 2];
    bitboard.board[ChessColor::White as usize][ChessPiece::Knight as usize] = 35_184_376_284_160;

    assert_eq!(
        bitboard.get_threatened_spaces(ChessColor::White, &constants),
        5_802_888_842_932_457_649
    );
    assert_eq!(bitboard.get_threatened_spaces(ChessColor::Black, &constants), 0);

    bitboard.board[ChessColor::White as usize][ChessPiece::Knight as usize] = 0;
    bitboard.board[ChessColor::Black as usize][ChessPiece::Knight as usize] = 35_184_376_284_160;

    assert_eq!(bitboard.get_threatened_spaces(ChessColor::White, &constants), 0);
    assert_eq!(
        bitboard.get_threatened_spaces(ChessColor::Black, &constants),
        5_802_888_842_932_457_649
    );
}

#[test]
fn test_get_threatened_spaces_queen() {
    let constants: Constants = Constants::new();
    let mut bitboard: BitBoard = BitBoard::new();
    bitboard.board = [[0; 6]; 2];
    bitboard.board[ChessColor::White as usize][ChessPiece::Queen as usize] = 35_184_372_089_856;

    assert_eq!(
        bitboard.get_threatened_spaces(ChessColor::White, &constants),
        12_462_831_761_324_178_223
    );
    assert_eq!(bitboard.get_threatened_spaces(ChessColor::Black, &constants), 0);

    bitboard.board[ChessColor::White as usize][ChessPiece::Queen as usize] = 0;
    bitboard.board[ChessColor::Black as usize][ChessPiece::Queen as usize] = 35_184_372_089_856;

    assert_eq!(bitboard.get_threatened_spaces(ChessColor::White, &constants), 0);
    assert_eq!(
        bitboard.get_threatened_spaces(ChessColor::Black, &constants),
        12_462_831_761_324_178_223
    );
}

#[test]
fn test_get_threatened_spaces_king() {
    let constants: Constants = Constants::new();
    let mut bitboard: BitBoard = BitBoard::new();
    bitboard.board = [[0; 6]; 2];
    bitboard.board[ChessColor::White as usize][ChessPiece::King as usize] = 5_120;

    assert_eq!(bitboard.get_threatened_spaces(ChessColor::White, &constants), 4_074_046);
    assert_eq!(bitboard.get_threatened_spaces(ChessColor::Black, &constants), 0);

    bitboard.board[ChessColor::White as usize][ChessPiece::King as usize] = 0;
    bitboard.board[ChessColor::Black as usize][ChessPiece::King as usize] = 5_120;

    assert_eq!(bitboard.get_threatened_spaces(ChessColor::White, &constants), 0);
    assert_eq!(bitboard.get_threatened_spaces(ChessColor::Black, &constants), 4_074_046);
}

#[test]
fn test_get_threatened_spaces_mixed() {
    let constants: Constants = Constants::new();
    let bitboard: BitBoard = BitBoard::new();

    assert_eq!(bitboard.get_threatened_spaces(ChessColor::White, &constants), 16_777_086);
    assert_eq!(
        bitboard.get_threatened_spaces(ChessColor::Black, &constants),
        9_151_313_343_305_220_096
    );
}

#[test]
fn test_get_threatened_spaces_edge_pawns() {
    let constants: Constants = Constants::new();
    let mut bitboard: BitBoard = BitBoard::new();
    bitboard.board = [[0; 6]; 2];

    // A white pawn on square 8 (edge file) attacks only square 17, never
    // square 15 across the rank boundary.
    bitboard.board[ChessColor::White as usize][ChessPiece::Pawn as usize] = 1 << 8;
    assert_eq!(bitboard.get_threatened_spaces(ChessColor::White, &constants), 1 << 17);

    // A white pawn on square 15 (opposite edge file) attacks only square 22.
    bitboard.board[ChessColor::White as usize][ChessPiece::Pawn as usize] = 1 << 15;
    assert_eq!(bitboard.get_threatened_spaces(ChessColor::White, &constants), 1 << 22);

    bitboard.board[ChessColor::White as usize][ChessPiece::Pawn as usize] = 0;

    // A black pawn on square 15 attacks only square 6, never square 8.
    bitboard.board[ChessColor::Black as usize][ChessPiece::Pawn as usize] = 1 << 15;
    assert_eq!(bitboard.get_threatened_spaces(ChessColor::Black, &constants), 1 << 6);

    // A black pawn on square 8 attacks only square 1.
    bitboard.board[ChessColor::Black as usize][ChessPiece::Pawn as usize] = 1 << 8;
    assert_eq!(bitboard.get_threatened_spaces(ChessColor::Black, &constants), 1 << 1);
}

#[test]
fn test_occupied_spaces_start_board() {
    let bitboard: BitBoard = BitBoard::new();
    assert_eq!(bitboard.get_occupied_spaces(), 18_446_462_598_732_906_495);
}
