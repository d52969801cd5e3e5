use stockfish_rs::bitboard::{attacks_bb, lsb, popcount, square_bb};
use stockfish_rs::evaluate::{evaluate, evaluate_nnue};
use stockfish_rs::movegen::{generate_all_moves, generate_captures, generate_legal_moves, generate_quiets, MoveList};
use stockfish_rs::perft::{perft, perft_divide_counts};
use stockfish_rs::position::{Position, START_FEN};
use stockfish_rs::search::{Search, SearchInfo, SearchLimits};
use stockfish_rs::text::{parse_i32, parse_u32, parse_u64, parse_usize, str_chars};
use stockfish_rs::tt::{Bound, TranspositionTable};
use stockfish_rs::types::{Color, Move, Piece, PieceType, Square};
use stockfish_rs::uci::{
    apply_uci_moves, command_of, move_to_uci, parse_go, parse_uci_move, position_request, setoption_hash, words,
    Command, GoCommand, PositionStart,
};

const KIWIPETE: &str = "r3k2r/p1ppqpb1/bn2pnp1/3PN3/1p2P3/2N2Q1p/PPPBBPPP/R3K2R w KQkq - 0 1";

fn start() -> Position {
    Position::from_fen(START_FEN).unwrap()
}

#[test]
fn startpos_matches_start_fen() {
    assert_eq!(Position::startpos().to_fen(), START_FEN);
}

#[test]
fn fen_round_trip_kiwipete() {
    let pos = Position::from_fen(KIWIPETE).unwrap();
    assert_eq!(pos.to_fen(), KIWIPETE);
}

#[test]
fn fen_errors() {
    assert_eq!(Position::from_fen("").err().unwrap(), "Empty FEN string");
    assert_eq!(Position::from_fen("8/8/8 w - - 0 1").err().unwrap(), "FEN must have 8 ranks");
    assert_eq!(
        Position::from_fen("rnbqkbnr/pppppppp/8/8/8/8/PPPPPPPP/RNBQKBNR x KQkq - 0 1").err().unwrap(),
        "Invalid side to move: x"
    );
}

#[test]
fn fen_without_kings_is_refused_by_checked_reader() {
    assert!(Position::from_fen_checked("8/8/8/8/8/8/8/8 w - - 0 1").is_none());
    assert!(Position::from_fen("8/8/8/8/8/8/8/8 w - - 0 1").is_err());
    assert!(Position::from_fen("4k3/8/8/8/8/8/8/4K3 w - - 0 0").is_err());
    assert!(Position::from_fen_checked(START_FEN).unwrap().is_ok());
}

#[test]
fn move_encoding() {
    let m = Move::new(Square::E2, Square::E4);
    assert_eq!(m.from_sq(), Square::E2);
    assert_eq!(m.to_sq(), Square::E4);
    assert!(!m.is_promotion());
    let p = Move::new_promotion(Square::E7, Square::E8, PieceType::Queen);
    assert!(p.is_promotion());
    assert_eq!(p.promotion_type(), Some(PieceType::Queen));
    assert!(!Move::none().is_ok());
    assert!(!Move::null().is_ok());
}

#[test]
fn bitboard_basics() {
    assert_eq!(popcount(0xFF), 8);
    assert_eq!(lsb(square_bb(Square::D4)), Square::D4);
    assert_eq!(popcount(attacks_bb(PieceType::Knight, Square::A1, 0)), 2);
    assert_eq!(popcount(attacks_bb(PieceType::Rook, Square::A1, 0)), 14);
    assert_eq!(popcount(attacks_bb(PieceType::Queen, Square::D4, 0)), 27);
}

#[test]
fn legal_moves_from_start() {
    let pos = start();
    let mut list = MoveList::new();
    generate_legal_moves(&pos, &mut list);
    assert_eq!(list.len(), 20);
}

#[test]
fn perft_start_position() {
    let mut pos = start();
    assert_eq!(perft(&mut pos, 0), 1);
    assert_eq!(perft(&mut pos, 1), 20);
    assert_eq!(perft(&mut pos, 2), 400);
    assert_eq!(perft(&mut pos, 3), 8902);
    assert_eq!(pos.to_fen(), START_FEN);
}

#[test]
fn perft_depth_one_counts_legal_moves_kiwipete() {
    let mut pos = Position::from_fen(KIWIPETE).unwrap();
    let mut list = MoveList::new();
    generate_legal_moves(&pos, &mut list);
    assert_eq!(perft(&mut pos, 1), list.len() as u64);
    assert_eq!(list.len(), 48);
}

#[test]
fn perft_divide_sums_to_perft() {
    let mut pos = start();
    let counts = perft_divide_counts(&mut pos, 2);
    assert_eq!(counts.len(), 20);
    let total: u64 = counts.iter().map(|(_, n)| *n).sum();
    assert_eq!(total, 400);
    for (_, n) in &counts {
        assert_eq!(*n, 20);
    }
}

#[test]
fn evaluate_start_is_balanced() {
    let pos = start();
    assert_eq!(evaluate(&pos), 0);
    assert_eq!(evaluate_nnue(&pos), 0);
}

#[test]
fn evaluate_negates_with_side_to_move() {
    let w = Position::from_fen("rnbqkbnr/pppppppp/8/8/4P3/8/PPPP1PPP/RNBQKBNR w KQkq - 0 1").unwrap();
    let b = Position::from_fen("rnbqkbnr/pppppppp/8/8/4P3/8/PPPP1PPP/RNBQKBNR b KQkq - 0 1").unwrap();
    assert_ne!(evaluate(&w), 0);
    assert_eq!(evaluate(&w), -evaluate(&b));
}

#[test]
fn evaluate_extra_queen() {
    let pos = Position::from_fen("4k3/8/8/8/8/8/8/3QK3 w - - 0 1").unwrap();
    assert!(evaluate(&pos) > 900);
}

#[test]
fn tt_store_then_probe() {
    let mut tt = TranspositionTable::new(1);
    assert_eq!(tt.hashfull(), 0);
    assert!(tt.probe(0x1234_5678_9ABC_DEF0).is_none());
    let m = Move::new(Square::E2, Square::E4);
    tt.store(0x1234_5678_9ABC_DEF0, 55, 12, 4, m, Bound::Exact);
    let e = tt.probe(0x1234_5678_9ABC_DEF0).unwrap();
    assert_eq!(e.value(), 55);
    assert_eq!(e.eval(), 12);
    assert_eq!(e.depth(), 4);
    assert_eq!(e.get_move(), m);
    assert_eq!(e.bound(), Bound::Exact);
    tt.clear();
    assert!(tt.probe(0x1234_5678_9ABC_DEF0).is_none());
}

#[test]
fn tt_shallower_store_keeps_deeper_entry() {
    let mut tt = TranspositionTable::new(1);
    let key = 0xABCD_0000_0000_0001u64;
    tt.store(key, 10, 0, 10, Move::new(Square::A2, Square::A3), Bound::Lower);
    tt.store(key, 20, 0, 2, Move::new(Square::B2, Square::B3), Bound::Upper);
    let e = tt.probe(key).unwrap();
    assert_eq!(e.value(), 10);
    assert_eq!(e.depth(), 10);
    assert_eq!(e.bound(), Bound::Lower);
    tt.new_search();
    tt.store(key, 20, 0, 2, Move::new(Square::B2, Square::B3), Bound::Upper);
    assert_eq!(tt.probe(key).unwrap().value(), 20);
}

#[test]
fn tt_hashfull_counts_current_generation() {
    let mut tt = TranspositionTable::new(1);
    tt.store(0, 1, 0, 1, Move::none(), Bound::Exact);
    assert_eq!(tt.hashfull(), 0);
    tt.new_search();
    assert_eq!(tt.hashfull(), 0);
}

#[test]
fn uci_move_text() {
    assert_eq!(move_to_uci(Move::new(Square::E2, Square::E4)), "e2e4");
    assert_eq!(move_to_uci(Move::new_promotion(Square::E7, Square::E8, PieceType::Knight)), "e7e8n");
    assert_eq!(move_to_uci(Move::none()), "0000");
}

#[test]
fn uci_parse_moves() {
    let pos = start();
    assert_eq!(parse_uci_move(&pos, "e2e4").unwrap(), Move::new(Square::E2, Square::E4));
    assert_eq!(parse_uci_move(&pos, "g1f3").unwrap(), Move::new(Square::G1, Square::F3));
    assert_eq!(parse_uci_move(&pos, "e2").err().unwrap(), "Move string too short");
    assert_eq!(parse_uci_move(&pos, "z2e4").err().unwrap(), "Invalid square");
    assert_eq!(parse_uci_move(&pos, "e2e5").err().unwrap(), "Move e2e5 not legal in current position");
}

#[test]
fn uci_parse_promotion() {
    let pos = Position::from_fen("8/4P3/8/8/8/8/k7/4K3 w - - 0 1").unwrap();
    let m = parse_uci_move(&pos, "e7e8q").unwrap();
    assert_eq!(m.promotion_type(), Some(PieceType::Queen));
    let n = parse_uci_move(&pos, "e7e8n").unwrap();
    assert_eq!(n.promotion_type(), Some(PieceType::Knight));
    assert!(parse_uci_move(&pos, "e7e8").is_err());
}

#[test]
fn uci_commands() {
    assert_eq!(command_of("uci"), Command::Uci);
    assert_eq!(command_of("d"), Command::Display);
    assert_eq!(command_of("display"), Command::Display);
    assert_eq!(command_of("perfttest"), Command::PerftTest);
    assert_eq!(command_of("hello"), Command::Unknown);
    let w = words("  position startpos\tmoves e2e4  ");
    assert_eq!(w, vec!["position", "startpos", "moves", "e2e4"]);
}

#[test]
fn uci_position_requests() {
    let req = position_request(&["startpos", "moves", "e2e4", "e7e5"]).unwrap();
    assert!(matches!(req.start, PositionStart::StartPos));
    assert_eq!(req.moves_at, 2);
    let req = position_request(&["fen", "8/8/8/8/8/8/8/K6k", "w", "-", "-", "0", "1", "moves", "a1a2"]).unwrap();
    match req.start {
        PositionStart::Fen(f) => assert_eq!(f, "8/8/8/8/8/8/8/K6k w - - 0 1"),
        PositionStart::StartPos => panic!("expected a FEN"),
    }
    assert_eq!(req.moves_at, 8);
    assert!(position_request(&["nothing"]).is_none());
    assert!(position_request(&[]).is_none());
}

#[test]
fn uci_apply_moves() {
    let mut pos = start();
    assert!(apply_uci_moves(&mut pos, &["e2e4", "e7e5", "g1f3"]).is_none());
    assert_eq!(pos.to_fen(), "rnbqkbnr/pppp1ppp/8/4p3/4P3/5N2/PPPP1PPP/RNBQKB1R b KQkq - 1 2");
    let mut pos = start();
    let err = apply_uci_moves(&mut pos, &["e2e4", "e2e4"]).unwrap();
    assert_eq!(err.0, 1);
    assert_eq!(err.1, "Move e2e4 not legal in current position");
    assert_eq!(pos.side_to_move(), Color::Black);
}

#[test]
fn uci_go_arguments() {
    match parse_go(&["depth", "3", "nodes", "1000"]) {
        GoCommand::Search(l) => {
            assert_eq!(l.depth, Some(3));
            assert_eq!(l.nodes, Some(1000));
            assert!(l.movetime.is_none());
            assert!(!l.infinite);
        }
        GoCommand::Perft(_) => panic!("expected a search"),
    }
    match parse_go(&[]) {
        GoCommand::Search(l) => assert_eq!(l.depth, Some(6)),
        GoCommand::Perft(_) => panic!("expected a search"),
    }
    match parse_go(&["movetime", "50", "infinite"]) {
        GoCommand::Search(l) => {
            assert_eq!(l.movetime, Some(50));
            assert!(l.infinite);
        }
        GoCommand::Perft(_) => panic!("expected a search"),
    }
    assert!(matches!(parse_go(&["perft", "x", "perft", "4"]), GoCommand::Perft(4)));
    match parse_go(&["depth", "x"]) {
        GoCommand::Search(l) => assert_eq!(l.depth, Some(6)),
        GoCommand::Perft(_) => panic!("expected a search"),
    }
}

#[test]
fn uci_setoption_hash() {
    assert_eq!(setoption_hash(&["name", "Hash", "value", "32"]), Some(32));
    assert_eq!(setoption_hash(&["name", "hash", "value", "x"]), None);
    assert_eq!(setoption_hash(&["name", "Threads", "value", "2"]), None);
    assert_eq!(setoption_hash(&["name", "Hash"]), None);
}

#[test]
fn text_numbers() {
    assert_eq!(parse_i32(&str_chars("-5")), Some(-5));
    assert_eq!(parse_i32(&str_chars("+7")), Some(7));
    assert_eq!(parse_i32(&str_chars("-2147483648")), Some(i32::MIN));
    assert_eq!(parse_i32(&str_chars("2147483648")), None);
    assert_eq!(parse_i32(&str_chars("-")), None);
    assert_eq!(parse_u64(&str_chars("18446744073709551615")), Some(u64::MAX));
    assert_eq!(parse_u64(&str_chars("18446744073709551616")), None);
    assert_eq!(parse_u32(&str_chars("12")), Some(12));
    assert_eq!(parse_usize(&str_chars("1a")), None);
}

#[test]
fn search_finds_mate_in_one() {
    let mut pos = Position::from_fen("r5k1/8/8/8/8/8/5PPP/6K1 b - - 0 1").unwrap();
    let before = pos.to_fen();
    let mut search = Search::new(1);
    let mut info = SearchInfo::new(SearchLimits::default());
    let mut best_move = Move::none();
    let mut best_score = 0;
    search.tt.new_search();
    for depth in 1..=2 {
        assert!(search.search_iteration(&mut pos, depth, &mut info, &mut best_move, &mut best_score).is_some());
    }
    assert_eq!(move_to_uci(best_move), "a8a1");
    assert!(best_score > 20000);
    assert_eq!(pos.to_fen(), before);
}

#[test]
fn search_stops_at_node_limit() {
    let mut limits = SearchLimits::default();
    limits.nodes = Some(0);
    let mut info = SearchInfo::new(limits);
    assert!(info.should_stop());
    assert!(info.stopped);
    let mut pos = start();
    let mut search = Search::new(1);
    let mut best_move = Move::none();
    let mut best_score = 0;
    assert!(search.search_iteration(&mut pos, 1, &mut info, &mut best_move, &mut best_score).is_none());
    assert_eq!(best_move, Move::none());
}

#[test]
fn search_info_without_limits_runs_on() {
    let mut limits = SearchLimits::default();
    limits.depth = None;
    let mut info = SearchInfo::new(limits);
    assert!(!info.should_stop());
    assert!(!info.stopped);
}

#[test]
fn key_after_moves_matches_key_read_from_fen() {
    let mut pos = start();
    for text in ["e2e4", "e7e5", "g1f3", "b8c6", "f1b5"] {
        let m = parse_uci_move(&pos, text).unwrap();
        pos.do_move(m);
        let fresh = Position::from_fen(&pos.to_fen()).unwrap();
        assert_eq!(pos.key(), fresh.key());
    }
}

#[test]
fn undo_restores_key() {
    let mut pos = Position::from_fen(KIWIPETE).unwrap();
    let key = pos.key();
    let m = parse_uci_move(&pos, "d5e6").unwrap();
    pos.do_move(m);
    assert_ne!(pos.key(), key);
    pos.undo_move(m);
    assert_eq!(pos.key(), key);
    assert_eq!(pos.to_fen(), KIWIPETE);
}

#[test]
fn queenside_castling_is_undone() {
    let fen = "4k3/8/8/8/8/8/8/R3K2R w KQ - 0 1";
    let mut pos = Position::from_fen(fen).unwrap();
    let m = parse_uci_move(&pos, "e1a1").unwrap();
    assert!(m.is_castle());
    let key = pos.key();
    pos.do_move(m);
    assert_eq!(pos.piece_on(Square::C1).map(|p| p.piece_type()), Some(PieceType::King));
    assert_eq!(pos.key(), Position::from_fen(&pos.to_fen()).unwrap().key());
    pos.undo_move(m);
    assert_eq!(pos.to_fen(), fen);
    assert_eq!(pos.key(), key);
}

#[test]
fn move_text_reads_back_for_every_legal_move() {
    for fen in [START_FEN, KIWIPETE, "8/4P3/8/8/8/8/k7/4K3 w - - 0 1"] {
        let pos = Position::from_fen(fen).unwrap();
        let mut list = MoveList::new();
        generate_legal_moves(&pos, &mut list);
        for i in 0..list.len() {
            let m = list.get(i);
            let back = parse_uci_move(&pos, &move_to_uci(m)).unwrap();
            assert_eq!(back.from_sq(), m.from_sq());
            assert_eq!(back.to_sq(), m.to_sq());
            assert_eq!(back.promotion_type(), m.promotion_type());
        }
    }
}

#[test]
fn kingside_castling_moves_king_and_rook() {
    let mut pos = Position::from_fen("r3k2r/8/8/8/8/8/8/R3K2R w KQkq - 0 1").unwrap();
    let m = Move::new_castle(Square::E1, Square::H1);
    pos.do_move(m);
    assert_eq!(pos.to_fen(), "r3k2r/8/8/8/8/8/8/R4RK1 b kq - 1 1");
    assert_eq!(pos.piece_on(Square::G1).map(|p| p.piece_type()), Some(PieceType::King));
    assert_eq!(pos.piece_on(Square::F1).map(|p| p.piece_type()), Some(PieceType::Rook));
    assert_eq!(pos.piece_on(Square::H1), None);
    assert_eq!(pos.key(), Position::from_fen(&pos.to_fen()).unwrap().key());
    pos.undo_move(m);
    assert_eq!(pos.to_fen(), "r3k2r/8/8/8/8/8/8/R3K2R w KQkq - 0 1");
}

#[test]
fn queenside_castling_puts_rook_on_d1() {
    let mut pos = Position::from_fen("4k3/8/8/8/8/8/8/R3K2R w KQ - 0 1").unwrap();
    let m = parse_uci_move(&pos, "e1a1").unwrap();
    pos.do_move(m);
    assert_eq!(pos.to_fen(), "4k3/8/8/8/8/8/8/2KR3R b - - 1 1");
}

#[test]
fn pinned_piece_is_recorded() {
    let pos = Position::from_fen("4r1k1/8/8/8/8/8/4B3/4K3 w - - 0 1").unwrap();
    assert_eq!(pos.blockers_for_king(Color::White), square_bb(Square::E2));
    assert_eq!(pos.blockers_for_king(Color::Black), 0);
    assert_eq!(pos.pinners(Color::Black), square_bb(Square::E8));
    assert_eq!(pos.pinners(Color::White), 0);
    assert!(!pos.is_legal(Move::new(Square::E2, Square::D3)));
    let mut list = MoveList::new();
    generate_legal_moves(&pos, &mut list);
    assert_eq!(list.len(), 4);
}

#[test]
fn pawn_move_gives_check() {
    let pos = Position::from_fen("4k3/8/3P4/8/8/8/8/4K3 w - - 0 1").unwrap();
    assert!(pos.gives_check(Move::new(Square::D6, Square::D7)));
}

#[test]
fn threefold_repetition_is_found() {
    let mut pos = start();
    let cycle = [
        Move::new(Square::G1, Square::F3),
        Move::new(Square::G8, Square::F6),
        Move::new(Square::F3, Square::G1),
        Move::new(Square::F6, Square::G8),
    ];
    for m in cycle {
        pos.do_move(m);
    }
    assert!(!pos.is_repetition());
    for m in cycle {
        pos.do_move(m);
    }
    assert!(pos.is_repetition());
}

#[test]
fn en_passant_evasion_takes_the_checking_pawn() {
    let pos = Position::from_fen("8/8/8/2k5/3Pp3/8/8/4K3 b - d3 0 1").unwrap();
    let mut list = MoveList::new();
    generate_legal_moves(&pos, &mut list);
    let texts: Vec<String> = (0..list.len()).map(|i| move_to_uci(list.get(i))).collect();
    assert!(texts.contains(&"e4d3".to_string()));
}

#[test]
fn perft_deeper_counts() {
    let mut pos = start();
    assert_eq!(perft(&mut pos, 4), 197281);
    let mut pos = Position::from_fen(KIWIPETE).unwrap();
    assert_eq!(perft(&mut pos, 2), 2039);
    assert_eq!(perft(&mut pos, 3), 97862);
    assert_eq!(pos.to_fen(), KIWIPETE);
}

#[test]
fn king_move_is_legal_exactly_when_its_square_stays_unattacked() {
    // The black rook on a2 holds the second rank.
    let fen = "4k3/8/8/8/8/8/r7/4K3 w - - 0 1";
    for (to, legal) in [(Square::E2, false), (Square::D2, false), (Square::F1, true), (Square::D1, true)] {
        let m = Move::new(Square::E1, to);
        let mut pos = Position::from_fen(fen).unwrap();
        assert_eq!(pos.is_legal(m), legal);
        pos.do_move(m);
        let attacked = pos.attackers_to(to, pos.pieces()) & pos.pieces_c(Color::Black) != 0;
        assert_eq!(attacked, !legal);
    }
}

#[test]
fn en_passant_is_legal_exactly_when_the_king_stays_unattacked() {
    // Taking on c6 clears the fifth rank between the king on a5 and the rook on h5.
    let mut pos = Position::from_fen("8/8/8/KPp4r/8/8/8/4k3 w - c6 0 1").unwrap();
    let m = Move::new_en_passant(Square::B5, Square::C6);
    assert!(!pos.is_legal(m));
    pos.do_move(m);
    assert_ne!(pos.attackers_to(Square::A5, pos.pieces()) & pos.pieces_c(Color::Black), 0);
    // With the king on a4 the same capture is legal.
    let mut pos = Position::from_fen("8/8/8/1Pp4r/K7/8/8/4k3 w - c6 0 1").unwrap();
    assert!(pos.is_legal(m));
    pos.do_move(m);
    assert_eq!(pos.attackers_to(Square::A4, pos.pieces()) & pos.pieces_c(Color::Black), 0);
}

#[test]
fn captures_take_queen_promotions_and_quiets_the_underpromotions() {
    // The pawn on b7 can push to b8 or take the rook on a8.
    let pos = Position::from_fen("r3k3/1P6/8/8/8/8/8/4K3 w - - 0 1").unwrap();
    let texts = |quiet: bool| -> Vec<String> {
        let mut list = MoveList::new();
        if quiet {
            generate_quiets(&pos, &mut list);
        } else {
            generate_captures(&pos, &mut list);
        }
        (0..list.len()).map(|i| move_to_uci(list.get(i))).filter(|t| t.starts_with("b7")).collect()
    };
    let mut caps = texts(false);
    caps.sort();
    assert_eq!(caps, vec!["b7a8q".to_string(), "b7b8q".to_string()]);
    let mut quiets = texts(true);
    quiets.sort();
    let expected: Vec<String> =
        ["b7a8b", "b7a8n", "b7a8r", "b7b8b", "b7b8n", "b7b8r"].iter().map(|s| s.to_string()).collect();
    assert_eq!(quiets, expected);
}

#[test]
fn captures_and_quiets_together_are_all_moves() {
    // None of these positions is in check, so all moves are the non-evasions.
    for fen in [KIWIPETE, "r3k3/1P6/8/8/8/8/8/4K3 w - - 0 1", START_FEN, "8/8/8/KPp4r/8/8/8/4k3 w - c6 0 1"] {
        let pos = Position::from_fen(fen).unwrap();
        let texts = |list: &MoveList| -> Vec<String> { (0..list.len()).map(|i| move_to_uci(list.get(i))).collect() };
        let mut split = MoveList::new();
        generate_captures(&pos, &mut split);
        generate_quiets(&pos, &mut split);
        let mut all = MoveList::new();
        generate_all_moves(&pos, &mut all);
        let mut a = texts(&split);
        let mut b = texts(&all);
        a.sort();
        b.sort();
        assert_eq!(a, b);
    }
}

#[test]
fn board_views_agree_after_reading_and_moving() {
    let mut pos = Position::from_fen(KIWIPETE).unwrap();
    let mut list = MoveList::new();
    generate_legal_moves(&pos, &mut list);
    let m = list.get(0);
    for step in 0..2 {
        if step == 1 {
            pos.do_move(m);
        }
        assert_eq!(pos.pieces_c(Color::White) & pos.pieces_c(Color::Black), 0);
        for s in 0..64 {
            let sq = Square::from_index(s);
            for c in [Color::White, Color::Black] {
                for pt in [PieceType::Pawn, PieceType::Knight, PieceType::Bishop, PieceType::Rook, PieceType::Queen, PieceType::King] {
                    let on = pos.pieces_cp(c, pt) & square_bb(sq) != 0;
                    assert_eq!(on, pos.piece_on(sq) == Some(Piece::make(c, pt)));
                }
            }
        }
    }
}
