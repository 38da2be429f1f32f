//! Positions, move generation and what moves do.

use shogi_ai::movegen::{
    apply_move, drop_allowed, gen_piece_moves, generate_legal_moves, is_in_check, to_move_input,
};
use shogi_ai::sfen::parse_sfen_hands;
use shogi_ai::text::{characters, decimal_text, is_blank, same, split_fields, split_words};
use shogi_ai::types::{
    hand_index, is_promotion_zone, must_promote, piece_base_value, piece_code,
    piece_kind_from_char, piece_promotable, side_index, GenMove, Piece, PieceKind, RuntimeRules,
    SearchState, Side, VectorRule,
};

const START: &str = "lnsgkgsnl/1r5b1/ppppppppp/9/9/9/PPPPPPPPP/1B5R1/LNSGKGSNL b - 1";

fn plain() -> RuntimeRules {
    RuntimeRules::default()
}

fn position(sfen: &str) -> SearchState {
    SearchState::from_sfen(sfen).expect("must parse")
}

fn legal(sfen: &str) -> Vec<GenMove> {
    generate_legal_moves(&position(sfen), &plain(), true)
}

fn targets(moves: &[GenMove], from: (usize, usize)) -> Vec<(usize, usize)> {
    let mut found: Vec<(usize, usize)> = moves
        .iter()
        .filter(|mv| mv.from == Some(from))
        .map(|mv| mv.to)
        .collect();
    found.sort();
    found.dedup();
    found
}

fn count(state: &SearchState, kind: PieceKind) -> usize {
    let on_board = state
        .board
        .iter()
        .filter(|p| p.map(|x| x.kind == kind).unwrap_or(false))
        .count();
    let in_hands = match hand_index(kind) {
        Some(k) => state.hands[0][k] as usize + state.hands[1][k] as usize,
        None => 0,
    };
    on_board + in_hands
}

const KINDS: [PieceKind; 8] = [
    PieceKind::Pawn,
    PieceKind::Lance,
    PieceKind::Knight,
    PieceKind::Silver,
    PieceKind::Gold,
    PieceKind::Bishop,
    PieceKind::Rook,
    PieceKind::King,
];

#[test]
fn parse_sfen_basic_position() {
    let sfen = "4k4/9/9/9/9/9/9/9/4K4 b - 1";
    let state = SearchState::from_sfen(sfen).expect("must parse");
    let kings = state
        .board
        .iter()
        .filter(|p| p.map(|x| x.kind == PieceKind::King).unwrap_or(false))
        .count();
    assert_eq!(kings, 2);
}

#[test]
fn generate_moves_from_sfen_produces_candidates() {
    let sfen = "4k4/9/9/9/9/9/9/4P4/4K4 b - 1";
    let state = SearchState::from_sfen(sfen).expect("must parse");
    let moves = generate_legal_moves(&state, &RuntimeRules::default(), true);
    assert!(!moves.is_empty());
}

#[test]
fn nifu_drop_is_filtered() {
    let sfen = "4k4/9/9/9/9/9/4P4/9/4K4 b P 1";
    let state = SearchState::from_sfen(sfen).expect("must parse");
    let moves = generate_legal_moves(&state, &RuntimeRules::default(), true);
    let has_same_file_pawn_drop = moves
        .iter()
        .any(|m| m.drop == Some(PieceKind::Pawn) && m.to.1 == 4);
    assert!(!has_same_file_pawn_drop);
}

#[test]
fn legal_moves_filter_out_self_check() {
    let sfen = "4k4/9/9/9/9/9/9/4r4/4K4 b - 1";
    let state = SearchState::from_sfen(sfen).expect("must parse");
    let moves = generate_legal_moves(&state, &RuntimeRules::default(), true);
    assert!(moves.iter().all(|m| {
        let next = apply_move(&state, m);
        !is_in_check(&next, Side::Black, &RuntimeRules::default())
    }));
}

#[test]
fn the_start_position_is_read() {
    let state = position(START);
    assert_eq!(state.side_to_move, Side::Black);
    assert_eq!(
        state.board[9 + 1],
        Some(Piece {
            side: Side::White,
            kind: PieceKind::Rook,
            promoted: false
        })
    );
    assert_eq!(
        state.board[7 * 9 + 1],
        Some(Piece {
            side: Side::Black,
            kind: PieceKind::Bishop,
            promoted: false
        })
    );
    assert_eq!(state.board[4 * 9 + 4], None);
    assert_eq!(state.hands, [[0; 7]; 2]);
    for (kind, number) in [
        (PieceKind::Pawn, 18),
        (PieceKind::Lance, 4),
        (PieceKind::Rook, 2),
        (PieceKind::King, 2),
    ] {
        assert_eq!(count(&state, kind), number);
    }
}

#[test]
fn promoted_pieces_sides_and_hands_are_read() {
    let state = position("  +P7k/9/9/9/9/9/9/9/K7+r\tw\n2P3pbG\u{3000}99 ");
    assert_eq!(
        state.board[0],
        Some(Piece {
            side: Side::Black,
            kind: PieceKind::Pawn,
            promoted: true
        })
    );
    assert_eq!(
        state.board[80],
        Some(Piece {
            side: Side::White,
            kind: PieceKind::Rook,
            promoted: true
        })
    );
    assert_eq!(state.side_to_move, Side::White);
    assert_eq!(state.hands[0], [2, 0, 0, 0, 1, 0, 0]);
    assert_eq!(state.hands[1], [3, 0, 0, 0, 0, 1, 0]);
}

#[test]
fn hands_may_be_left_out_and_ranks_too() {
    let state = position("4k4 x");
    assert_eq!(state.side_to_move, Side::White);
    assert_eq!(state.hands, [[0; 7]; 2]);
    assert_eq!(state.board.iter().filter(|p| p.is_some()).count(), 1);
}

#[test]
fn numbers_in_hand_are_cut_to_the_counter() {
    assert_eq!(position("9 b 255P").hands[0][0], 255);
    assert_eq!(position("9 b 200P100P").hands[0][0], 255);
    assert_eq!(position("9 b 300P").hands[0][0], 44);
    assert_eq!(position("9 b 4294967299P").hands[0][0], 3);
    assert_eq!(position("9 b 0P5").hands[0][0], 1);
}

#[test]
fn each_fault_in_a_position_has_its_message() {
    for (sfen, message) in [
        ("", "missing board"),
        (" \t", "missing board"),
        ("9", "missing side"),
        ("9/9/9/9/9/9/9/9/9/9 b", "too many ranks"),
        ("8+ b", "invalid promoted piece"),
        ("99K b", "column overflow"),
        ("9K b", "column overflow"),
        ("8x b", "invalid piece"),
        ("8++ b", "invalid piece"),
        ("8 b", "rank width mismatch"),
        ("91 b", "rank width mismatch"),
        ("/9 b", "rank width mismatch"),
        ("9 b x", "invalid hand piece"),
        ("9 b P-", "invalid hand piece"),
        ("9 b 2K", "king cannot be in hand"),
        ("9 b Pk", "king cannot be in hand"),
    ] {
        assert_eq!(
            SearchState::from_sfen(sfen).err(),
            Some(message.to_string()),
            "{sfen}"
        );
    }
}

#[test]
fn only_the_first_three_words_count() {
    let a = position("4k4/9/9/9/9/9/9/9/4K4 b P 1");
    let b = position("4k4/9/9/9/9/9/9/9/4K4  b  P  x y z");
    assert_eq!(a.board, b.board);
    assert_eq!(a.hands, b.hands);
    assert_eq!(a.side_to_move, b.side_to_move);
}

#[test]
fn white_space_is_what_unicode_says() {
    for code in 0..=0x10ffff_u32 {
        if let Some(c) = char::from_u32(code) {
            assert_eq!(is_blank(c), c.is_whitespace(), "{code}");
        }
    }
}

#[test]
fn texts_are_split_as_by_the_standard_library() {
    for s in ["", " ", "a", " a  bc\td ", "/", "a//b/", "日本 語/x"] {
        let words: Vec<String> = split_words(&characters(s))
            .iter()
            .map(|w| w.iter().collect())
            .collect();
        let expected: Vec<&str> = s.split_whitespace().collect();
        assert_eq!(words, expected, "{s}");
        let fields: Vec<String> = split_fields(&characters(s), '/')
            .iter()
            .map(|w| w.iter().collect())
            .collect();
        let expected: Vec<&str> = s.split('/').collect();
        assert_eq!(fields, expected, "{s}");
    }
    assert!(same("ab", "ab"));
    assert!(!same("ab", "abc"));
    for n in [0, 9, 10, 4_294_967_295] {
        assert_eq!(decimal_text(n), n.to_string());
    }
}

#[test]
fn the_start_position_has_thirty_moves() {
    let state = position(START);
    let moves = generate_legal_moves(&state, &plain(), true);
    assert_eq!(moves.len(), 30);
    let mut second = 0;
    for mv in &moves {
        second += generate_legal_moves(&apply_move(&state, mv), &plain(), true).len();
    }
    assert_eq!(second, 900);
}

#[test]
fn three_moves_deep_the_count_is_known() {
    let state = position(START);
    let mut third = 0;
    for first in generate_legal_moves(&state, &plain(), true) {
        let next = apply_move(&state, &first);
        for second in generate_legal_moves(&next, &plain(), true) {
            third += generate_legal_moves(&apply_move(&next, &second), &plain(), true).len();
        }
    }
    assert_eq!(third, 25470);
}

#[test]
fn sliding_pieces_stop_at_the_first_piece() {
    let moves = legal("k8/9/9/4p4/9/2P1R3n/9/9/K8 b - 1");
    assert_eq!(
        targets(&moves, (5, 4)),
        vec![
            (3, 4),
            (4, 4),
            (5, 3),
            (5, 5),
            (5, 6),
            (5, 7),
            (5, 8),
            (6, 4),
            (7, 4),
            (8, 4)
        ]
    );
}

#[test]
fn each_kind_moves_in_its_own_way() {
    for (letter, expected) in [
        ("P", vec![(3, 4)]),
        ("L", vec![(0, 4), (1, 4), (2, 4), (3, 4)]),
        ("N", vec![(2, 3), (2, 5)]),
        ("S", vec![(3, 3), (3, 4), (3, 5), (5, 3), (5, 5)]),
        ("G", vec![(3, 3), (3, 4), (3, 5), (4, 3), (4, 5), (5, 4)]),
        ("+P", vec![(3, 3), (3, 4), (3, 5), (4, 3), (4, 5), (5, 4)]),
        ("p", vec![(5, 4)]),
        ("s", vec![(3, 3), (3, 5), (5, 3), (5, 4), (5, 5)]),
        ("n", vec![(6, 3), (6, 5)]),
    ] {
        let side = if letter.chars().any(|c| c.is_ascii_uppercase()) {
            "b"
        } else {
            "w"
        };
        let moves = legal(&format!("8k/9/9/9/4{letter}4/9/9/9/K8 {side} - 1"));
        assert_eq!(targets(&moves, (4, 4)), expected, "{letter}");
    }
    assert_eq!(
        targets(&legal("8k/9/9/9/3+B5/9/9/9/K8 b - 1"), (4, 3)).len(),
        18
    );
    assert_eq!(
        targets(&legal("8k/9/9/9/3+R5/9/9/9/K8 b - 1"), (4, 3)).len(),
        20
    );
}

#[test]
fn promotion_is_offered_in_the_zone_and_forced_at_the_edge() {
    let forms = |sfen: &str, from: (usize, usize), to: (usize, usize)| -> Vec<bool> {
        legal(sfen)
            .iter()
            .filter(|mv| mv.from == Some(from) && mv.to == to)
            .map(|mv| mv.promote)
            .collect()
    };
    assert_eq!(forms("k8/9/9/4P4/9/9/9/9/K8 b - 1", (3, 4), (2, 4)), vec![true, false]);
    assert_eq!(forms("k8/4P4/9/9/9/9/9/9/K8 b - 1", (1, 4), (0, 4)), vec![true]);
    assert_eq!(forms("k8/9/9/9/4P4/9/9/9/K8 b - 1", (4, 4), (3, 4)), vec![false]);
    assert_eq!(forms("k8/9/4S4/9/9/9/9/9/K8 b - 1", (2, 4), (3, 3)), vec![true, false]);
    assert_eq!(forms("k8/9/4G4/9/9/9/9/9/K8 b - 1", (2, 4), (1, 4)), vec![false]);
    assert_eq!(forms("k8/9/9/9/9/4n4/9/9/K8 w - 1", (5, 4), (7, 3)), vec![true]);
}

#[test]
fn drops_keep_off_dead_ends() {
    let moves = legal("k8/9/9/9/9/9/9/9/K8 b PLN 1");
    let rows = |kind: PieceKind| -> usize {
        moves
            .iter()
            .filter(|mv| mv.drop == Some(kind))
            .map(|mv| mv.to.0)
            .min()
            .expect("must have drops")
    };
    assert_eq!(rows(PieceKind::Pawn), 1);
    assert_eq!(rows(PieceKind::Lance), 1);
    assert_eq!(rows(PieceKind::Knight), 2);
    assert!(moves.iter().filter(|mv| mv.drop.is_some()).all(|mv| {
        mv.from.is_none() && !mv.promote && mv.capture.is_none() && !mv.piece.promoted
    }));
}

#[test]
fn a_promoted_pawn_does_not_bar_its_file() {
    let moves = legal("4k4/9/9/9/9/9/4+P4/9/4K4 b P 1");
    assert!(moves
        .iter()
        .any(|mv| mv.drop == Some(PieceKind::Pawn) && mv.to.1 == 4));
}

#[test]
fn a_pawn_may_not_be_dropped_for_mate() {
    let state = position("8k/9/8G/9/9/7R1/9/9/K8 b P 1");
    let mates = |strict: bool| {
        generate_legal_moves(&state, &plain(), strict)
            .iter()
            .any(|mv| mv.drop == Some(PieceKind::Pawn) && mv.to == (1, 8))
    };
    assert!(!mates(true));
    assert!(mates(false));
    let strict = generate_legal_moves(&state, &plain(), true).len();
    assert_eq!(generate_legal_moves(&state, &plain(), false).len(), strict + 1);
    let open = legal("8k/9/8G/9/9/9/9/9/K8 b P 1");
    assert!(open
        .iter()
        .any(|mv| mv.drop == Some(PieceKind::Pawn) && mv.to == (1, 8)));
}

#[test]
fn check_is_seen_from_both_sides() {
    let state = position("4k4/9/9/9/9/9/9/4r4/4K4 b - 1");
    assert!(is_in_check(&state, Side::Black, &plain()));
    assert!(!is_in_check(&state, Side::White, &plain()));
    let blocked = position("4k4/9/9/9/4r4/4p4/9/9/4K4 b - 1");
    assert!(!is_in_check(&blocked, Side::Black, &plain()));
    assert!(!is_in_check(&position("9/9/9/9/4r4/9/9/9/9 b - 1"), Side::Black, &plain()));
}

#[test]
fn a_capture_goes_to_the_hand_unpromoted() {
    let state = position("4k4/9/9/9/4+p4/4R4/9/9/4K4 b - 1");
    let mv = generate_legal_moves(&state, &plain(), true)
        .into_iter()
        .find(|mv| mv.from == Some((5, 4)) && mv.to == (4, 4))
        .expect("must exist");
    assert_eq!(
        mv.capture,
        Some(Piece {
            side: Side::White,
            kind: PieceKind::Pawn,
            promoted: true
        })
    );
    let next = apply_move(&state, &mv);
    assert_eq!(next.hands[0][0], 1);
    assert_eq!(next.board[5 * 9 + 4], None);
    assert_eq!(next.board[4 * 9 + 4], state.board[5 * 9 + 4]);
    assert_eq!(next.side_to_move, Side::White);
}

#[test]
fn a_drop_leaves_the_hand() {
    let state = position("4k4/9/9/9/9/9/9/9/4K4 w b2g 1");
    let mv = generate_legal_moves(&state, &plain(), true)
        .into_iter()
        .find(|mv| mv.drop == Some(PieceKind::Gold) && mv.to == (4, 4))
        .expect("must exist");
    let next = apply_move(&state, &mv);
    assert_eq!(next.hands[1], [0, 0, 0, 0, 1, 1, 0]);
    assert_eq!(
        next.board[4 * 9 + 4],
        Some(Piece {
            side: Side::White,
            kind: PieceKind::Gold,
            promoted: false
        })
    );
}

#[test]
fn moves_keep_the_number_of_pieces() {
    let state = position("ln1g1g1nl/1ks2r3/1pppp1bpp/p3spp2/9/P1P1SP1PP/1PSPP1P2/2G1R4/LNK2G1NL b Bp 1");
    for mv in generate_legal_moves(&state, &plain(), true) {
        let next = apply_move(&state, &mv);
        for kind in KINDS {
            assert_eq!(count(&next, kind), count(&state, kind));
        }
        assert_eq!(next.side_to_move, state.side_to_move.opposite());
    }
}

#[test]
fn a_full_hand_counts_no_further() {
    let state = position("4k4/9/9/9/4p4/4R4/9/9/4K4 b 255P 1");
    let mv = generate_legal_moves(&state, &plain(), true)
        .into_iter()
        .find(|mv| mv.from == Some((5, 4)) && mv.to == (4, 4))
        .expect("must exist");
    assert_eq!(apply_move(&state, &mv).hands[0][0], 255);
}

#[test]
fn added_directions_are_used() {
    let mut rules = plain();
    rules.extra_vectors_by_piece.insert(
        "FU".to_string(),
        vec![
            VectorRule {
                dr: -1,
                dc: -1,
                slide: false,
            },
            VectorRule {
                dr: 0,
                dc: 1,
                slide: true,
            },
        ],
    );
    let state = position("8k/9/9/9/9/4P2p1/9/9/K8 b - 1");
    let moves = generate_legal_moves(&state, &rules, true);
    assert_eq!(
        targets(&moves, (5, 4)),
        vec![(4, 3), (4, 4), (5, 5), (5, 6), (5, 7)]
    );
    let promoted = position("8k/9/9/9/9/4+P4/9/9/K8 b - 1");
    let moves = generate_legal_moves(&promoted, &rules, true);
    assert_eq!(targets(&moves, (5, 4)).len(), 6);
}

#[test]
fn generated_moves_are_reported_by_coordinates_and_codes() {
    let state = position("4k4/9/9/4p4/4P4/9/9/9/4K4 b P 1");
    let moves = generate_legal_moves(&state, &plain(), true);
    let capture = moves
        .iter()
        .find(|mv| mv.from == Some((4, 4)))
        .map(to_move_input)
        .expect("must exist");
    assert_eq!((capture.from_row, capture.from_col), (Some(4), Some(4)));
    assert_eq!((capture.to_row, capture.to_col), (3, 4));
    assert_eq!(capture.piece_code, "FU");
    assert_eq!(capture.captured_piece_code.as_deref(), Some("FU"));
    assert_eq!(capture.drop_piece_code, None);
    assert_eq!(capture.notation, None);
    assert!(!capture.promote);
    let drop = moves
        .iter()
        .find(|mv| mv.drop.is_some())
        .map(to_move_input)
        .expect("must exist");
    assert_eq!((drop.from_row, drop.from_col), (None, None));
    assert_eq!(drop.drop_piece_code.as_deref(), Some("FU"));
}

#[test]
fn the_tables_of_the_pieces() {
    let letters = ['P', 'L', 'N', 'S', 'G', 'B', 'R', 'K'];
    let codes = ["FU", "KY", "KE", "GI", "KI", "KA", "HI", "OU"];
    let values = [100, 300, 320, 500, 600, 900, 1000, 10000];
    for i in 0..8 {
        assert_eq!(piece_kind_from_char(letters[i]), Some(KINDS[i]));
        assert_eq!(
            piece_kind_from_char(letters[i].to_ascii_lowercase()),
            Some(KINDS[i])
        );
        assert_eq!(piece_code(KINDS[i]), codes[i]);
        assert_eq!(piece_base_value(KINDS[i]), values[i]);
        assert_eq!(piece_promotable(KINDS[i]), i != 4 && i != 7);
        assert_eq!(hand_index(KINDS[i]), if i < 7 { Some(i) } else { None });
    }
    assert_eq!(piece_kind_from_char('x'), None);
    assert_eq!((side_index(Side::Black), side_index(Side::White)), (0, 1));
    assert_eq!(Side::Black.opposite(), Side::White);
    assert_eq!(Side::White.opposite(), Side::Black);
    assert!(is_promotion_zone(Side::Black, 2) && !is_promotion_zone(Side::Black, 3));
    assert!(is_promotion_zone(Side::White, 6) && !is_promotion_zone(Side::White, 5));
    let knight = Piece {
        side: Side::White,
        kind: PieceKind::Knight,
        promoted: false,
    };
    assert!(must_promote(knight, 7) && !must_promote(knight, 6));
    let lance = Piece {
        side: Side::Black,
        kind: PieceKind::Lance,
        promoted: false,
    };
    assert!(must_promote(lance, 0) && !must_promote(lance, 1));
}

/// The notation of a position.
fn notation(state: &SearchState) -> String {
    let letter = |side: Side, k: usize| {
        let c = ['P', 'L', 'N', 'S', 'G', 'B', 'R', 'K'][k];
        if side == Side::Black {
            c
        } else {
            c.to_ascii_lowercase()
        }
    };
    let place = |kind: PieceKind| KINDS.iter().position(|k| *k == kind).expect("must exist");
    let mut ranks = Vec::new();
    for row in 0..9 {
        let mut rank = String::new();
        let mut gap = 0;
        for col in 0..9 {
            match state.board[row * 9 + col] {
                None => gap += 1,
                Some(piece) => {
                    if gap > 0 {
                        rank.push_str(&gap.to_string());
                        gap = 0;
                    }
                    if piece.promoted {
                        rank.push('+');
                    }
                    rank.push(letter(piece.side, place(piece.kind)));
                }
            }
        }
        if gap > 0 {
            rank.push_str(&gap.to_string());
        }
        ranks.push(rank);
    }
    let mut hands = String::new();
    for (h, side) in [(0, Side::Black), (1, Side::White)] {
        for k in 0..7 {
            let n = state.hands[h][k];
            if n > 1 {
                hands.push_str(&n.to_string());
            }
            if n > 0 {
                hands.push(letter(side, k));
            }
        }
    }
    if hands.is_empty() {
        hands.push('-');
    }
    let side = if state.side_to_move == Side::Black { "b" } else { "w" };
    format!("{} {} {} 1", ranks.join("/"), side, hands)
}

const SAMPLES: [&str; 5] = [
    START,
    "4k4/9/9/9/9/9/9/9/4K4 b - 1",
    "ln1g1g1nl/1ks2r3/1pppp1bpp/p3spp2/9/P1P1SP1PP/1PSPP1P2/2G1R4/LNK2G1NL b Bp 1",
    "4k4/9/1+P1+L1+N1+S1/4+B4/4+r4/9/9/9/4K4 w 2PLN255S3gbr 1",
    "9/9/9/9/9/9/9/9/9 w - 1",
];

#[test]
fn reading_gives_back_what_was_written() {
    for sfen in SAMPLES {
        let state = position(sfen);
        assert_eq!(notation(&state), sfen);
        let again = position(&notation(&state).replace(" 1", " 4096"));
        assert_eq!(again.board, state.board);
        assert_eq!(again.hands, state.hands);
        assert_eq!(again.side_to_move, state.side_to_move);
        for mv in generate_legal_moves(&state, &plain(), true) {
            let next = apply_move(&state, &mv);
            let read = position(&notation(&next));
            assert_eq!(read.board, next.board);
            assert_eq!(read.hands, next.hands);
            assert_eq!(read.side_to_move, next.side_to_move);
        }
    }
}

#[test]
fn pieces_in_hand_add_up_in_any_order() {
    let hands = |text: &str| position(&format!("4k4/9/9/9/9/9/9/9/4K4 b {text} 1")).hands;
    assert_eq!(hands("2P3pP"), [[3, 0, 0, 0, 0, 0, 0], [3, 0, 0, 0, 0, 0, 0]]);
    for text in ["P2P3p", "3pP2P", "3P3p", "p2p2PP", "ppPpPP"] {
        assert_eq!(hands(text), hands("2P3pP"), "{text}");
    }
    assert_eq!(hands("200G55GrG")[0][4], 255);
    assert_eq!(hands("200G100GG")[0][4], 255);
    assert_eq!(hands("200G54G")[0][4], 254);
    let alone = |text: &str| parse_sfen_hands(&text.chars().collect());
    assert_eq!(alone("2P0lP").ok(), Some([[3, 0, 0, 0, 0, 0, 0], [0, 1, 0, 0, 0, 0, 0]]));
    assert_eq!(alone("P0l2P").ok(), alone("2P0lP").ok());
    assert_eq!(alone("-").ok(), Some([[0; 7]; 2]));
    assert!(alone("2K").is_err());
}

/// The position with the board turned round and the players swapped.
fn turned(state: &SearchState) -> SearchState {
    let mut board = state.board;
    for i in 0..81 {
        board[i] = state.board[80 - i].map(|piece| Piece {
            side: piece.side.opposite(),
            ..piece
        });
    }
    SearchState {
        board,
        side_to_move: state.side_to_move.opposite(),
        hands: [state.hands[1], state.hands[0]],
    }
}

/// What tells a move apart, in a form that can be sorted.
fn key(mv: &GenMove) -> (Option<(usize, usize)>, (usize, usize), bool, String) {
    let rest = format!("{:?} {:?} {:?}", mv.piece, mv.capture, mv.drop);
    (mv.from, mv.to, mv.promote, rest)
}

fn turned_key(mv: &GenMove) -> (Option<(usize, usize)>, (usize, usize), bool, String) {
    let swap = |piece: Piece| Piece {
        side: piece.side.opposite(),
        ..piece
    };
    key(&GenMove {
        from: mv.from.map(|(row, col)| (8 - row, 8 - col)),
        to: (8 - mv.to.0, 8 - mv.to.1),
        piece: swap(mv.piece),
        capture: mv.capture.map(swap),
        ..*mv
    })
}

#[test]
fn turning_the_board_turns_the_moves() {
    for sfen in SAMPLES {
        let state = position(sfen);
        let mut here: Vec<_> = generate_legal_moves(&state, &plain(), true)
            .iter()
            .map(turned_key)
            .collect();
        let mut there: Vec<_> = generate_legal_moves(&turned(&state), &plain(), true)
            .iter()
            .map(key)
            .collect();
        here.sort();
        there.sort();
        assert_eq!(here, there);
    }
}

#[test]
fn a_piece_moves_alike_for_both_players() {
    for promoted in [false, true] {
        for kind in KINDS {
            for side in [Side::Black, Side::White] {
                let piece = Piece {
                    side,
                    kind,
                    promoted,
                };
                let other = Piece {
                    side: side.opposite(),
                    ..piece
                };
                let state = position(SAMPLES[2]);
                let mut here = Vec::new();
                let mut there = Vec::new();
                gen_piece_moves(&state, 4, 3, piece, &plain(), &mut here);
                gen_piece_moves(&turned(&state), 4, 5, other, &plain(), &mut there);
                assert!(!here.is_empty());
                let mut here: Vec<_> = here.iter().map(turned_key).collect();
                let mut there: Vec<_> = there.iter().map(key).collect();
                here.sort();
                there.sort();
                assert_eq!(here, there);
                there.dedup();
                assert_eq!(here.len(), there.len());
            }
        }
    }
}

#[test]
fn no_move_of_a_piece_comes_twice() {
    for sfen in SAMPLES {
        for strict in [false, true] {
            let moves = generate_legal_moves(&position(sfen), &plain(), strict);
            for (i, a) in moves.iter().enumerate() {
                for b in &moves[..i] {
                    assert!(
                        a.from.is_none()
                            || a.from != b.from
                            || a.to != b.to
                            || a.promote != b.promote
                    );
                }
            }
        }
    }
}

#[test]
fn only_a_plain_pawn_of_ones_own_bars_a_file() {
    let state = position("4k4/9/9/9/2+P1p1P2/9/9/9/4K4 b Pp 1");
    for col in 0..9 {
        assert_eq!(drop_allowed(&state, PieceKind::Pawn, 5, col), col != 6, "{col}");
        assert!(!drop_allowed(&state, PieceKind::Pawn, 0, col));
        assert!(drop_allowed(&state, PieceKind::Lance, 5, col));
        assert!(!drop_allowed(&state, PieceKind::Knight, 1, col));
        assert!(drop_allowed(&state, PieceKind::Gold, 0, col));
    }
    assert!(drop_allowed(&state, PieceKind::Gold, 4, 9));
    assert!(!drop_allowed(&state, PieceKind::Lance, 0, usize::MAX));
    assert!(!drop_allowed(&state, PieceKind::Pawn, 0, 9));
    let other = turned(&state);
    for col in 0..9 {
        assert_eq!(drop_allowed(&other, PieceKind::Pawn, 3, col), col != 2, "{col}");
        assert!(!drop_allowed(&other, PieceKind::Pawn, 8, col));
    }
}

#[test]
fn moves_keep_the_kings_of_each_side() {
    let kings = |state: &SearchState, side: Side| {
        let held = |p: &&Option<Piece>| {
            p.map(|x| x.side == side && x.kind == PieceKind::King)
                .unwrap_or(false)
        };
        state.board.iter().filter(held).count()
    };
    let mut taken = 0;
    for sfen in SAMPLES.into_iter().chain(["4k4/4R4/9/9/9/9/9/9/4K4 b G 1"]) {
        let state = position(sfen);
        for mv in generate_legal_moves(&state, &plain(), true) {
            let next = apply_move(&state, &mv);
            let takes_king = mv.capture.map(|p| p.kind == PieceKind::King).unwrap_or(false);
            for side in [Side::Black, Side::White] {
                let lost = usize::from(takes_king && side != state.side_to_move);
                assert_eq!(kings(&next, side) + lost, kings(&state, side));
                taken += lost;
            }
        }
    }
    assert_eq!(taken, 3);
}
