//! What the evaluation of a position and of a single move counts.

use crate::config::EngineConfig;
use crate::heuristic;
use crate::play_laws;
use crate::search;
use crate::shogi;
use crate::types;
use crate::types::{EngineMoveView, Piece, PieceKind, Position, RulesView};
use vstd::prelude::*;

verus! {

// ---------------------------------------------------------------------------
// Positions
// ---------------------------------------------------------------------------

/// The worth of a kind, in centipawns.
pub open spec fn worth(kind: PieceKind) -> int {
    match kind {
        PieceKind::Pawn => 100,
        PieceKind::Lance => 300,
        PieceKind::Knight => 320,
        PieceKind::Silver => 500,
        PieceKind::Gold => 600,
        PieceKind::Bishop => 900,
        PieceKind::Rook => 1000,
        PieceKind::King => 10000,
    }
}

/// The bonus of a request for a kind; none if it sets none.
pub open spec fn bonus(kind: PieceKind, rules: RulesView) -> int {
    if rules.bonus.contains_key(play_laws::code(kind)) {
        rules.bonus[play_laws::code(kind)] as int
    } else {
        0
    }
}

/// How many steps a coordinate is off the middle one.
pub open spec fn off_middle(x: int) -> int {
    if x < 4 {
        4 - x
    } else {
        x - 4
    }
}

/// The position with one square changed.
pub open spec fn with_square(pos: Position, i: int, square: Option<Piece>) -> Position {
    Position { board: pos.board.update(i, square), ..pos }
}

proof fn lemma_terms_are_bounded(pos: Position, rules: RulesView, n: nat)
    requires
        n <= 81,
    ensures
        -0x2_0000_0000 * n <= search::material(pos, rules, n) <= 0x2_0000_0000 * n,
        -8 * n <= search::center(pos, n) <= 8 * n,
    decreases n,
{
    if n > 0 {
        lemma_terms_are_bounded(pos, rules, (n - 1) as nat);
    }
}

proof fn lemma_square_counts(
    pos: Position,
    rules: RulesView,
    i: int,
    piece: Piece,
    n: nat,
)
    requires
        pos.board.len() == 81,
        0 <= i < 81,
        n <= 81,
        pos.board[i] is None,
    ensures
        ({
            let more = with_square(pos, i, Some(piece));
            let own = piece.side == pos.side_to_move;
            let counted = worth(piece.kind) + bonus(piece.kind, rules) + (if piece.promoted {
                80int
            } else {
                0int
            });
            let central = 8 - off_middle(i / 9) - off_middle(i % 9);
            &&& search::material(more, rules, n) - search::material(pos, rules, n) == (if i >= n {
                0
            } else if own {
                counted
            } else {
                -counted
            })
            &&& search::center(more, n) - search::center(pos, n) == (if i >= n {
                0
            } else if own {
                central
            } else {
                -central
            })
        }),
    decreases n,
{
    if n > 0 {
        lemma_square_counts(pos, rules, i, piece, (n - 1) as nat);
        assert(types::kind_code(piece.kind) == play_laws::code(piece.kind));
    }
}

/// A piece on an otherwise empty square counts for its player: its kind's worth and bonus, 80 if it
/// is promoted, and 8 less its distance from the middle of the board. For the opponent it counts
/// the same the other way round.
pub proof fn law_a_piece_counts(pos: Position, rules: RulesView, i: int, piece: Piece)
    requires
        pos.wf(),
        0 <= i < 81,
        pos.board[i] is None,
    ensures
        ({
            let less = search::eval_terms(pos, rules);
            let more = search::eval_terms(with_square(pos, i, Some(piece)), rules);
            let counted = worth(piece.kind) + bonus(piece.kind, rules) + (if piece.promoted {
                80int
            } else {
                0int
            });
            let central = 8 - off_middle(i / 9) - off_middle(i % 9);
            if piece.side == pos.side_to_move {
                more.material - less.material == counted && more.center - less.center == central
            } else {
                more.material - less.material == -counted && more.center - less.center == -central
            }
        }),
{
    let next = with_square(pos, i, Some(piece));
    lemma_square_counts(pos, rules, i, piece, 81);
    lemma_terms_are_bounded(pos, rules, 81);
    lemma_terms_are_bounded(next, rules, 81);
}

proof fn lemma_empty_board_counts_nothing(pos: Position, rules: RulesView, n: nat)
    requires
        n <= 81,
        forall|i: int| 0 <= i < 81 ==> #[trigger] pos.board[i] is None,
    ensures
        search::material(pos, rules, n) == 0,
        search::center(pos, n) == 0,
    decreases n,
{
    if n > 0 {
        lemma_empty_board_counts_nothing(pos, rules, (n - 1) as nat);
        assert(pos.board[n - 1] is None);
    }
}

/// An empty board counts nothing, whatever is in hand.
pub proof fn law_an_empty_board_counts_nothing(pos: Position, rules: RulesView)
    requires
        pos.wf(),
        forall|i: int| 0 <= i < 81 ==> #[trigger] pos.board[i] is None,
    ensures
        search::eval_terms(pos, rules).material == 0,
        search::eval_terms(pos, rules).center == 0,
{
    lemma_empty_board_counts_nothing(pos, rules, 81);
}

/// Mobility is the number of moves of the player to move, pawn drops for mate among them.
pub proof fn law_mobility_counts_the_moves(pos: Position, rules: RulesView)
    ensures
        search::eval_terms(pos, rules).mobility == shogi::legal_moves(
            pos,
            rules,
            false,
        ).len() as u64,
{
}

/// What the evaluation reads of a configuration is each of its four weights in its place.
pub proof fn law_the_weights_of_a_configuration(cfg: EngineConfig)
    ensures
        cfg.weighing().material == cfg.eval_material_weight,
        cfg.weighing().position == cfg.eval_position_weight,
        cfg.weighing().king_safety == cfg.eval_king_safety_weight,
        cfg.weighing().mobility == cfg.eval_mobility_weight,
{
}

// ---------------------------------------------------------------------------
// Single moves
// ---------------------------------------------------------------------------

/// A move names squares of the board and either a start or a drop.
pub proof fn law_which_coordinates_are_valid(mv: EngineMoveView)
    ensures
        heuristic::coordinates_valid(mv) <==> {
            &&& 0 <= mv.to_row < 9 && 0 <= mv.to_col < 9
            &&& {
                ||| {
                    &&& mv.drop_piece_code is None
                    &&& mv.from_row matches Some(row) && 0 <= row < 9
                    &&& mv.from_col matches Some(col) && 0 <= col < 9
                }
                ||| mv.drop_piece_code is Some && mv.from_row is None && mv.from_col is None
            }
        },
{
}

/// What a captured piece of each kind counts, and one of any other code.
pub proof fn law_captures_count(code: Seq<char>, side_to_move: Seq<char>, mv: EngineMoveView)
    requires
        mv.captured_piece_code == Some(code),
    ensures
        ({
            let counted = heuristic::move_terms(mv, side_to_move).capture;
            &&& code == play_laws::code(PieceKind::King) ==> counted == 10000
            &&& code == play_laws::code(PieceKind::Rook) ==> counted == 900
            &&& code == play_laws::code(PieceKind::Bishop) ==> counted == 900
            &&& code == play_laws::code(PieceKind::Gold) ==> counted == 600
            &&& code == play_laws::code(PieceKind::Silver) ==> counted == 500
            &&& code == play_laws::code(PieceKind::Knight) ==> counted == 350
            &&& code == play_laws::code(PieceKind::Lance) ==> counted == 350
            &&& code == play_laws::code(PieceKind::Pawn) ==> counted == 100
            &&& (forall|kind: PieceKind| code != #[trigger] play_laws::code(kind))
                ==> counted == 150
        }),
{
    lemma_codes();
    assert(play_laws::code(PieceKind::King) == "OU"@);
    assert(play_laws::code(PieceKind::Rook) == "HI"@ && play_laws::code(PieceKind::Bishop)
        == "KA"@);
    assert(play_laws::code(PieceKind::Gold) == "KI"@ && play_laws::code(PieceKind::Silver)
        == "GI"@);
    assert(play_laws::code(PieceKind::Knight) == "KE"@ && play_laws::code(PieceKind::Lance)
        == "KY"@);
    assert(play_laws::code(PieceKind::Pawn) == "FU"@);
}

/// No two kinds have the same code.
proof fn lemma_codes()
    ensures
        "OU"@ != "HI"@ && "OU"@ != "KA"@ && "OU"@ != "KI"@ && "OU"@ != "GI"@ && "OU"@ != "KE"@
            && "OU"@ != "KY"@ && "OU"@ != "FU"@,
        "HI"@ != "KI"@ && "HI"@ != "GI"@ && "HI"@ != "KE"@ && "HI"@ != "KY"@ && "HI"@ != "FU"@,
        "KA"@ != "KI"@ && "KA"@ != "GI"@ && "KA"@ != "KE"@ && "KA"@ != "KY"@ && "KA"@ != "FU"@,
        "KI"@ != "GI"@ && "KI"@ != "KE"@ && "KI"@ != "KY"@ && "KI"@ != "FU"@,
        "GI"@ != "KE"@ && "GI"@ != "KY"@ && "GI"@ != "FU"@,
        "KE"@ != "FU"@ && "KY"@ != "FU"@,
{
    reveal_strlit("FU");
    reveal_strlit("KY");
    reveal_strlit("KE");
    reveal_strlit("GI");
    reveal_strlit("KI");
    reveal_strlit("KA");
    reveal_strlit("HI");
    reveal_strlit("OU");
    assert("FU"@[0] == 'F' && "FU"@[1] == 'U');
    assert("KY"@[0] == 'K' && "KY"@[1] == 'Y');
    assert("KE"@[0] == 'K' && "KE"@[1] == 'E');
    assert("GI"@[0] == 'G' && "GI"@[1] == 'I');
    assert("KI"@[0] == 'K' && "KI"@[1] == 'I');
    assert("KA"@[0] == 'K' && "KA"@[1] == 'A');
    assert("HI"@[0] == 'H' && "HI"@[1] == 'I');
    assert("OU"@[0] == 'O' && "OU"@[1] == 'U');
}

/// The other terms of a move: nothing for a capture that it does not make, 60 for promoting and 3
/// for each step that its target is nearer to the middle than a corner is, 5 for mobility, 2 for
/// the king's safety, and whether the side to move is the enemy.
pub proof fn law_terms_of_a_move(mv: EngineMoveView, side_to_move: Seq<char>)
    ensures
        ({
            let terms = heuristic::move_terms(mv, side_to_move);
            &&& mv.captured_piece_code is None ==> terms.capture == 0
            &&& terms.position == 3 * (8 - off_middle(mv.to_row as int) - off_middle(
                mv.to_col as int,
            )) + (if mv.promote {
                60int
            } else {
                0int
            })
            &&& terms.mobility == 5
            &&& terms.king_safety == 2
            &&& terms.for_enemy <==> side_to_move == "enemy"@
        }),
{
}

} // verus!
