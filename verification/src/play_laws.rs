//! What a move does to a position, square by square and hand by hand.

use crate::legality_laws;
use crate::movement_laws;
use crate::shogi;
use crate::types;
use crate::types::{GenMove, Piece, PieceKind, Position, Side};
use vstd::prelude::*;

verus! {

/// One more piece in a hand, as far as its counter goes.
pub open spec fn one_more(count: int) -> int {
    if count < 255 {
        count + 1
    } else {
        255
    }
}

/// A move on the board: the target holds the piece that moved, promoted exactly if it was promoted
/// or the move promotes it; the square that it left is empty and no other square has changed. What
/// stood on the target is one more piece of its kind in the hand of the mover, unless it was a
/// king, and nothing else in the hands has changed. It is the opponent's turn.
pub proof fn law_a_move_on_the_board(
    pos: Position,
    mv: GenMove,
    row: int,
    col: int,
    side: Side,
    kind: PieceKind,
)
    requires
        pos.wf(),
        mv.from matches Some(from) && from.0 <= 8 && from.1 <= 8 && from != mv.to
            && movement_laws::standing(pos, from.0 as int, from.1 as int) is Some,
        mv.to.0 <= 8,
        mv.to.1 <= 8,
        0 <= row <= 8,
        0 <= col <= 8,
        kind != PieceKind::King,
    ensures
        ({
            let next = shogi::after_move(pos, mv);
            let from = mv.from.unwrap();
            let moved = movement_laws::standing(pos, from.0 as int, from.1 as int).unwrap();
            let taken = movement_laws::standing(pos, mv.to.0 as int, mv.to.1 as int);
            &&& next.wf()
            &&& next.side_to_move == legality_laws::opponent(pos.side_to_move)
            &&& movement_laws::standing(next, row, col) == (if row == mv.to.0 && col == mv.to.1 {
                Some(
                    Piece {
                        side: moved.side,
                        kind: moved.kind,
                        promoted: moved.promoted || mv.promote,
                    },
                )
            } else if row == from.0 && col == from.1 {
                None
            } else {
                movement_laws::standing(pos, row, col)
            })
            &&& legality_laws::held(next, side, kind) == (if side == moved.side && taken is Some
                && taken.unwrap().kind == kind {
                one_more(legality_laws::held(pos, side, kind))
            } else {
                legality_laws::held(pos, side, kind)
            })
        }),
{
    let from = mv.from.unwrap();
    let taken = movement_laws::standing(pos, mv.to.0 as int, mv.to.1 as int);
    assert(shogi::square(from) == 9 * from.0 + from.1);
    assert(shogi::square(mv.to) == 9 * mv.to.0 + mv.to.1);
    if let Some(piece) = taken {
        if piece.kind != PieceKind::King {
            assert(types::hand_slot(piece.kind) == Some(
                legality_laws::hand_number(piece.kind) as usize,
            ));
        }
    }
}

/// A drop: the target holds the piece, unpromoted and of the player to move, and no other square
/// has changed. That player's hand has one piece of the kind less, and nothing else in the hands
/// has changed. It is the opponent's turn.
pub proof fn law_a_drop(
    pos: Position,
    mv: GenMove,
    row: int,
    col: int,
    side: Side,
    kind: PieceKind,
)
    requires
        pos.wf(),
        mv.from is None,
        mv.drop matches Some(dropped) && dropped != PieceKind::King && legality_laws::held(
            pos,
            pos.side_to_move,
            dropped,
        ) > 0,
        mv.to.0 <= 8,
        mv.to.1 <= 8,
        0 <= row <= 8,
        0 <= col <= 8,
        kind != PieceKind::King,
    ensures
        ({
            let next = shogi::after_move(pos, mv);
            let mover = pos.side_to_move;
            let dropped = mv.drop.unwrap();
            &&& next.wf()
            &&& next.side_to_move == legality_laws::opponent(mover)
            &&& movement_laws::standing(next, row, col) == (if row == mv.to.0 && col == mv.to.1 {
                Some(Piece { side: mover, kind: dropped, promoted: false })
            } else {
                movement_laws::standing(pos, row, col)
            })
            &&& legality_laws::held(next, side, kind) == legality_laws::held(pos, side, kind) - (
            if side == mover && kind == dropped {
                1int
            } else {
                0int
            })
        }),
{
    let dropped = mv.drop.unwrap();
    assert(shogi::square(mv.to) == 9 * mv.to.0 + mv.to.1);
    assert(types::hand_slot(dropped) == Some(legality_laws::hand_number(dropped) as usize));
}

/// A move that neither starts on a square nor drops a piece only passes the turn.
pub proof fn law_a_pass(pos: Position, mv: GenMove)
    requires
        mv.from is None,
        mv.drop is None,
    ensures
        shogi::after_move(pos, mv).board == pos.board,
        shogi::after_move(pos, mv).hands == pos.hands,
        shogi::after_move(pos, mv).side_to_move == legality_laws::opponent(pos.side_to_move),
{
}

/// The code by which a kind is named to a caller.
pub open spec fn code(kind: PieceKind) -> Seq<char> {
    match kind {
        PieceKind::Pawn => "FU"@,
        PieceKind::Lance => "KY"@,
        PieceKind::Knight => "KE"@,
        PieceKind::Silver => "GI"@,
        PieceKind::Gold => "KI"@,
        PieceKind::Bishop => "KA"@,
        PieceKind::Rook => "HI"@,
        PieceKind::King => "OU"@,
    }
}

/// A generated move is reported by its squares, the code of its piece, whether it promotes, and the
/// codes of what it drops and takes; it has no notation.
pub proof fn law_a_move_is_reported(mv: GenMove)
    requires
        mv.to.0 <= 8 && mv.to.1 <= 8,
        mv.from matches Some(from) ==> from.0 <= 8 && from.1 <= 8,
    ensures
        ({
            let shown = shogi::engine_move(mv);
            &&& shown.to_row as int == mv.to.0
            &&& shown.to_col as int == mv.to.1
            &&& shown.piece_code == code(mv.piece.kind)
            &&& shown.promote == mv.promote
            &&& shown.notation is None
            &&& match mv.from {
                Some(from) => shown.from_row == Some(from.0 as i32) && shown.from_col == Some(
                    from.1 as i32,
                ),
                None => shown.from_row is None && shown.from_col is None,
            }
            &&& match mv.drop {
                Some(kind) => shown.drop_piece_code == Some(code(kind)),
                None => shown.drop_piece_code is None,
            }
            &&& match mv.capture {
                Some(taken) => shown.captured_piece_code == Some(code(taken.kind)),
                None => shown.captured_piece_code is None,
            }
        }),
{
}

} // verus!
