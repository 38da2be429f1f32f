//! The rules of shogi as mathematics: how pieces move, which drops are allowed, what a move does
//! to a position, and which moves are legal.

use crate::types;
use crate::types::{
    EngineMoveView, GenMove, Piece, PieceKind, Position, RulesView, Side, VectorRule,
};
use vstd::prelude::*;

verus! {

// ---------------------------------------------------------------------------
// How pieces move
// ---------------------------------------------------------------------------

pub open spec fn on_board(row: int, col: int) -> bool {
    0 <= row <= 8 && 0 <= col <= 8
}

/// The row difference of one step ahead.
pub open spec fn ahead(side: Side) -> int {
    match side {
        Side::Black => -1,
        Side::White => 1,
    }
}

pub open spec fn step(dr: int, dc: int) -> VectorRule {
    VectorRule { dr: dr as i32, dc: dc as i32, slide: false }
}

pub open spec fn slide(dr: int, dc: int) -> VectorRule {
    VectorRule { dr: dr as i32, dc: dc as i32, slide: true }
}

pub open spec fn gold_vectors(f: int) -> Seq<VectorRule> {
    seq![step(f, 0), step(f, -1), step(f, 1), step(0, -1), step(0, 1), step(-f, 0)]
}

pub open spec fn silver_vectors(f: int) -> Seq<VectorRule> {
    seq![step(f, -1), step(f, 0), step(f, 1), step(-f, -1), step(-f, 1)]
}

pub open spec fn king_vectors() -> Seq<VectorRule> {
    seq![
        step(-1, -1),
        step(-1, 0),
        step(-1, 1),
        step(0, -1),
        step(0, 1),
        step(1, -1),
        step(1, 0),
        step(1, 1),
    ]
}

/// The four directions of a bishop.
pub open spec fn diagonals(slides: bool) -> Seq<VectorRule> {
    if slides {
        seq![slide(-1, -1), slide(-1, 1), slide(1, -1), slide(1, 1)]
    } else {
        seq![step(-1, -1), step(-1, 1), step(1, -1), step(1, 1)]
    }
}

/// The four directions of a rook.
pub open spec fn orthogonals(slides: bool) -> Seq<VectorRule> {
    if slides {
        seq![slide(-1, 0), slide(1, 0), slide(0, -1), slide(0, 1)]
    } else {
        seq![step(-1, 0), step(1, 0), step(0, -1), step(0, 1)]
    }
}

/// The kinds whose promoted side moves as a gold.
pub open spec fn promotes_to_gold(kind: PieceKind) -> bool {
    match kind {
        PieceKind::Pawn | PieceKind::Lance | PieceKind::Knight | PieceKind::Silver => true,
        _ => false,
    }
}

/// The directions in which a piece moves by the rules of shogi.
pub open spec fn basic_vectors(piece: Piece) -> Seq<VectorRule> {
    let f = ahead(piece.side);
    if piece.promoted && promotes_to_gold(piece.kind) {
        gold_vectors(f)
    } else {
        match piece.kind {
            PieceKind::Pawn => seq![step(f, 0)],
            PieceKind::Lance => seq![slide(f, 0)],
            PieceKind::Knight => seq![step(2 * f, -1), step(2 * f, 1)],
            PieceKind::Silver => silver_vectors(f),
            PieceKind::Gold => gold_vectors(f),
            PieceKind::Bishop => if piece.promoted {
                diagonals(true) + orthogonals(false)
            } else {
                diagonals(true)
            },
            PieceKind::Rook => if piece.promoted {
                orthogonals(true) + diagonals(false)
            } else {
                orthogonals(true)
            },
            PieceKind::King => king_vectors(),
        }
    }
}

/// The directions that a request adds for a piece. A piece that moves as a gold by promotion
/// gets none.
pub open spec fn extra_vectors(piece: Piece, rules: RulesView) -> Seq<VectorRule> {
    if piece.promoted && promotes_to_gold(piece.kind) {
        Seq::empty()
    } else if rules.vectors.contains_key(types::kind_code(piece.kind)) {
        rules.vectors[types::kind_code(piece.kind)]
    } else {
        Seq::empty()
    }
}

/// All directions in which a piece moves, in the order in which they are tried.
pub open spec fn piece_vectors(piece: Piece, rules: RulesView) -> Seq<VectorRule> {
    basic_vectors(piece) + extra_vectors(piece, rules)
}

/// Whether a piece that moves between these rows may promote.
pub open spec fn can_promote(piece: Piece, from_row: int, to_row: int) -> bool {
    &&& types::promotable(piece.kind)
    &&& !piece.promoted
    &&& types::promotion_zone(piece.side, from_row) || types::promotion_zone(piece.side, to_row)
}

/// The promoting and the plain form of a move, as far as the rules allow them.
pub open spec fn variants(base: GenMove) -> Seq<GenMove> {
    let promoting = GenMove { promote: true, ..base };
    let plain = GenMove { promote: false, ..base };
    match base.from {
        Some(from) => if can_promote(base.piece, from.0 as int, base.to.0 as int) {
            if types::dead_end(base.piece.side, base.piece.kind, base.to.0 as int) {
                seq![promoting]
            } else {
                seq![promoting, plain]
            }
        } else {
            seq![plain]
        },
        None => seq![plain],
    }
}

/// A move on the board, before the choice whether to promote.
pub open spec fn board_move(
    row: int,
    col: int,
    to_row: int,
    to_col: int,
    piece: Piece,
    capture: Option<Piece>,
) -> GenMove {
    GenMove {
        from: Some((row as usize, col as usize)),
        to: (to_row as usize, to_col as usize),
        piece,
        promote: false,
        capture,
        drop: None,
    }
}

/// How many more squares there can be in the direction of `v`, counting `row`, `col`.
pub open spec fn ray_room(row: int, col: int, v: VectorRule) -> nat {
    let room = if v.dr > 0 {
        9 - row
    } else if v.dr < 0 {
        row + 1
    } else if v.dc > 0 {
        9 - col
    } else {
        col + 1
    };
    if room < 0 {
        0
    } else {
        room as nat
    }
}

/// The moves of the piece at `from` along `v`, from the square `row`, `col` on: up to the edge,
/// before a piece of its own side, or onto the first piece of the other side.
pub open spec fn ray_moves(
    pos: Position,
    from: (int, int),
    piece: Piece,
    row: int,
    col: int,
    v: VectorRule,
) -> Seq<GenMove>
    decreases ray_room(row, col, v),
{
    if !on_board(row, col) || (v.dr == 0 && v.dc == 0) {
        Seq::empty()
    } else {
        match pos.at(row, col) {
            Some(other) => if other.side == piece.side {
                Seq::empty()
            } else {
                variants(board_move(from.0, from.1, row, col, piece, Some(other)))
            },
            None => {
                let here = variants(board_move(from.0, from.1, row, col, piece, None));
                if v.slide {
                    here + ray_moves(pos, from, piece, row + v.dr, col + v.dc, v)
                } else {
                    here
                }
            },
        }
    }
}

/// The moves of the piece at `from` along each of `vectors` in turn.
pub open spec fn vector_moves(
    pos: Position,
    from: (int, int),
    piece: Piece,
    vectors: Seq<VectorRule>,
) -> Seq<GenMove>
    decreases vectors.len(),
{
    if vectors.len() == 0 {
        Seq::empty()
    } else {
        let v = vectors.last();
        vector_moves(pos, from, piece, vectors.drop_last()) + ray_moves(
            pos,
            from,
            piece,
            from.0 + v.dr,
            from.1 + v.dc,
            v,
        )
    }
}

/// The moves of a piece at `from` along all its directions.
pub open spec fn piece_moves(
    pos: Position,
    from: (int, int),
    piece: Piece,
    rules: RulesView,
) -> Seq<GenMove> {
    vector_moves(pos, from, piece, piece_vectors(piece, rules))
}

/// Whether each direction that a request adds for a piece leads off its square.
pub open spec fn leads_away(piece: Piece, rules: RulesView) -> bool {
    forall|i: int|
        0 <= i < extra_vectors(piece, rules).len() ==> (#[trigger] extra_vectors(
            piece,
            rules,
        )[i]).dr != 0 || extra_vectors(piece, rules)[i].dc != 0
}

/// The moves of whatever stands on square `i`, counted row by row.
pub open spec fn square_moves(pos: Position, i: int, rules: RulesView) -> Seq<GenMove> {
    match pos.board[i] {
        Some(piece) => piece_moves(pos, (i / 9, i % 9), piece, rules),
        None => Seq::empty(),
    }
}

/// Whether a piece of `side` stands on square `i`.
pub open spec fn owned(pos: Position, i: int, side: Side) -> bool {
    match pos.board[i] {
        Some(piece) => piece.side == side,
        None => false,
    }
}

/// The moves on the board of the player to move, for pieces on the first `n` squares.
pub open spec fn board_moves(pos: Position, rules: RulesView, n: nat) -> Seq<GenMove>
    decreases n,
{
    if n == 0 {
        Seq::empty()
    } else {
        let before = board_moves(pos, rules, (n - 1) as nat);
        if owned(pos, n - 1, pos.side_to_move) {
            before + square_moves(pos, n - 1, rules)
        } else {
            before
        }
    }
}

// ---------------------------------------------------------------------------
// Drops
// ---------------------------------------------------------------------------

/// Whether `side` has an unpromoted pawn on the file.
pub open spec fn pawn_on_file(pos: Position, side: Side, col: int) -> bool {
    exists|row: int|
        0 <= row < 9 && #[trigger] pos.at(row, col) == Some(
            Piece { side, kind: PieceKind::Pawn, promoted: false },
        )
}

/// Whether the player to move may drop the kind on this square, if it is empty.
pub open spec fn may_drop(pos: Position, kind: PieceKind, row: int, col: int) -> bool {
    &&& !types::dead_end(pos.side_to_move, kind, row)
    &&& !(kind == PieceKind::Pawn && pawn_on_file(pos, pos.side_to_move, col))
}

/// The kinds that can be in hand, in the order of [`types::hand_slot`].
pub open spec fn hand_kinds() -> Seq<PieceKind> {
    seq![
        PieceKind::Pawn,
        PieceKind::Lance,
        PieceKind::Knight,
        PieceKind::Silver,
        PieceKind::Gold,
        PieceKind::Bishop,
        PieceKind::Rook,
    ]
}

pub open spec fn drop_move(side: Side, kind: PieceKind, i: int) -> GenMove {
    GenMove {
        from: None,
        to: ((i / 9) as usize, (i % 9) as usize),
        piece: Piece { side, kind, promoted: false },
        promote: false,
        capture: None,
        drop: Some(kind),
    }
}

/// The drops of one kind on the first `n` squares.
pub open spec fn kind_drops(pos: Position, kind: PieceKind, n: nat) -> Seq<GenMove>
    decreases n,
{
    if n == 0 {
        Seq::empty()
    } else {
        let before = kind_drops(pos, kind, (n - 1) as nat);
        if pos.board[n - 1] is None && may_drop(pos, kind, (n - 1) / 9, (n - 1) % 9) {
            before.push(drop_move(pos.side_to_move, kind, n - 1))
        } else {
            before
        }
    }
}

/// How many pieces of slot `k` the player to move has in hand.
pub open spec fn in_hand(pos: Position, k: int) -> u8 {
    pos.hands[types::hand_of(pos.side_to_move)][k]
}

/// The drops of the first `k` kinds in hand.
pub open spec fn drop_moves(pos: Position, k: nat) -> Seq<GenMove>
    decreases k,
{
    if k == 0 {
        Seq::empty()
    } else {
        let before = drop_moves(pos, (k - 1) as nat);
        if in_hand(pos, k - 1) > 0 {
            before + kind_drops(pos, hand_kinds()[k - 1], 81)
        } else {
            before
        }
    }
}

/// The moves of the player to move, before the safety of the king is looked at.
pub open spec fn pseudo_moves(pos: Position, rules: RulesView) -> Seq<GenMove> {
    board_moves(pos, rules, 81) + drop_moves(pos, 7)
}

// ---------------------------------------------------------------------------
// What a move does
// ---------------------------------------------------------------------------

/// One more piece of slot `k` in the hand of `side`, as far as the counter goes.
pub open spec fn hand_gains(hands: Seq<Seq<u8>>, side: Side, k: int) -> Seq<Seq<u8>> {
    let h = types::hand_of(side);
    let n = hands[h][k];
    hands.update(h, hands[h].update(k, if n < 255 { (n + 1) as u8 } else { n }))
}

/// One piece of slot `k` fewer in the hand of `side`.
pub open spec fn hand_loses(hands: Seq<Seq<u8>>, side: Side, k: int) -> Seq<Seq<u8>> {
    let h = types::hand_of(side);
    let n = hands[h][k];
    hands.update(h, hands[h].update(k, if n > 0 { (n - 1) as u8 } else { n }))
}

/// The square that a pair of coordinates names.
pub open spec fn square(at: (usize, usize)) -> int {
    at.0 * 9 + at.1
}

/// The position after a move. What stood on the target square goes to the mover's hand,
/// unpromoted, unless it was a king.
pub open spec fn after_move(pos: Position, mv: GenMove) -> Position {
    let next_side = pos.side_to_move.other();
    match (mv.from, mv.drop) {
        (Some(from), _) => {
            let moved = pos.board[square(from)].unwrap();
            let lifted = pos.board.update(square(from), None);
            let landed = Piece { promoted: moved.promoted || mv.promote, ..moved };
            Position {
                board: lifted.update(square(mv.to), Some(landed)),
                side_to_move: next_side,
                hands: match lifted[square(mv.to)] {
                    Some(taken) => match types::hand_slot(taken.kind) {
                        Some(k) => hand_gains(pos.hands, moved.side, k as int),
                        None => pos.hands,
                    },
                    None => pos.hands,
                },
            }
        },
        (None, Some(kind)) => Position {
            board: pos.board.update(
                square(mv.to),
                Some(Piece { side: pos.side_to_move, kind, promoted: false }),
            ),
            side_to_move: next_side,
            hands: match types::hand_slot(kind) {
                Some(k) => hand_loses(pos.hands, pos.side_to_move, k as int),
                None => pos.hands,
            },
        },
        (None, None) => Position { side_to_move: next_side, ..pos },
    }
}

/// Whether a move can be carried out: its squares are on the board, and a piece stands where
/// it starts.
pub open spec fn playable(pos: Position, mv: GenMove) -> bool {
    match (mv.from, mv.drop) {
        (Some(from), _) => square(from) < 81 && square(mv.to) < 81 && pos.board[square(from)]
            is Some,
        (None, Some(_)) => square(mv.to) < 81,
        (None, None) => true,
    }
}

// ---------------------------------------------------------------------------
// Check and legality
// ---------------------------------------------------------------------------

/// Whether some piece of `attacker` has a move onto `row`, `col`.
pub open spec fn attacked(
    pos: Position,
    attacker: Side,
    row: int,
    col: int,
    rules: RulesView,
) -> bool {
    exists|i: int, j: int|
        {
            &&& 0 <= i < 81
            &&& owned(pos, i, attacker)
            &&& 0 <= j < square_moves(pos, i, rules).len()
            &&& (#[trigger] square_moves(pos, i, rules)[j]).to == (row as usize, col as usize)
        }
}

/// Whether a king of `side` stands on square `i`.
pub open spec fn king_on(pos: Position, side: Side, i: int) -> bool {
    match pos.board[i] {
        Some(piece) => piece.side == side && piece.kind == PieceKind::King,
        None => false,
    }
}

/// Whether square `k` holds the first king of `side`, row by row.
pub open spec fn first_king(pos: Position, side: Side, k: int) -> bool {
    &&& 0 <= k < 81
    &&& king_on(pos, side, k)
    &&& forall|i: int| 0 <= i < k ==> !#[trigger] king_on(pos, side, i)
}

/// Whether the king of `side` is attacked. A side without a king is never in check.
pub open spec fn in_check(pos: Position, side: Side, rules: RulesView) -> bool {
    exists|k: int|
        #[trigger] first_king(pos, side, k) && attacked(pos, side.other(), k / 9, k % 9, rules)
}

/// Whether a move leaves the mover's own king attacked.
pub open spec fn exposes_king(pos: Position, mv: GenMove, rules: RulesView) -> bool {
    in_check(after_move(pos, mv), pos.side_to_move, rules)
}

/// Those of `moves` that do not leave the mover's own king attacked, in order.
pub open spec fn safe_among(pos: Position, rules: RulesView, moves: Seq<GenMove>) -> Seq<GenMove>
    decreases moves.len(),
{
    if moves.len() == 0 {
        Seq::empty()
    } else {
        let before = safe_among(pos, rules, moves.drop_last());
        if exposes_king(pos, moves.last(), rules) {
            before
        } else {
            before.push(moves.last())
        }
    }
}

/// Whether a move drops a pawn that mates at once: the opponent is in check and has no move
/// that ends it.
pub open spec fn pawn_drop_mates(pos: Position, mv: GenMove, rules: RulesView) -> bool {
    let next = after_move(pos, mv);
    &&& mv.drop == Some(PieceKind::Pawn)
    &&& in_check(next, next.side_to_move, rules)
    &&& safe_among(next, rules, pseudo_moves(next, rules)).len() == 0
}

/// Those of `moves` that neither leave the mover's own king attacked nor mate by a dropped
/// pawn, in order.
pub open spec fn legal_among(pos: Position, rules: RulesView, moves: Seq<GenMove>) -> Seq<GenMove>
    decreases moves.len(),
{
    if moves.len() == 0 {
        Seq::empty()
    } else {
        let before = legal_among(pos, rules, moves.drop_last());
        if exposes_king(pos, moves.last(), rules) || pawn_drop_mates(pos, moves.last(), rules) {
            before
        } else {
            before.push(moves.last())
        }
    }
}

/// The legal moves of the player to move, in the order of generation. Without `strict` a pawn
/// may be dropped for mate.
pub open spec fn legal_moves(pos: Position, rules: RulesView, strict: bool) -> Seq<GenMove> {
    if strict {
        legal_among(pos, rules, pseudo_moves(pos, rules))
    } else {
        safe_among(pos, rules, pseudo_moves(pos, rules))
    }
}

/// A generated move in board coordinates and piece codes.
pub open spec fn engine_move(mv: GenMove) -> EngineMoveView {
    EngineMoveView {
        from_row: match mv.from {
            Some(from) => Some(from.0 as i32),
            None => None,
        },
        from_col: match mv.from {
            Some(from) => Some(from.1 as i32),
            None => None,
        },
        to_row: mv.to.0 as i32,
        to_col: mv.to.1 as i32,
        piece_code: types::kind_code(mv.piece.kind),
        promote: mv.promote,
        drop_piece_code: match mv.drop {
            Some(kind) => Some(types::kind_code(kind)),
            None => None,
        },
        captured_piece_code: match mv.capture {
            Some(taken) => Some(types::kind_code(taken.kind)),
            None => None,
        },
        notation: None,
    }
}

} // verus!
