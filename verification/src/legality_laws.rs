//! Which moves are generated, in which order, and which of them are legal.

use crate::movement_laws;
use crate::shogi;
use crate::shogi_laws;
use crate::types;
use crate::types::{GenMove, Piece, PieceKind, Position, RulesView, Side, VectorRule};
use vstd::prelude::*;

verus! {

// ---------------------------------------------------------------------------
// Generated moves
// ---------------------------------------------------------------------------

/// The opponent of a side.
pub open spec fn opponent(side: Side) -> Side {
    match side {
        Side::Black => Side::White,
        Side::White => Side::Black,
    }
}

/// The number of a kind among those that can be in hand; a king has none.
pub open spec fn hand_number(kind: PieceKind) -> int {
    match kind {
        PieceKind::Pawn => 0,
        PieceKind::Lance => 1,
        PieceKind::Knight => 2,
        PieceKind::Silver => 3,
        PieceKind::Gold => 4,
        PieceKind::Bishop => 5,
        PieceKind::Rook => 6,
        PieceKind::King => -1,
    }
}

/// How many pieces of a kind a side has in hand. Black's hand comes first.
pub open spec fn held(pos: Position, side: Side, kind: PieceKind) -> int {
    let hand = match side {
        Side::Black => pos.hands[0],
        Side::White => pos.hands[1],
    };
    hand[hand_number(kind)] as int
}

/// Whether `mv` moves a piece of the player to move on the board.
pub open spec fn is_board_move(pos: Position, rules: RulesView, mv: GenMove) -> bool {
    &&& mv.from matches Some(from)
    &&& from.0 <= 8
    &&& from.1 <= 8
    &&& movement_laws::standing(pos, from.0 as int, from.1 as int) == Some(mv.piece)
    &&& mv.piece.side == pos.side_to_move
    &&& movement_laws::is_move_of(
        pos,
        mv.piece,
        (from.0 as int, from.1 as int),
        rules,
        mv,
    )
}

/// Whether `mv` drops a piece that the player to move has in hand on an empty square: not where it
/// would be stuck, and no pawn on a file where an unpromoted pawn of the same player stands.
pub open spec fn is_drop(pos: Position, mv: GenMove) -> bool {
    let side = pos.side_to_move;
    &&& mv.from is None
    &&& mv.drop matches Some(kind)
    &&& kind != PieceKind::King
    &&& held(pos, side, kind) > 0
    &&& mv.piece == (Piece { side, kind, promoted: false })
    &&& !mv.promote
    &&& mv.capture is None
    &&& mv.to.0 <= 8
    &&& mv.to.1 <= 8
    &&& movement_laws::standing(pos, mv.to.0 as int, mv.to.1 as int) is None
    &&& !movement_laws::stuck(mv.piece, mv.to.0 as int)
    &&& kind == PieceKind::Pawn ==> forall|row: int|
        0 <= row <= 8 ==> #[trigger] movement_laws::standing(pos, row, mv.to.1 as int) != Some(
            Piece { side, kind: PieceKind::Pawn, promoted: false },
        )
}

proof fn lemma_drop_fits(pos: Position, mv: GenMove)
    requires
        pos.wf(),
    ensures
        shogi_laws::drop_fits(pos, mv) <==> is_drop(pos, mv),
{
    let side = pos.side_to_move;
    let col = mv.to.1 as int;
    let own = Some(Piece { side, kind: PieceKind::Pawn, promoted: false });
    if let Some(kind) = mv.drop {
        if kind != PieceKind::King {
            assert(types::hand_slot(kind) == Some(hand_number(kind) as usize));
            assert(shogi::in_hand(pos, hand_number(kind)) == held(pos, side, kind));
        }
        if shogi::pawn_on_file(pos, side, col) {
            let row = choose|row: int| 0 <= row < 9 && #[trigger] pos.at(row, col) == own;
            assert(movement_laws::standing(pos, row, col) == own);
        } else {
            assert forall|row: int| 0 <= row <= 8 implies #[trigger] movement_laws::standing(
                pos,
                row,
                col,
            ) != own by {
                assert(pos.at(row, col) != own);
            }
        }
    }
}

/// The generated moves are exactly the moves on the board and the drops of the player to move.
pub proof fn law_generated_moves(pos: Position, rules: RulesView, mv: GenMove)
    requires
        pos.wf(),
    ensures
        shogi::pseudo_moves(pos, rules).contains(mv) <==> is_board_move(pos, rules, mv) || is_drop(
            pos,
            mv,
        ),
{
    let on_board = shogi::board_moves(pos, rules, 81);
    let drops = shogi::drop_moves(pos, 7);
    shogi_laws::lemma_append_contains(on_board, drops, mv);
    shogi_laws::law_all_moves_are_generated(pos, rules, mv);
    lemma_drop_fits(pos, mv);
    if on_board.contains(mv) {
        let i = shogi_laws::lemma_board_move_has_square(pos, rules, 81, mv);
        let from = (i / 9, i % 9);
        let piece = pos.board[i].unwrap();
        movement_laws::law_moves_of_a_piece(pos, piece, from, rules, mv);
        assert(movement_laws::standing(pos, from.0, from.1) == Some(piece));
    }
    if drops.contains(mv) {
        let j = choose|j: int| 0 <= j < drops.len() && drops[j] == mv;
        shogi_laws::lemma_drop_moves_fit(pos, 7);
        assert(shogi_laws::drop_fits(pos, drops[j]));
    }
    if is_board_move(pos, rules, mv) {
        let start = mv.from.unwrap();
        let i = 9 * start.0 + start.1;
        assert(i / 9 == start.0 && i % 9 == start.1);
        movement_laws::law_moves_of_a_piece(
            pos,
            mv.piece,
            (start.0 as int, start.1 as int),
            rules,
            mv,
        );
        shogi_laws::lemma_board_holds_move(pos, rules, 81, i, mv);
    }
}

// ---------------------------------------------------------------------------
// Check
// ---------------------------------------------------------------------------

/// Whether a king of the side stands on square `k`.
pub open spec fn king_stands(pos: Position, side: Side, k: int) -> bool {
    pos.board[k] matches Some(piece) && piece.side == side && piece.kind == PieceKind::King
}

/// Whether a piece of the other side on square `i` gets to square `k`.
pub open spec fn threatens(pos: Position, side: Side, i: int, k: int, rules: RulesView) -> bool {
    &&& 0 <= i < 81
    &&& pos.board[i] matches Some(piece)
    &&& piece.side != side
    &&& movement_laws::gets(pos, piece, (i / 9, i % 9), (k / 9, k % 9), rules)
}

proof fn lemma_move_ends_there(
    pos: Position,
    piece: Piece,
    from: (int, int),
    to: (int, int),
    rules: RulesView,
)
    requires
        shogi::on_board(from.0, from.1),
        shogi::on_board(to.0, to.1),
    ensures
        movement_laws::gets(pos, piece, from, to, rules) <==> exists|j: int|
            {
                &&& 0 <= j < shogi::piece_moves(pos, from, piece, rules).len()
                &&& (#[trigger] shogi::piece_moves(pos, from, piece, rules)[j]).to == (
                    to.0 as usize,
                    to.1 as usize,
                )
            },
{
    let moves = shogi::piece_moves(pos, from, piece, rules);
    if movement_laws::gets(pos, piece, from, to, rules) {
        let mv = GenMove {
            from: Some((from.0 as usize, from.1 as usize)),
            to: (to.0 as usize, to.1 as usize),
            piece,
            promote: movement_laws::stuck(piece, to.0),
            capture: movement_laws::standing(pos, to.0, to.1),
            drop: None,
        };
        movement_laws::law_moves_of_a_piece(pos, piece, from, rules, mv);
        let j = choose|j: int| 0 <= j < moves.len() && moves[j] == mv;
        assert(moves[j].to == (to.0 as usize, to.1 as usize));
    }
    if exists|j: int|
        0 <= j < moves.len() && (#[trigger] moves[j]).to == (to.0 as usize, to.1 as usize) {
        let j = choose|j: int|
            0 <= j < moves.len() && (#[trigger] moves[j]).to == (to.0 as usize, to.1 as usize);
        assert(moves.contains(moves[j]));
        movement_laws::law_moves_of_a_piece(pos, piece, from, rules, moves[j]);
    }
}

/// A side is in check exactly if a piece of the opponent gets to its king; should it have several,
/// the first of them, row by row, counts.
pub proof fn law_check(pos: Position, side: Side, rules: RulesView)
    requires
        pos.wf(),
    ensures
        shogi::in_check(pos, side, rules) <==> exists|k: int, i: int|
            {
                &&& 0 <= k < 81
                &&& king_stands(pos, side, k)
                &&& forall|j: int| 0 <= j < k ==> !#[trigger] king_stands(pos, side, j)
                &&& #[trigger] threatens(pos, side, i, k, rules)
            },
{
    if shogi::in_check(pos, side, rules) {
        let k = choose|k: int|
            #[trigger] shogi::first_king(pos, side, k) && shogi::attacked(
                pos,
                side.other(),
                k / 9,
                k % 9,
                rules,
            );
        let (i, j): (int, int) = choose|i: int, j: int|
            {
                &&& 0 <= i < 81
                &&& shogi::owned(pos, i, side.other())
                &&& 0 <= j < shogi::square_moves(pos, i, rules).len()
                &&& (#[trigger] shogi::square_moves(pos, i, rules)[j]).to == (
                    (k / 9) as usize,
                    (k % 9) as usize,
                )
            };
        let piece = pos.board[i].unwrap();
        lemma_move_ends_there(pos, piece, (i / 9, i % 9), (k / 9, k % 9), rules);
        assert(shogi::piece_moves(pos, (i / 9, i % 9), piece, rules)[j].to == (
            (k / 9) as usize,
            (k % 9) as usize,
        ));
        assert forall|j: int| 0 <= j < k implies !#[trigger] king_stands(pos, side, j) by {
            assert(!shogi::king_on(pos, side, j));
        }
        assert(threatens(pos, side, i, k, rules));
    }
    if exists|k: int, i: int|
        {
            &&& 0 <= k < 81
            &&& king_stands(pos, side, k)
            &&& forall|j: int| 0 <= j < k ==> !#[trigger] king_stands(pos, side, j)
            &&& #[trigger] threatens(pos, side, i, k, rules)
        } {
        let (k, i): (int, int) = choose|k: int, i: int|
            {
                &&& 0 <= k < 81
                &&& king_stands(pos, side, k)
                &&& forall|j: int| 0 <= j < k ==> !#[trigger] king_stands(pos, side, j)
                &&& #[trigger] threatens(pos, side, i, k, rules)
            };
        let piece = pos.board[i].unwrap();
        lemma_move_ends_there(pos, piece, (i / 9, i % 9), (k / 9, k % 9), rules);
        let moves = shogi::piece_moves(pos, (i / 9, i % 9), piece, rules);
        let j = choose|j: int|
            0 <= j < moves.len() && (#[trigger] moves[j]).to == (
                (k / 9) as usize,
                (k % 9) as usize,
            );
        assert(shogi::square_moves(pos, i, rules)[j].to == (
            (k / 9) as usize,
            (k % 9) as usize,
        ));
        assert(shogi::owned(pos, i, side.other()));
        assert forall|j: int| 0 <= j < k implies !#[trigger] shogi::king_on(pos, side, j) by {
            assert(!king_stands(pos, side, j));
        }
        assert(shogi::first_king(pos, side, k));
    }
}

// ---------------------------------------------------------------------------
// Legal moves
// ---------------------------------------------------------------------------

/// Whether the player to move has no move that leaves the own king out of check.
pub open spec fn has_no_escape(pos: Position, rules: RulesView) -> bool {
    forall|reply: GenMove| #[trigger]
        shogi::pseudo_moves(pos, rules).contains(reply) ==> shogi::in_check(
            shogi::after_move(pos, reply),
            pos.side_to_move,
            rules,
        )
}

/// Whether a move leaves the mover's king out of check and, where that is enforced, does not drop a
/// pawn that mates at once.
pub open spec fn is_legal(pos: Position, rules: RulesView, strict: bool, mv: GenMove) -> bool {
    let next = shogi::after_move(pos, mv);
    &&& !shogi::in_check(next, pos.side_to_move, rules)
    &&& !{
        &&& strict
        &&& mv.drop == Some(PieceKind::Pawn)
        &&& shogi::in_check(next, opponent(pos.side_to_move), rules)
        &&& has_no_escape(next, rules)
    }
}

proof fn lemma_safe_is_filter(pos: Position, rules: RulesView, moves: Seq<GenMove>)
    ensures
        shogi::safe_among(pos, rules, moves) == moves.filter(
            |mv: GenMove| is_legal(pos, rules, false, mv),
        ),
    decreases moves.len(),
{
    reveal(Seq::filter);
    if moves.len() > 0 {
        lemma_safe_is_filter(pos, rules, moves.drop_last());
    }
}

proof fn lemma_no_escape(pos: Position, rules: RulesView)
    ensures
        has_no_escape(pos, rules) <==> shogi::safe_among(
            pos,
            rules,
            shogi::pseudo_moves(pos, rules),
        ).len() == 0,
{
    let pseudo = shogi::pseudo_moves(pos, rules);
    let safe = shogi::safe_among(pos, rules, pseudo);
    if safe.len() > 0 {
        assert(safe.contains(safe[0]));
        shogi_laws::lemma_safe_among(pos, rules, pseudo, safe[0]);
    } else {
        assert forall|reply: GenMove| #[trigger] pseudo.contains(reply) implies shogi::in_check(
            shogi::after_move(pos, reply),
            pos.side_to_move,
            rules,
        ) by {
            shogi_laws::lemma_safe_among(pos, rules, pseudo, reply);
        }
    }
}

proof fn lemma_legal_is_filter(pos: Position, rules: RulesView, moves: Seq<GenMove>)
    ensures
        shogi::legal_among(pos, rules, moves) == moves.filter(
            |mv: GenMove| is_legal(pos, rules, true, mv),
        ),
    decreases moves.len(),
{
    reveal(Seq::filter);
    if moves.len() > 0 {
        lemma_legal_is_filter(pos, rules, moves.drop_last());
        let next = shogi::after_move(pos, moves.last());
        lemma_no_escape(next, rules);
        assert(next.side_to_move == opponent(pos.side_to_move));
    }
}

/// The legal moves are the legal ones of the generated moves, in the same order.
pub proof fn law_legal_moves_in_order(pos: Position, rules: RulesView, strict: bool)
    ensures
        shogi::legal_moves(pos, rules, strict) == shogi::pseudo_moves(pos, rules).filter(
            |mv: GenMove| is_legal(pos, rules, strict, mv),
        ),
{
    lemma_safe_is_filter(pos, rules, shogi::pseudo_moves(pos, rules));
    lemma_legal_is_filter(pos, rules, shogi::pseudo_moves(pos, rules));
}

// ---------------------------------------------------------------------------
// The order of generation
// ---------------------------------------------------------------------------

/// The place of a straight direction: up, down, left, right.
pub open spec fn straight_turn(rows: int, cols: int) -> int {
    if rows < 0 {
        0
    } else if rows > 0 {
        1
    } else if cols < 0 {
        2
    } else {
        3
    }
}

/// The place of a slanted direction: the upper ones first, of each pair the left one.
pub open spec fn slanted_turn(rows: int, cols: int) -> int {
    (if rows < 0 {
        0int
    } else {
        2int
    }) + (if cols < 0 {
        0int
    } else {
        1int
    })
}

/// The place of a direction among those of a piece.
pub open spec fn turn(piece: Piece, rows: int, cols: int) -> int {
    let ahead = movement_laws::forward(piece.side, rows);
    if movement_laws::turned_gold(piece) || piece.kind == PieceKind::Gold {
        if ahead > 0 {
            if cols == 0 {
                0
            } else if cols < 0 {
                1
            } else {
                2
            }
        } else if ahead == 0 {
            if cols < 0 {
                3
            } else {
                4
            }
        } else {
            5
        }
    } else {
        match piece.kind {
            PieceKind::Silver => if ahead > 0 {
                1 + movement_laws::sign(cols)
            } else if cols < 0 {
                3
            } else {
                4
            },
            PieceKind::Knight => if cols < 0 {
                0
            } else {
                1
            },
            PieceKind::Bishop => if rows != 0 && cols != 0 {
                slanted_turn(rows, cols)
            } else {
                4 + straight_turn(rows, cols)
            },
            PieceKind::Rook => if rows == 0 || cols == 0 {
                straight_turn(rows, cols)
            } else {
                4 + slanted_turn(rows, cols)
            },
            PieceKind::King => 3 * movement_laws::sign(rows) + movement_laws::sign(cols),
            _ => 0,
        }
    }
}

/// Whether of two moves of a piece from `from` the first is generated before the second: by the
/// place of its direction, then by the number of steps, then the one that promotes.
pub open spec fn precedes_from(from: (int, int), piece: Piece, a: GenMove, b: GenMove) -> bool {
    let first = turn(piece, a.to.0 - from.0, a.to.1 - from.1);
    let second = turn(piece, b.to.0 - from.0, b.to.1 - from.1);
    let near = movement_laws::span(a.to.0 - from.0, a.to.1 - from.1);
    let far = movement_laws::span(b.to.0 - from.0, b.to.1 - from.1);
    ||| first < second
    ||| first == second && near < far
    ||| first == second && near == far && a.promote && !b.promote
}

/// Whether of two moves of a position the first is generated before the second: moves on the board
/// before drops, the former by the square where they start, row by row, the latter by kind and then
/// by square.
pub open spec fn precedes(a: GenMove, b: GenMove) -> bool {
    match (a.from, b.from) {
        (Some(f), Some(g)) => {
            let from = (f.0 as int, f.1 as int);
            ||| 9 * f.0 + f.1 < 9 * g.0 + g.1
            ||| f == g && precedes_from(from, a.piece, a, b)
        },
        (Some(_), None) => true,
        (None, Some(_)) => false,
        (None, None) => {
            let first = hand_number(a.piece.kind);
            let second = hand_number(b.piece.kind);
            ||| first < second
            ||| first == second && 9 * a.to.0 + a.to.1 < 9 * b.to.0 + b.to.1
        },
    }
}

/// Whether each of the moves precedes all that follow it.
pub open spec fn in_order(moves: Seq<GenMove>) -> bool {
    forall|i: int, j: int|
        0 <= i < j < moves.len() ==> precedes(#[trigger] moves[i], #[trigger] moves[j])
}

/// Directions in the order of their places, each to a neighbouring square or a single step.
spec fn take_turns(piece: Piece, vectors: Seq<VectorRule>) -> bool {
    &&& forall|d: int|
        0 <= d < vectors.len() ==> movable(#[trigger] vectors[d])
    &&& forall|c: int, d: int|
        0 <= c < d < vectors.len() ==> turn(
            piece,
            (#[trigger] vectors[c]).dr as int,
            vectors[c].dc as int,
        ) < turn(piece, (#[trigger] vectors[d]).dr as int, vectors[d].dc as int)
}

spec fn movable(v: VectorRule) -> bool {
    &&& v.dr != 0 || v.dc != 0
    &&& !v.slide || (-1 <= v.dr <= 1 && -1 <= v.dc <= 1)
}

proof fn lemma_along_keeps_turn(piece: Piece, from: (int, int), v: VectorRule, n: int)
    requires
        movable(v),
        n == 1 || (n > 1 && v.slide),
    ensures
        ({
            let at = shogi_laws::along(from, v, n);
            &&& turn(piece, at.0 - from.0, at.1 - from.1) == turn(piece, v.dr as int, v.dc as int)
            &&& v.slide ==> movement_laws::span(at.0 - from.0, at.1 - from.1) == n
        }),
{
    if v.slide {
        movement_laws::lemma_times(n, v.dr as int);
        movement_laws::lemma_times(n, v.dc as int);
    } else {
        shogi_laws::lemma_along(from, v, 1);
    }
}

proof fn lemma_ray_in_order(pos: Position, from: (int, int), piece: Piece, v: VectorRule, n: int)
    requires
        movable(v),
        n == 1 || (n > 1 && v.slide),
        shogi::on_board(from.0, from.1),
    ensures
        ({
            let at = shogi_laws::along(from, v, n);
            let moves = shogi::ray_moves(pos, from, piece, at.0, at.1, v);
            forall|i: int, j: int|
                0 <= i < j < moves.len() ==> precedes_from(
                    from,
                    piece,
                    #[trigger] moves[i],
                    #[trigger] moves[j],
                )
        }),
    decreases
            shogi::ray_room(
                shogi_laws::along(from, v, n).0,
                shogi_laws::along(from, v, n).1,
                v,
            ),
{
    let at = shogi_laws::along(from, v, n);
    let moves = shogi::ray_moves(pos, from, piece, at.0, at.1, v);
    shogi_laws::lemma_along(from, v, n);
    lemma_along_keeps_turn(piece, from, v, n);
    if shogi::on_board(at.0, at.1) && pos.at(at.0, at.1) is None && v.slide {
        let here = shogi::variants(shogi::board_move(from.0, from.1, at.0, at.1, piece, None));
        lemma_ray_in_order(pos, from, piece, v, n + 1);
        let next = shogi_laws::along(from, v, n + 1);
        let rest = shogi::ray_moves(pos, from, piece, next.0, next.1, v);
        assert(moves =~= here + rest);
        assert forall|i: int, j: int| 0 <= i < j < moves.len() implies precedes_from(
            from,
            piece,
            #[trigger] moves[i],
            #[trigger] moves[j],
        ) by {
            if j < here.len() {
                assert(moves[i] == here[i] && moves[j] == here[j]);
            } else if i >= here.len() {
                assert(moves[i] == rest[i - here.len()] && moves[j] == rest[j - here.len()]);
            } else {
                assert(moves[i] == here[i] && moves[j] == rest[j - here.len()]);
                let m = shogi_laws::lemma_ray_targets(
                    pos,
                    from,
                    piece,
                    v,
                    n + 1,
                    j - here.len(),
                );
                lemma_along_keeps_turn(piece, from, v, m);
            }
        }
    }
}

proof fn lemma_vectors_in_order(
    pos: Position,
    from: (int, int),
    piece: Piece,
    vectors: Seq<VectorRule>,
)
    requires
        take_turns(piece, vectors),
        shogi::on_board(from.0, from.1),
    ensures
        ({
            let moves = shogi::vector_moves(pos, from, piece, vectors);
            forall|i: int, j: int|
                0 <= i < j < moves.len() ==> precedes_from(
                    from,
                    piece,
                    #[trigger] moves[i],
                    #[trigger] moves[j],
                )
        }),
    decreases vectors.len(),
{
    if vectors.len() > 0 {
        let front = vectors.drop_last();
        let v = vectors.last();
        let last = vectors.len() - 1;
        let before = shogi::vector_moves(pos, from, piece, front);
        let ray = shogi::ray_moves(pos, from, piece, from.0 + v.dr, from.1 + v.dc, v);
        let moves = shogi::vector_moves(pos, from, piece, vectors);
        assert(take_turns(piece, front)) by {
            assert forall|c: int, d: int| 0 <= c < d < front.len() implies turn(
                piece,
                (#[trigger] front[c]).dr as int,
                front[c].dc as int,
            ) < turn(piece, (#[trigger] front[d]).dr as int, front[d].dc as int) by {
                assert(front[c] == vectors[c] && front[d] == vectors[d]);
            }
            assert forall|d: int| 0 <= d < front.len() implies movable(#[trigger] front[d]) by {
                assert(movable(vectors[d]));
            }
        }
        lemma_vectors_in_order(pos, from, piece, front);
        assert(movable(vectors[last]));
        shogi_laws::lemma_along(from, v, 1);
        lemma_ray_in_order(pos, from, piece, v, 1);
        assert(moves =~= before + ray);
        assert forall|i: int, j: int| 0 <= i < j < moves.len() implies precedes_from(
            from,
            piece,
            #[trigger] moves[i],
            #[trigger] moves[j],
        ) by {
            if j < before.len() {
                assert(moves[i] == before[i] && moves[j] == before[j]);
            } else if i >= before.len() {
                assert(moves[i] == ray[i - before.len()] && moves[j] == ray[j - before.len()]);
            } else {
                assert(moves[i] == before[i] && moves[j] == ray[j - before.len()]);
                let found = shogi_laws::lemma_vector_targets(pos, from, piece, front, i);
                let m = shogi_laws::lemma_ray_targets(pos, from, piece, v, 1, j - before.len());
                assert(front[found.0] == vectors[found.0]);
                assert(movable(vectors[found.0]));
                lemma_along_keeps_turn(piece, from, vectors[found.0], found.1);
                lemma_along_keeps_turn(piece, from, v, m);
            }
        }
    }
}

proof fn lemma_basic_vectors_take_turns(piece: Piece)
    ensures
        take_turns(piece, shogi::basic_vectors(piece)),
{
}

/// The moves of a piece that moves by the basic rules are generated by direction, then by distance,
/// with the promoting form of a move first.
pub proof fn law_moves_of_a_piece_in_order(
    pos: Position,
    piece: Piece,
    from: (int, int),
    rules: RulesView,
    i: int,
    j: int,
)
    requires
        0 <= from.0 <= 8,
        0 <= from.1 <= 8,
        !rules.vectors.contains_key(types::kind_code(piece.kind)),
        0 <= i < j < shogi::piece_moves(pos, from, piece, rules).len(),
    ensures
        precedes_from(
            from,
            piece,
            shogi::piece_moves(pos, from, piece, rules)[i],
            shogi::piece_moves(pos, from, piece, rules)[j],
        ),
{
    assert(shogi::piece_vectors(piece, rules) =~= shogi::basic_vectors(piece));
    lemma_basic_vectors_take_turns(piece);
    lemma_vectors_in_order(pos, from, piece, shogi::basic_vectors(piece));
}

proof fn lemma_board_moves_in_order(pos: Position, rules: RulesView, n: nat)
    requires
        pos.wf(),
        n <= 81,
        rules.vectors == Map::<Seq<char>, Seq<VectorRule>>::empty(),
    ensures
        in_order(shogi::board_moves(pos, rules, n)),
        forall|j: int|
            0 <= j < shogi::board_moves(pos, rules, n).len() ==> {
                let mv = #[trigger] shogi::board_moves(pos, rules, n)[j];
                mv.from matches Some(f) && f.1 <= 8 && 9 * f.0 + f.1 < n
            },
    decreases n,
{
    if n > 0 {
        let before = shogi::board_moves(pos, rules, (n - 1) as nat);
        let moves = shogi::board_moves(pos, rules, n);
        lemma_board_moves_in_order(pos, rules, (n - 1) as nat);
        if shogi::owned(pos, n - 1, pos.side_to_move) {
            let k = n - 1;
            let from = (k / 9, k % 9);
            let piece = pos.board[k].unwrap();
            let own = shogi::square_moves(pos, k, rules);
            assert(moves =~= before + own);
            assert forall|j: int| 0 <= j < own.len() implies {
                let mv = #[trigger] own[j];
                mv.from == Some((from.0 as usize, from.1 as usize)) && mv.piece == piece
            } by {
                assert(own.contains(own[j]));
                movement_laws::law_moves_of_a_piece(pos, piece, from, rules, own[j]);
            }
            assert forall|i: int, j: int| 0 <= i < j < moves.len() implies precedes(
                #[trigger] moves[i],
                #[trigger] moves[j],
            ) by {
                if j < before.len() {
                    assert(moves[i] == before[i] && moves[j] == before[j]);
                } else if i >= before.len() {
                    assert(moves[i] == own[i - before.len()] && moves[j] == own[j - before.len()]);
                    law_moves_of_a_piece_in_order(
                        pos,
                        piece,
                        from,
                        rules,
                        i - before.len(),
                        j - before.len(),
                    );
                } else {
                    assert(moves[i] == before[i] && moves[j] == own[j - before.len()]);
                }
            }
        }
    }
}

proof fn lemma_kind_drops_in_order(pos: Position, kind: PieceKind, n: nat)
    requires
        n <= 81,
    ensures
        in_order(shogi::kind_drops(pos, kind, n)),
        forall|j: int|
            0 <= j < shogi::kind_drops(pos, kind, n).len() ==> {
                let mv = #[trigger] shogi::kind_drops(pos, kind, n)[j];
                mv.from is None && mv.piece.kind == kind && 9 * mv.to.0 + mv.to.1 < n
            },
    decreases n,
{
    if n > 0 {
        lemma_kind_drops_in_order(pos, kind, (n - 1) as nat);
        assert(9 * ((n - 1) / 9) + (n - 1) % 9 == n - 1);
    }
}

proof fn lemma_drop_moves_in_order(pos: Position, k: nat)
    requires
        k <= 7,
    ensures
        in_order(shogi::drop_moves(pos, k)),
        forall|j: int|
            0 <= j < shogi::drop_moves(pos, k).len() ==> {
                let mv = #[trigger] shogi::drop_moves(pos, k)[j];
                mv.from is None && 0 <= hand_number(mv.piece.kind) < k
            },
    decreases k,
{
    if k > 0 {
        let before = shogi::drop_moves(pos, (k - 1) as nat);
        let moves = shogi::drop_moves(pos, k);
        let kind = shogi::hand_kinds()[k - 1];
        assert(hand_number(kind) == k - 1);
        lemma_drop_moves_in_order(pos, (k - 1) as nat);
        lemma_kind_drops_in_order(pos, kind, 81);
        if shogi::in_hand(pos, k - 1) > 0 {
            let own = shogi::kind_drops(pos, kind, 81);
            assert(moves =~= before + own);
            assert forall|i: int, j: int| 0 <= i < j < moves.len() implies precedes(
                #[trigger] moves[i],
                #[trigger] moves[j],
            ) by {
                if j < before.len() {
                    assert(moves[i] == before[i] && moves[j] == before[j]);
                } else if i >= before.len() {
                    assert(moves[i] == own[i - before.len()] && moves[j] == own[j - before.len()]);
                } else {
                    assert(moves[i] == before[i] && moves[j] == own[j - before.len()]);
                }
            }
        }
    }
}

/// Without added directions the moves of a position are generated in this order, none twice.
pub proof fn law_generated_moves_in_order(pos: Position, rules: RulesView, i: int, j: int)
    requires
        pos.wf(),
        rules.vectors == Map::<Seq<char>, Seq<VectorRule>>::empty(),
        0 <= i < j < shogi::pseudo_moves(pos, rules).len(),
    ensures
        precedes(shogi::pseudo_moves(pos, rules)[i], shogi::pseudo_moves(pos, rules)[j]),
{
    let on_board = shogi::board_moves(pos, rules, 81);
    let drops = shogi::drop_moves(pos, 7);
    lemma_board_moves_in_order(pos, rules, 81);
    lemma_drop_moves_in_order(pos, 7);
    let moves = shogi::pseudo_moves(pos, rules);
    if j < on_board.len() {
        assert(moves[i] == on_board[i] && moves[j] == on_board[j]);
    } else if i >= on_board.len() {
        assert(moves[i] == drops[i - on_board.len()] && moves[j] == drops[j - on_board.len()]);
    } else {
        assert(moves[i] == on_board[i] && moves[j] == drops[j - on_board.len()]);
    }
}

} // verus!
