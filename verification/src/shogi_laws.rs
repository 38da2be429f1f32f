//! What holds of every generated move.

use crate::shogi;
use crate::types;
use crate::types::{GenMove, Piece, PieceKind, Position, RulesView, Side, VectorRule};
use vstd::prelude::*;

verus! {

/// A move on the board by the rules of movement and promotion: it starts on the piece that it
/// names, ends on the board and not on a piece of its own side, names what it captures, promotes
/// only where that is allowed, and leaves no unpromoted piece where it could never move again.
pub open spec fn board_move_fits(pos: Position, mv: GenMove) -> bool {
    &&& mv.from matches Some(from)
    &&& shogi::on_board(from.0 as int, from.1 as int)
    &&& shogi::on_board(mv.to.0 as int, mv.to.1 as int)
    &&& pos.board[shogi::square(from)] == Some(mv.piece)
    &&& mv.capture == pos.board[shogi::square(mv.to)]
    &&& mv.capture matches Some(taken) ==> taken.side != mv.piece.side
    &&& mv.promote ==> shogi::can_promote(mv.piece, from.0 as int, mv.to.0 as int)
    &&& mv.piece.promoted || mv.promote || !types::dead_end(
        mv.piece.side,
        mv.piece.kind,
        mv.to.0 as int,
    )
    &&& mv.drop is None
}

/// A drop by the rules: of a kind that the player has in hand, unpromoted, on an empty square,
/// not where it could never move, and no second unpromoted pawn on a file.
pub open spec fn drop_fits(pos: Position, mv: GenMove) -> bool {
    &&& mv.from is None
    &&& mv.drop matches Some(kind)
    &&& shogi::on_board(mv.to.0 as int, mv.to.1 as int)
    &&& pos.board[shogi::square(mv.to)] is None
    &&& mv.piece == (Piece { side: pos.side_to_move, kind, promoted: false })
    &&& !mv.promote
    &&& mv.capture is None
    &&& types::hand_slot(kind) matches Some(k)
    &&& shogi::in_hand(pos, k as int) > 0
    &&& shogi::may_drop(pos, kind, mv.to.0 as int, mv.to.1 as int)
}

/// A move or drop of the player to move that follows the rules, the king's safety aside.
pub open spec fn fits(pos: Position, mv: GenMove) -> bool {
    ||| board_move_fits(pos, mv) && mv.piece.side == pos.side_to_move
    ||| drop_fits(pos, mv)
}

proof fn lemma_ray_moves_fit(
    pos: Position,
    from: (int, int),
    piece: Piece,
    row: int,
    col: int,
    v: VectorRule,
)
    requires
        pos.wf(),
        shogi::on_board(from.0, from.1),
        pos.at(from.0, from.1) == Some(piece),
    ensures
        forall|j: int|
            0 <= j < shogi::ray_moves(pos, from, piece, row, col, v).len() ==> {
                let mv = #[trigger] shogi::ray_moves(pos, from, piece, row, col, v)[j];
                board_move_fits(pos, mv) && mv.piece == piece
            },
    decreases shogi::ray_room(row, col, v),
{
    if shogi::on_board(row, col) && (v.dr != 0 || v.dc != 0) && pos.at(row, col) is None
        && v.slide {
        lemma_ray_moves_fit(pos, from, piece, row + v.dr, col + v.dc, v);
    }
}

proof fn lemma_vector_moves_fit(
    pos: Position,
    from: (int, int),
    piece: Piece,
    vectors: Seq<VectorRule>,
)
    requires
        pos.wf(),
        shogi::on_board(from.0, from.1),
        pos.at(from.0, from.1) == Some(piece),
    ensures
        forall|j: int|
            0 <= j < shogi::vector_moves(pos, from, piece, vectors).len() ==> {
                let mv = #[trigger] shogi::vector_moves(pos, from, piece, vectors)[j];
                board_move_fits(pos, mv) && mv.piece == piece
            },
    decreases vectors.len(),
{
    if vectors.len() > 0 {
        let v = vectors.last();
        lemma_vector_moves_fit(pos, from, piece, vectors.drop_last());
        lemma_ray_moves_fit(pos, from, piece, from.0 + v.dr, from.1 + v.dc, v);
    }
}

proof fn lemma_square_moves_fit(pos: Position, i: int, rules: RulesView)
    requires
        pos.wf(),
        0 <= i < 81,
    ensures
        forall|j: int|
            0 <= j < shogi::square_moves(pos, i, rules).len() ==> {
                let mv = #[trigger] shogi::square_moves(pos, i, rules)[j];
                board_move_fits(pos, mv) && Some(mv.piece) == pos.board[i]
            },
{
    if let Some(piece) = pos.board[i] {
        lemma_vector_moves_fit(
            pos,
            (i / 9, i % 9),
            piece,
            shogi::piece_vectors(piece, rules),
        );
    }
}

proof fn lemma_board_moves_fit(pos: Position, rules: RulesView, n: nat)
    requires
        pos.wf(),
        n <= 81,
    ensures
        forall|j: int|
            0 <= j < shogi::board_moves(pos, rules, n).len() ==> {
                let mv = #[trigger] shogi::board_moves(pos, rules, n)[j];
                board_move_fits(pos, mv) && mv.piece.side == pos.side_to_move
            },
    decreases n,
{
    if n > 0 {
        lemma_board_moves_fit(pos, rules, (n - 1) as nat);
        lemma_square_moves_fit(pos, n - 1, rules);
    }
}

proof fn lemma_kind_drops_fit(pos: Position, kind: PieceKind, n: nat)
    requires
        pos.wf(),
        n <= 81,
        types::hand_slot(kind) matches Some(k) && shogi::in_hand(pos, k as int) > 0,
    ensures
        forall|j: int|
            0 <= j < shogi::kind_drops(pos, kind, n).len() ==> drop_fits(
                pos,
                #[trigger] shogi::kind_drops(pos, kind, n)[j],
            ),
    decreases n,
{
    if n > 0 {
        lemma_kind_drops_fit(pos, kind, (n - 1) as nat);
        let before = shogi::kind_drops(pos, kind, (n - 1) as nat);
        let mv = shogi::drop_move(pos.side_to_move, kind, n - 1);
        assert(shogi::kind_drops(pos, kind, n) == before || shogi::kind_drops(pos, kind, n)
            == before.push(mv));
        assert(mv.to.0 == (n - 1) / 9 && mv.to.1 == (n - 1) % 9);
        assert(shogi::square(mv.to) == n - 1);
        if pos.board[n - 1] is None && shogi::may_drop(pos, kind, (n - 1) / 9, (n - 1) % 9) {
            assert(drop_fits(pos, mv));
        }
    }
}

pub(crate) proof fn lemma_drop_moves_fit(pos: Position, k: nat)
    requires
        pos.wf(),
        k <= 7,
    ensures
        forall|j: int|
            0 <= j < shogi::drop_moves(pos, k).len() ==> drop_fits(
                pos,
                #[trigger] shogi::drop_moves(pos, k)[j],
            ),
    decreases k,
{
    if k > 0 {
        lemma_drop_moves_fit(pos, (k - 1) as nat);
        if shogi::in_hand(pos, k - 1) > 0 {
            lemma_kind_drops_fit(pos, shogi::hand_kinds()[k - 1], 81);
            assert(shogi::drop_moves(pos, k) == shogi::drop_moves(pos, (k - 1) as nat)
                + shogi::kind_drops(pos, shogi::hand_kinds()[k - 1], 81));
        }
    }
}

/// Every generated move follows the rules of movement, promotion and dropping.
pub proof fn law_pseudo_moves_fit(pos: Position, rules: RulesView)
    requires
        pos.wf(),
    ensures
        forall|j: int|
            0 <= j < shogi::pseudo_moves(pos, rules).len() ==> fits(
                pos,
                #[trigger] shogi::pseudo_moves(pos, rules)[j],
            ),
{
    lemma_board_moves_fit(pos, rules, 81);
    lemma_drop_moves_fit(pos, 7);
}

/// Those of `moves` that are safe are the moves of `moves` that are safe.
pub(crate) proof fn lemma_safe_among(pos: Position, rules: RulesView, moves: Seq<GenMove>, mv: GenMove)
    ensures
        shogi::safe_among(pos, rules, moves).contains(mv) <==> moves.contains(mv)
            && !shogi::exposes_king(pos, mv, rules),
    decreases moves.len(),
{
    let found = shogi::safe_among(pos, rules, moves);
    if moves.len() > 0 {
        let rest = moves.drop_last();
        let before = shogi::safe_among(pos, rules, rest);
        lemma_safe_among(pos, rules, rest, mv);
        assert(moves =~= rest.push(moves.last()));
        lemma_push_contains(rest, moves.last(), mv);
        lemma_push_contains(before, moves.last(), mv);
    }
}

proof fn lemma_legal_among(pos: Position, rules: RulesView, moves: Seq<GenMove>, mv: GenMove)
    ensures
        shogi::legal_among(pos, rules, moves).contains(mv) <==> moves.contains(mv)
            && !shogi::exposes_king(pos, mv, rules) && !shogi::pawn_drop_mates(pos, mv, rules),
    decreases moves.len(),
{
    if moves.len() > 0 {
        let rest = moves.drop_last();
        let before = shogi::legal_among(pos, rules, rest);
        lemma_legal_among(pos, rules, rest, mv);
        assert(moves =~= rest.push(moves.last()));
        lemma_push_contains(rest, moves.last(), mv);
        lemma_push_contains(before, moves.last(), mv);
    }
}

pub(crate) proof fn lemma_push_contains(s: Seq<GenMove>, last: GenMove, mv: GenMove)
    ensures
        s.push(last).contains(mv) <==> s.contains(mv) || mv == last,
{
    if s.contains(mv) {
        let i = choose|i: int| 0 <= i < s.len() && s[i] == mv;
        assert(s.push(last)[i] == mv);
    }
    if mv == last {
        assert(s.push(last)[s.len() as int] == mv);
    }
}

/// A move is legal if and only if it is generated, does not leave the mover's own king attacked
/// and, where that is enforced, is no pawn drop for mate.
pub proof fn law_legal_moves(pos: Position, rules: RulesView, strict: bool, mv: GenMove)
    ensures
        shogi::legal_moves(pos, rules, strict).contains(mv) <==> {
            &&& shogi::pseudo_moves(pos, rules).contains(mv)
            &&& !shogi::exposes_king(pos, mv, rules)
            &&& !(strict && shogi::pawn_drop_mates(pos, mv, rules))
        },
{
    lemma_safe_among(pos, rules, shogi::pseudo_moves(pos, rules), mv);
    lemma_legal_among(pos, rules, shogi::pseudo_moves(pos, rules), mv);
}

/// Every legal move follows the rules of movement, promotion and dropping, and can be carried
/// out.
pub proof fn law_legal_moves_fit(pos: Position, rules: RulesView, strict: bool)
    requires
        pos.wf(),
    ensures
        forall|j: int|
            0 <= j < shogi::legal_moves(pos, rules, strict).len() ==> {
                let mv = #[trigger] shogi::legal_moves(pos, rules, strict)[j];
                fits(pos, mv) && shogi::playable(pos, mv)
            },
{
    law_pseudo_moves_fit(pos, rules);
    assert forall|j: int| 0 <= j < shogi::legal_moves(pos, rules, strict).len() implies {
        let mv = #[trigger] shogi::legal_moves(pos, rules, strict)[j];
        fits(pos, mv) && shogi::playable(pos, mv)
    } by {
        let mv = shogi::legal_moves(pos, rules, strict)[j];
        assert(shogi::legal_moves(pos, rules, strict).contains(mv));
        law_legal_moves(pos, rules, strict, mv);
        let pseudo = shogi::pseudo_moves(pos, rules);
        let k = choose|k: int| 0 <= k < pseudo.len() && pseudo[k] == mv;
        assert(fits(pos, pseudo[k]));
    }
}

/// Every strictly legal move is legal where a pawn may be dropped for mate, too.
pub proof fn law_strict_moves_are_legal(pos: Position, rules: RulesView, mv: GenMove)
    requires
        shogi::legal_moves(pos, rules, true).contains(mv),
    ensures
        shogi::legal_moves(pos, rules, false).contains(mv),
{
    law_legal_moves(pos, rules, true, mv);
    law_legal_moves(pos, rules, false, mv);
}

/// No legal move leaves the mover's own king attacked.
pub proof fn law_legal_moves_protect_the_king(
    pos: Position,
    rules: RulesView,
    strict: bool,
    mv: GenMove,
)
    requires
        shogi::legal_moves(pos, rules, strict).contains(mv),
    ensures
        !shogi::in_check(shogi::after_move(pos, mv), pos.side_to_move, rules),
{
    law_legal_moves(pos, rules, strict, mv);
}

/// No legal move drops a second unpromoted pawn on a file.
pub proof fn law_no_second_pawn_on_a_file(
    pos: Position,
    rules: RulesView,
    strict: bool,
    mv: GenMove,
)
    requires
        pos.wf(),
        shogi::legal_moves(pos, rules, strict).contains(mv),
        mv.drop == Some(PieceKind::Pawn),
    ensures
        !shogi::pawn_on_file(pos, pos.side_to_move, mv.to.1 as int),
{
    law_legal_moves_fit(pos, rules, strict);
    let moves = shogi::legal_moves(pos, rules, strict);
    let i = choose|i: int| 0 <= i < moves.len() && moves[i] == mv;
    assert(fits(pos, moves[i]));
}

/// Only an unpromoted pawn of one's own keeps a pawn off a file: promoted pawns, pawns of the
/// opponent and other pieces do not. Nothing on the file matters to another kind.
pub proof fn law_only_an_own_plain_pawn_bars_a_file(
    pos: Position,
    kind: PieceKind,
    row: int,
    col: int,
)
    requires
        kind == PieceKind::Pawn ==> forall|r: int|
            0 <= r < 9 ==> (#[trigger] pos.at(r, col) matches Some(piece) ==> piece.promoted
                || piece.side != pos.side_to_move || piece.kind != PieceKind::Pawn),
    ensures
        shogi::may_drop(pos, kind, row, col) == !types::dead_end(pos.side_to_move, kind, row),
{
}

/// Where that is enforced, a pawn that is dropped with check leaves the opponent a reply.
pub proof fn law_no_pawn_drop_mates(pos: Position, rules: RulesView, mv: GenMove)
    requires
        shogi::legal_moves(pos, rules, true).contains(mv),
        mv.drop == Some(PieceKind::Pawn),
        shogi::in_check(shogi::after_move(pos, mv), pos.side_to_move.other(), rules),
    ensures
        shogi::legal_moves(shogi::after_move(pos, mv), rules, false).len() > 0,
{
    law_legal_moves(pos, rules, true, mv);
    assert(shogi::after_move(pos, mv).side_to_move == pos.side_to_move.other());
}

// ---------------------------------------------------------------------------
// Which squares a piece reaches
// ---------------------------------------------------------------------------

/// The square `n` steps along `v` from `from`.
pub open spec fn along(from: (int, int), v: VectorRule, n: int) -> (int, int) {
    (from.0 + n * v.dr, from.1 + n * v.dc)
}

/// Whether the square `n` steps along `v` is on the board and empty.
pub open spec fn free(pos: Position, from: (int, int), v: VectorRule, n: int) -> bool {
    let at = along(from, v, n);
    shogi::on_board(at.0, at.1) && pos.at(at.0, at.1) is None
}

/// Whether the square `n` steps along `v` is on the board and not taken by `side`.
pub open spec fn open_to(
    pos: Position,
    from: (int, int),
    side: Side,
    v: VectorRule,
    n: int,
) -> bool {
    let at = along(from, v, n);
    &&& shogi::on_board(at.0, at.1)
    &&& pos.at(at.0, at.1) matches Some(other) ==> other.side != side
}

/// Whether a piece of `side` at `from` gets along `v` to the square `n` steps away: one step, or
/// more for a sliding direction, over empty squares only, onto one that its own side does not
/// hold.
pub open spec fn gets_to(
    pos: Position,
    from: (int, int),
    side: Side,
    v: VectorRule,
    n: int,
) -> bool {
    &&& v.dr != 0 || v.dc != 0
    &&& n == 1 || (n > 1 && v.slide)
    &&& forall|m: int| 1 <= m < n ==> #[trigger] free(pos, from, v, m)
    &&& open_to(pos, from, side, v, n)
}

pub(crate) proof fn lemma_along(from: (int, int), v: VectorRule, n: int)
    ensures
        along(from, v, n + 1) == (along(from, v, n).0 + v.dr, along(from, v, n).1 + v.dc),
        along(from, v, 1) == (from.0 + v.dr, from.1 + v.dc),
{
    assert((n + 1) * v.dr == n * v.dr + v.dr) by (nonlinear_arith);
    assert((n + 1) * v.dc == n * v.dc + v.dc) by (nonlinear_arith);
}

/// Where the moves of a ray that starts `n` steps away end.
pub(crate) proof fn lemma_ray_targets(
    pos: Position,
    from: (int, int),
    piece: Piece,
    v: VectorRule,
    n: int,
    j: int,
) -> (m: int)
    requires
        n >= 1,
        0 <= j < shogi::ray_moves(
            pos,
            from,
            piece,
            along(from, v, n).0,
            along(from, v, n).1,
            v,
        ).len(),
    ensures
        m == n || (m > n && v.slide),
        v.dr != 0 || v.dc != 0,
        forall|k: int| n <= k < m ==> #[trigger] free(pos, from, v, k),
        open_to(pos, from, piece.side, v, m),
        ({
            let at = along(from, v, n);
            let mv = shogi::ray_moves(pos, from, piece, at.0, at.1, v)[j];
            mv.to.0 == along(from, v, m).0 && mv.to.1 == along(from, v, m).1
        }),
    decreases shogi::ray_room(along(from, v, n).0, along(from, v, n).1, v),
{
    let at = along(from, v, n);
    lemma_along(from, v, n);
    if pos.at(at.0, at.1) is None && v.slide {
        let here = shogi::variants(
            shogi::board_move(from.0, from.1, at.0, at.1, piece, None),
        );
        if j < here.len() {
            n
        } else {
            let m = lemma_ray_targets(pos, from, piece, v, n + 1, j - here.len());
            assert(free(pos, from, v, n));
            m
        }
    } else {
        n
    }
}

/// A ray that starts `n` steps away has a move to each square that it gets to.
proof fn lemma_ray_reaches(
    pos: Position,
    from: (int, int),
    piece: Piece,
    v: VectorRule,
    n: int,
    m: int,
) -> (j: int)
    requires
        n >= 1,
        m == n || (m > n && v.slide),
        v.dr != 0 || v.dc != 0,
        forall|k: int| n <= k < m ==> #[trigger] free(pos, from, v, k),
        open_to(pos, from, piece.side, v, m),
    ensures
        ({
            let at = along(from, v, n);
            let moves = shogi::ray_moves(pos, from, piece, at.0, at.1, v);
            &&& 0 <= j < moves.len()
            &&& moves[j].to.0 == along(from, v, m).0
            &&& moves[j].to.1 == along(from, v, m).1
        }),
    decreases m - n,
{
    let at = along(from, v, n);
    lemma_along(from, v, n);
    if m == n {
        0
    } else {
        assert(free(pos, from, v, n));
        let here = shogi::variants(
            shogi::board_move(from.0, from.1, at.0, at.1, piece, None),
        );
        here.len() + lemma_ray_reaches(pos, from, piece, v, n + 1, m)
    }
}

pub(crate) proof fn lemma_vector_targets(
    pos: Position,
    from: (int, int),
    piece: Piece,
    vectors: Seq<VectorRule>,
    j: int,
) -> (found: (int, int))
    requires
        0 <= j < shogi::vector_moves(pos, from, piece, vectors).len(),
    ensures
        0 <= found.0 < vectors.len(),
        gets_to(pos, from, piece.side, vectors[found.0], found.1),
        ({
            let mv = shogi::vector_moves(pos, from, piece, vectors)[j];
            let at = along(from, vectors[found.0], found.1);
            mv.to.0 == at.0 && mv.to.1 == at.1
        }),
    decreases vectors.len(),
{
    let v = vectors.last();
    let before = shogi::vector_moves(pos, from, piece, vectors.drop_last());
    lemma_along(from, v, 1);
    if j < before.len() {
        lemma_vector_targets(pos, from, piece, vectors.drop_last(), j)
    } else {
        (vectors.len() - 1, lemma_ray_targets(pos, from, piece, v, 1, j - before.len()))
    }
}

pub(crate) proof fn lemma_vector_reaches(
    pos: Position,
    from: (int, int),
    piece: Piece,
    vectors: Seq<VectorRule>,
    i: int,
    n: int,
) -> (j: int)
    requires
        0 <= i < vectors.len(),
        gets_to(pos, from, piece.side, vectors[i], n),
    ensures
        ({
            let moves = shogi::vector_moves(pos, from, piece, vectors);
            &&& 0 <= j < moves.len()
            &&& moves[j].to.0 == along(from, vectors[i], n).0
            &&& moves[j].to.1 == along(from, vectors[i], n).1
        }),
    decreases vectors.len(),
{
    let v = vectors.last();
    let before = shogi::vector_moves(pos, from, piece, vectors.drop_last());
    if i < vectors.len() - 1 {
        lemma_vector_reaches(pos, from, piece, vectors.drop_last(), i, n)
    } else {
        lemma_along(from, v, 1);
        before.len() + lemma_ray_reaches(pos, from, piece, v, 1, n)
    }
}

/// Whether the piece on square `i` gets to `row`, `col` along one of its directions.
pub open spec fn reaches(pos: Position, i: int, row: int, col: int, rules: RulesView) -> bool {
    &&& pos.board[i] matches Some(piece)
    &&& exists|d: int, n: int|
        {
            let v = shogi::piece_vectors(piece, rules)[d];
            &&& 0 <= d < shogi::piece_vectors(piece, rules).len()
            &&& #[trigger] gets_to(
                pos,
                (i / 9, i % 9),
                piece.side,
                shogi::piece_vectors(piece, rules)[d],
                n,
            )
            &&& along((i / 9, i % 9), v, n) == (row, col)
        }
}

/// The generated moves of a piece end on exactly those squares that it gets to along one of its
/// directions.
pub proof fn law_moves_end_where_the_piece_reaches(
    pos: Position,
    i: int,
    row: int,
    col: int,
    rules: RulesView,
)
    requires
        pos.wf(),
        0 <= i < 81,
        shogi::on_board(row, col),
    ensures
        reaches(pos, i, row, col, rules) <==> exists|j: int|
            {
                &&& 0 <= j < shogi::square_moves(pos, i, rules).len()
                &&& (#[trigger] shogi::square_moves(pos, i, rules)[j]).to == (
                    row as usize,
                    col as usize,
                )
            },
{
    if let Some(piece) = pos.board[i] {
        let from = (i / 9, i % 9);
        let vectors = shogi::piece_vectors(piece, rules);
        let moves = shogi::square_moves(pos, i, rules);
        if reaches(pos, i, row, col, rules) {
            let (d, n): (int, int) = choose|d: int, n: int|
                {
                    &&& 0 <= d < vectors.len()
                    &&& #[trigger] gets_to(pos, from, piece.side, vectors[d], n)
                    &&& along(from, vectors[d], n) == (row, col)
                };
            let j = lemma_vector_reaches(pos, from, piece, vectors, d, n);
            assert(moves[j].to == (row as usize, col as usize));
        }
        if exists|j: int|
            0 <= j < moves.len() && (#[trigger] moves[j]).to == (row as usize, col as usize) {
            let j = choose|j: int|
                0 <= j < moves.len() && (#[trigger] moves[j]).to == (row as usize, col as usize);
            let (d, n) = lemma_vector_targets(pos, from, piece, vectors, j);
            assert(along(from, vectors[d], n) == (row, col));
        }
    }
}

/// A square is attacked exactly if some piece of the attacker reaches it.
pub proof fn law_attacked_means_reached(
    pos: Position,
    attacker: Side,
    row: int,
    col: int,
    rules: RulesView,
)
    requires
        pos.wf(),
        shogi::on_board(row, col),
    ensures
        shogi::attacked(pos, attacker, row, col, rules) <==> exists|i: int|
            {
                &&& 0 <= i < 81
                &&& shogi::owned(pos, i, attacker)
                &&& #[trigger] reaches(pos, i, row, col, rules)
            },
{
    if shogi::attacked(pos, attacker, row, col, rules) {
        let (i, j): (int, int) = choose|i: int, j: int|
            {
                &&& 0 <= i < 81
                &&& shogi::owned(pos, i, attacker)
                &&& 0 <= j < shogi::square_moves(pos, i, rules).len()
                &&& (#[trigger] shogi::square_moves(pos, i, rules)[j]).to == (
                    row as usize,
                    col as usize,
                )
            };
        law_moves_end_where_the_piece_reaches(pos, i, row, col, rules);
        assert(reaches(pos, i, row, col, rules));
    }
    if exists|i: int|
        {
            &&& 0 <= i < 81
            &&& shogi::owned(pos, i, attacker)
            &&& #[trigger] reaches(pos, i, row, col, rules)
        } {
        let i = choose|i: int|
            {
                &&& 0 <= i < 81
                &&& shogi::owned(pos, i, attacker)
                &&& #[trigger] reaches(pos, i, row, col, rules)
            };
        law_moves_end_where_the_piece_reaches(pos, i, row, col, rules);
    }
}

// ---------------------------------------------------------------------------
// Which moves are generated
// ---------------------------------------------------------------------------

pub(crate) proof fn lemma_append_contains(a: Seq<GenMove>, b: Seq<GenMove>, mv: GenMove)
    ensures
        (a + b).contains(mv) <==> a.contains(mv) || b.contains(mv),
{
    let both = a + b;
    if both.contains(mv) {
        let i = choose|i: int| 0 <= i < both.len() && both[i] == mv;
        if i < a.len() {
            assert(a[i] == mv);
        } else {
            assert(b[i - a.len()] == mv);
        }
    }
    if a.contains(mv) {
        let i = choose|i: int| 0 <= i < a.len() && a[i] == mv;
        assert(both[i] == mv);
    }
    if b.contains(mv) {
        let i = choose|i: int| 0 <= i < b.len() && b[i] == mv;
        assert(both[a.len() + i] == mv);
    }
}

/// The forms of the move of the piece at `from` to the square `n` steps along `v`.
pub open spec fn forms(
    pos: Position,
    from: (int, int),
    piece: Piece,
    v: VectorRule,
    n: int,
) -> Seq<GenMove> {
    let at = along(from, v, n);
    shogi::variants(
        shogi::board_move(from.0, from.1, at.0, at.1, piece, pos.at(at.0, at.1)),
    )
}

/// A ray that starts `n` steps away holds all forms of the move to each square that it gets to.
proof fn lemma_ray_holds_forms(
    pos: Position,
    from: (int, int),
    piece: Piece,
    v: VectorRule,
    n: int,
    m: int,
    mv: GenMove,
)
    requires
        n >= 1,
        m == n || (m > n && v.slide),
        v.dr != 0 || v.dc != 0,
        forall|k: int| n <= k < m ==> #[trigger] free(pos, from, v, k),
        open_to(pos, from, piece.side, v, m),
        forms(pos, from, piece, v, m).contains(mv),
    ensures
        shogi::ray_moves(
            pos,
            from,
            piece,
            along(from, v, n).0,
            along(from, v, n).1,
            v,
        ).contains(mv),
    decreases m - n,
{
    let at = along(from, v, n);
    lemma_along(from, v, n);
    let rest = shogi::ray_moves(pos, from, piece, at.0 + v.dr, at.1 + v.dc, v);
    lemma_append_contains(forms(pos, from, piece, v, n), rest, mv);
    if m > n {
        assert(free(pos, from, v, n));
        lemma_ray_holds_forms(pos, from, piece, v, n + 1, m, mv);
    }
}

pub(crate) proof fn lemma_vectors_hold_forms(
    pos: Position,
    from: (int, int),
    piece: Piece,
    vectors: Seq<VectorRule>,
    d: int,
    n: int,
    mv: GenMove,
)
    requires
        0 <= d < vectors.len(),
        gets_to(pos, from, piece.side, vectors[d], n),
        forms(pos, from, piece, vectors[d], n).contains(mv),
    ensures
        shogi::vector_moves(pos, from, piece, vectors).contains(mv),
    decreases vectors.len(),
{
    let v = vectors.last();
    let earlier = shogi::vector_moves(pos, from, piece, vectors.drop_last());
    let ray = shogi::ray_moves(pos, from, piece, from.0 + v.dr, from.1 + v.dc, v);
    lemma_append_contains(earlier, ray, mv);
    if d < vectors.len() - 1 {
        lemma_vectors_hold_forms(pos, from, piece, vectors.drop_last(), d, n, mv);
    } else {
        lemma_along(from, v, 1);
        lemma_ray_holds_forms(pos, from, piece, v, 1, n, mv);
    }
}

/// Whether a move of the player to move goes along one of the piece's directions.
pub open spec fn goes_along(pos: Position, mv: GenMove, rules: RulesView) -> bool {
    &&& mv.from matches Some(from)
    &&& reaches(pos, shogi::square(from), mv.to.0 as int, mv.to.1 as int, rules)
}

proof fn lemma_square_holds_move(pos: Position, mv: GenMove, rules: RulesView)
    requires
        pos.wf(),
        board_move_fits(pos, mv),
        goes_along(pos, mv, rules),
    ensures
        shogi::square_moves(pos, shogi::square(mv.from.unwrap()), rules).contains(mv),
{
    let start = mv.from.unwrap();
    let i = shogi::square(start);
    let from = (i / 9, i % 9);
    assert(from == (start.0 as int, start.1 as int));
    let vectors = shogi::piece_vectors(mv.piece, rules);
    let (d, n): (int, int) = choose|d: int, n: int|
        {
            &&& 0 <= d < vectors.len()
            &&& #[trigger] gets_to(pos, from, mv.piece.side, vectors[d], n)
            &&& along(from, vectors[d], n) == (mv.to.0 as int, mv.to.1 as int)
        };
    let list = forms(pos, from, mv.piece, vectors[d], n);
    assert(pos.at(mv.to.0 as int, mv.to.1 as int) == mv.capture);
    let base = shogi::board_move(
        from.0,
        from.1,
        mv.to.0 as int,
        mv.to.1 as int,
        mv.piece,
        mv.capture,
    );
    assert(mv == (GenMove { promote: mv.promote, ..base }));
    assert(list == shogi::variants(base));
    if mv.promote {
        assert(list[0] == mv);
    } else {
        assert(list[list.len() - 1] == mv);
    }
    assert(list.contains(mv));
    lemma_vectors_hold_forms(pos, from, mv.piece, vectors, d, n, mv);
}

pub(crate) proof fn lemma_board_holds_move(pos: Position, rules: RulesView, n: nat, i: int, mv: GenMove)
    requires
        0 <= i < n,
        shogi::owned(pos, i, pos.side_to_move),
        shogi::square_moves(pos, i, rules).contains(mv),
    ensures
        shogi::board_moves(pos, rules, n).contains(mv),
    decreases n,
{
    let earlier = shogi::board_moves(pos, rules, (n - 1) as nat);
    lemma_append_contains(earlier, shogi::square_moves(pos, n - 1, rules), mv);
    if i < n - 1 {
        lemma_board_holds_move(pos, rules, (n - 1) as nat, i, mv);
    }
}

pub(crate) proof fn lemma_board_move_has_square(
    pos: Position,
    rules: RulesView,
    n: nat,
    mv: GenMove,
) -> (i: int)
    requires
        pos.wf(),
        n <= 81,
        shogi::board_moves(pos, rules, n).contains(mv),
    ensures
        0 <= i < n,
        shogi::owned(pos, i, pos.side_to_move),
        shogi::square_moves(pos, i, rules).contains(mv),
    decreases n,
{
    let earlier = shogi::board_moves(pos, rules, (n - 1) as nat);
    lemma_append_contains(earlier, shogi::square_moves(pos, n - 1, rules), mv);
    if earlier.contains(mv) {
        lemma_board_move_has_square(pos, rules, (n - 1) as nat, mv)
    } else {
        n - 1
    }
}

proof fn lemma_ray_starts_at(
    pos: Position,
    from: (int, int),
    piece: Piece,
    row: int,
    col: int,
    v: VectorRule,
    j: int,
)
    requires
        0 <= j < shogi::ray_moves(pos, from, piece, row, col, v).len(),
    ensures
        shogi::ray_moves(pos, from, piece, row, col, v)[j].from == Some(
            (from.0 as usize, from.1 as usize),
        ),
    decreases shogi::ray_room(row, col, v),
{
    if pos.at(row, col) is None && v.slide {
        let here = shogi::variants(
            shogi::board_move(from.0, from.1, row, col, piece, None),
        );
        if j >= here.len() {
            lemma_ray_starts_at(pos, from, piece, row + v.dr, col + v.dc, v, j - here.len());
        }
    }
}

proof fn lemma_vector_move_starts_at(
    pos: Position,
    from: (int, int),
    piece: Piece,
    vectors: Seq<VectorRule>,
    j: int,
)
    requires
        0 <= j < shogi::vector_moves(pos, from, piece, vectors).len(),
    ensures
        shogi::vector_moves(pos, from, piece, vectors)[j].from == Some(
            (from.0 as usize, from.1 as usize),
        ),
    decreases vectors.len(),
{
    let v = vectors.last();
    let earlier = shogi::vector_moves(pos, from, piece, vectors.drop_last());
    if j < earlier.len() {
        lemma_vector_move_starts_at(pos, from, piece, vectors.drop_last(), j);
    } else {
        lemma_ray_starts_at(
            pos,
            from,
            piece,
            from.0 + v.dr,
            from.1 + v.dc,
            v,
            j - earlier.len(),
        );
    }
}

proof fn lemma_kind_drops_hold(pos: Position, kind: PieceKind, n: nat, i: int)
    requires
        0 <= i < n,
        pos.board[i] is None,
        shogi::may_drop(pos, kind, i / 9, i % 9),
    ensures
        shogi::kind_drops(pos, kind, n).contains(shogi::drop_move(pos.side_to_move, kind, i)),
    decreases n,
{
    let mv = shogi::drop_move(pos.side_to_move, kind, i);
    let earlier = shogi::kind_drops(pos, kind, (n - 1) as nat);
    lemma_push_contains(earlier, shogi::drop_move(pos.side_to_move, kind, n - 1), mv);
    if i < n - 1 {
        lemma_kind_drops_hold(pos, kind, (n - 1) as nat, i);
    }
    assert(shogi::kind_drops(pos, kind, n) == earlier || shogi::kind_drops(pos, kind, n)
        == earlier.push(shogi::drop_move(pos.side_to_move, kind, n - 1)));
}

proof fn lemma_drops_hold(pos: Position, k: nat, slot: int, mv: GenMove)
    requires
        0 <= slot < k <= 7,
        shogi::in_hand(pos, slot) > 0,
        shogi::kind_drops(pos, shogi::hand_kinds()[slot], 81).contains(mv),
    ensures
        shogi::drop_moves(pos, k).contains(mv),
    decreases k,
{
    let earlier = shogi::drop_moves(pos, (k - 1) as nat);
    lemma_append_contains(
        earlier,
        shogi::kind_drops(pos, shogi::hand_kinds()[k - 1], 81),
        mv,
    );
    if slot < k - 1 {
        lemma_drops_hold(pos, (k - 1) as nat, slot, mv);
    }
}

/// The generated moves are exactly the moves that the rules of movement, promotion and dropping
/// allow, the king's safety aside: the moves on the board that go along a direction of the piece,
/// and the drops.
pub proof fn law_all_moves_are_generated(pos: Position, rules: RulesView, mv: GenMove)
    requires
        pos.wf(),
    ensures
        shogi::pseudo_moves(pos, rules).contains(mv) <==> {
            ||| board_move_fits(pos, mv) && mv.piece.side == pos.side_to_move && goes_along(
                pos,
                mv,
                rules,
            )
            ||| drop_fits(pos, mv)
        },
{
    let on_board = shogi::board_moves(pos, rules, 81);
    let drops = shogi::drop_moves(pos, 7);
    lemma_append_contains(on_board, drops, mv);
    lemma_board_moves_fit(pos, rules, 81);
    lemma_drop_moves_fit(pos, 7);
    if on_board.contains(mv) {
        let i = lemma_board_move_has_square(pos, rules, 81, mv);
        let moves = shogi::square_moves(pos, i, rules);
        let j = choose|j: int| 0 <= j < moves.len() && moves[j] == mv;
        lemma_square_moves_fit(pos, i, rules);
        assert(board_move_fits(pos, moves[j]));
        let piece = pos.board[i].unwrap();
        lemma_vector_move_starts_at(
            pos,
            (i / 9, i % 9),
            piece,
            shogi::piece_vectors(piece, rules),
            j,
        );
        assert(shogi::square(mv.from.unwrap()) == i);
        assert(moves[j].to == (mv.to.0 as int as usize, mv.to.1 as int as usize));
        law_moves_end_where_the_piece_reaches(pos, i, mv.to.0 as int, mv.to.1 as int, rules);
        assert(goes_along(pos, mv, rules));
    }
    if drops.contains(mv) {
        let j = choose|j: int| 0 <= j < drops.len() && drops[j] == mv;
        assert(drop_fits(pos, drops[j]));
    }
    if board_move_fits(pos, mv) && mv.piece.side == pos.side_to_move && goes_along(
        pos,
        mv,
        rules,
    ) {
        lemma_square_holds_move(pos, mv, rules);
        let i = shogi::square(mv.from.unwrap());
        assert(shogi::owned(pos, i, pos.side_to_move));
        lemma_board_holds_move(pos, rules, 81, i, mv);
    }
    if drop_fits(pos, mv) {
        let kind = mv.drop.unwrap();
        let slot = types::hand_slot(kind).unwrap() as int;
        let i = shogi::square(mv.to);
        assert(i / 9 == mv.to.0 && i % 9 == mv.to.1);
        assert(mv == shogi::drop_move(pos.side_to_move, kind, i));
        assert(shogi::hand_kinds()[slot] == kind);
        lemma_kind_drops_hold(pos, kind, 81, i);
        lemma_drops_hold(pos, 7, slot, mv);
    }
}

// ---------------------------------------------------------------------------
// What a move keeps
// ---------------------------------------------------------------------------

/// One if the square holds a piece of the kind, promoted or not.
pub open spec fn holds(square: Option<Piece>, kind: PieceKind) -> nat {
    match square {
        Some(piece) => if piece.kind == kind {
            1
        } else {
            0
        },
        None => 0,
    }
}

/// How many pieces of a kind stand on the board.
pub open spec fn on_board_count(board: Seq<Option<Piece>>, kind: PieceKind) -> nat
    decreases board.len(),
{
    if board.len() == 0 {
        0
    } else {
        on_board_count(board.drop_last(), kind) + holds(board.last(), kind)
    }
}

/// How many pieces of a kind are on the board and in the two hands.
pub open spec fn piece_count(pos: Position, kind: PieceKind) -> nat {
    on_board_count(pos.board, kind) + in_hands_count(pos.hands, kind)
}

proof fn lemma_count_update(
    board: Seq<Option<Piece>>,
    i: int,
    square: Option<Piece>,
    kind: PieceKind,
)
    requires
        0 <= i < board.len(),
    ensures
        on_board_count(board.update(i, square), kind) + holds(board[i], kind) == on_board_count(
            board,
            kind,
        ) + holds(square, kind),
    decreases board.len(),
{
    let next = board.update(i, square);
    if i == board.len() - 1 {
        assert(next.drop_last() =~= board.drop_last());
    } else {
        assert(next.drop_last() =~= board.drop_last().update(i, square));
        lemma_count_update(board.drop_last(), i, square, kind);
    }
}

/// How many pieces of a kind are in the two hands.
pub open spec fn in_hands_count(hands: Seq<Seq<u8>>, kind: PieceKind) -> nat {
    match types::hand_slot(kind) {
        Some(k) => (hands[0][k as int] + hands[1][k as int]) as nat,
        None => 0,
    }
}

proof fn lemma_hand_gains_count(
    hands: Seq<Seq<u8>>,
    side: Side,
    gained: PieceKind,
    k: usize,
    kind: PieceKind,
)
    requires
        hands.len() == 2,
        hands[0].len() == 7,
        hands[1].len() == 7,
        types::hand_slot(gained) == Some(k),
    ensures
        ({
            let after = in_hands_count(shogi::hand_gains(hands, side, k as int), kind);
            if kind == gained && hands[types::hand_of(side)][k as int] < 255 {
                after == in_hands_count(hands, kind) + 1
            } else {
                after == in_hands_count(hands, kind)
            }
        }),
{
}

proof fn lemma_hand_loses_count(
    hands: Seq<Seq<u8>>,
    side: Side,
    lost: PieceKind,
    k: usize,
    kind: PieceKind,
)
    requires
        hands.len() == 2,
        hands[0].len() == 7,
        hands[1].len() == 7,
        types::hand_slot(lost) == Some(k),
        hands[types::hand_of(side)][k as int] > 0,
    ensures
        ({
            let after = in_hands_count(shogi::hand_loses(hands, side, k as int), kind);
            if kind == lost {
                after + 1 == in_hands_count(hands, kind)
            } else {
                after == in_hands_count(hands, kind)
            }
        }),
{
}

/// How many pieces of a kind a move takes out of the game: a captured king, and a captured piece
/// that a hand has no room to count, a hand counting no further than to 255.
pub open spec fn lost_count(pos: Position, mv: GenMove, kind: PieceKind) -> nat {
    match mv.capture {
        Some(taken) => if taken.kind != kind {
            0
        } else {
            match types::hand_slot(kind) {
                Some(k) => if shogi::in_hand(pos, k as int) < 255 {
                    0
                } else {
                    1
                },
                None => 1,
            }
        },
        None => 0,
    }
}

proof fn lemma_board_moves_keep_the_pieces(pos: Position, mv: GenMove, kind: PieceKind)
    requires
        pos.wf(),
        board_move_fits(pos, mv),
        mv.piece.side == pos.side_to_move,
    ensures
        piece_count(shogi::after_move(pos, mv), kind) + lost_count(pos, mv, kind) == piece_count(
            pos,
            kind,
        ),
{
    let from = mv.from.unwrap();
    let landed = Piece { promoted: mv.piece.promoted || mv.promote, ..mv.piece };
    let lifted = pos.board.update(shogi::square(from), None);
    lemma_count_update(pos.board, shogi::square(from), None, kind);
    lemma_count_update(lifted, shogi::square(mv.to), Some(landed), kind);
    assert(shogi::square(from) != shogi::square(mv.to));
    assert(lifted[shogi::square(mv.to)] == mv.capture);
    if let Some(taken) = mv.capture {
        if let Some(k) = types::hand_slot(taken.kind) {
            lemma_hand_gains_count(pos.hands, pos.side_to_move, taken.kind, k, kind);
        }
    }
}

proof fn lemma_drops_keep_the_pieces(pos: Position, mv: GenMove, kind: PieceKind)
    requires
        pos.wf(),
        drop_fits(pos, mv),
    ensures
        piece_count(shogi::after_move(pos, mv), kind) == piece_count(pos, kind),
{
    let dropped = mv.drop.unwrap();
    lemma_count_update(pos.board, shogi::square(mv.to), Some(mv.piece), kind);
    lemma_hand_loses_count(
        pos.hands,
        pos.side_to_move,
        dropped,
        types::hand_slot(dropped).unwrap(),
        kind,
    );
}

/// A move by the rules keeps the number of pieces of each kind, but for those that leave the
/// game.
pub proof fn law_moves_keep_the_pieces(pos: Position, mv: GenMove, kind: PieceKind)
    requires
        pos.wf(),
        fits(pos, mv),
    ensures
        piece_count(shogi::after_move(pos, mv), kind) + lost_count(pos, mv, kind) == piece_count(
            pos,
            kind,
        ),
{
    if mv.from is Some {
        lemma_board_moves_keep_the_pieces(pos, mv, kind);
    } else {
        lemma_drops_keep_the_pieces(pos, mv, kind);
    }
}

/// One if the square holds a king of the side.
pub open spec fn holds_king(square: Option<Piece>, side: Side) -> nat {
    match square {
        Some(piece) => if piece.side == side && piece.kind == PieceKind::King {
            1
        } else {
            0
        },
        None => 0,
    }
}

/// How many kings of a side stand on the board.
pub open spec fn king_count(board: Seq<Option<Piece>>, side: Side) -> nat
    decreases board.len(),
{
    if board.len() == 0 {
        0
    } else {
        king_count(board.drop_last(), side) + holds_king(board.last(), side)
    }
}

proof fn lemma_kings_update(board: Seq<Option<Piece>>, i: int, square: Option<Piece>, side: Side)
    requires
        0 <= i < board.len(),
    ensures
        king_count(board.update(i, square), side) + holds_king(board[i], side) == king_count(
            board,
            side,
        ) + holds_king(square, side),
    decreases board.len(),
{
    let next = board.update(i, square);
    if i == board.len() - 1 {
        assert(next.drop_last() =~= board.drop_last());
    } else {
        assert(next.drop_last() =~= board.drop_last().update(i, square));
        lemma_kings_update(board.drop_last(), i, square, side);
    }
}

/// A move by the rules keeps the kings of each side, but for a king that it takes.
pub proof fn law_moves_keep_the_kings(pos: Position, mv: GenMove, side: Side)
    requires
        pos.wf(),
        fits(pos, mv),
    ensures
        king_count(shogi::after_move(pos, mv).board, side) + holds_king(mv.capture, side)
            == king_count(pos.board, side),
{
    if let Some(from) = mv.from {
        let landed = Piece { promoted: mv.piece.promoted || mv.promote, ..mv.piece };
        let lifted = pos.board.update(shogi::square(from), None);
        lemma_kings_update(pos.board, shogi::square(from), None, side);
        lemma_kings_update(lifted, shogi::square(mv.to), Some(landed), side);
        assert(shogi::square(from) != shogi::square(mv.to));
        assert(lifted[shogi::square(mv.to)] == mv.capture);
    } else {
        lemma_kings_update(pos.board, shogi::square(mv.to), Some(mv.piece), side);
    }
}

/// A playable move leaves a well-formed position, with the other player to move.
pub proof fn law_moves_pass_the_turn(pos: Position, mv: GenMove)
    requires
        pos.wf(),
        shogi::playable(pos, mv),
    ensures
        shogi::after_move(pos, mv).wf(),
        shogi::after_move(pos, mv).side_to_move == pos.side_to_move.other(),
{
}

} // verus!
