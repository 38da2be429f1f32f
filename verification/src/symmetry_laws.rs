//! Turning the board, and the moves of one piece.

use crate::shogi;
use crate::shogi_laws;
use crate::types::{GenMove, Piece, PieceKind, Position, RulesView, VectorRule};
use vstd::prelude::*;

verus! {

// ---------------------------------------------------------------------------
// The board from the other side
// ---------------------------------------------------------------------------

/// The same piece of the other player.
pub open spec fn turned_piece(piece: Piece) -> Piece {
    Piece { side: piece.side.other(), ..piece }
}

pub open spec fn turned_square(square: Option<Piece>) -> Option<Piece> {
    match square {
        Some(piece) => Some(turned_piece(piece)),
        None => None,
    }
}

/// A position as the other player sees it: the board by half a turn, with the players swapped.
pub open spec fn turned(pos: Position) -> Position {
    Position {
        board: Seq::new(81, |i: int| turned_square(pos.board[80 - i])),
        side_to_move: pos.side_to_move.other(),
        hands: seq![pos.hands[1], pos.hands[0]],
    }
}

/// The square that half a turn of the board brings to these coordinates.
pub open spec fn turned_at(at: (usize, usize)) -> (usize, usize) {
    ((8 - at.0) as usize, (8 - at.1) as usize)
}

pub open spec fn turned_move(mv: GenMove) -> GenMove {
    GenMove {
        from: match mv.from {
            Some(from) => Some(turned_at(from)),
            None => None,
        },
        to: turned_at(mv.to),
        piece: turned_piece(mv.piece),
        capture: turned_square(mv.capture),
        ..mv
    }
}

pub open spec fn turned_moves(moves: Seq<GenMove>) -> Seq<GenMove> {
    Seq::new(moves.len(), |i: int| turned_move(moves[i]))
}

/// The opposite direction.
spec fn opposite(v: VectorRule) -> VectorRule {
    VectorRule { dr: (-v.dr) as i32, dc: (-v.dc) as i32, ..v }
}

spec fn opposites(vectors: Seq<VectorRule>) -> Seq<VectorRule> {
    Seq::new(vectors.len(), |i: int| opposite(vectors[i]))
}

/// Directions of the basic rules: each goes at most two squares either way.
spec fn short(v: VectorRule) -> bool {
    -2 <= v.dr <= 2 && -2 <= v.dc <= 2
}

proof fn lemma_variants_turn(base: GenMove)
    requires
        base.from matches Some(from) && from.0 <= 8,
        base.to.0 <= 8,
    ensures
        shogi::variants(turned_move(base)) == turned_moves(shogi::variants(base)),
{
    assert(shogi::variants(turned_move(base)) =~= turned_moves(shogi::variants(base)));
}

proof fn lemma_ray_turns(
    pos: Position,
    from: (int, int),
    piece: Piece,
    row: int,
    col: int,
    v: VectorRule,
)
    requires
        shogi::on_board(from.0, from.1),
        short(v),
    ensures
        shogi::ray_moves(
            turned(pos),
            (8 - from.0, 8 - from.1),
            turned_piece(piece),
            8 - row,
            8 - col,
            opposite(v),
        ) == turned_moves(shogi::ray_moves(pos, from, piece, row, col, v)),
    decreases shogi::ray_room(row, col, v),
{
    let here = shogi::ray_moves(pos, from, piece, row, col, v);
    let there = shogi::ray_moves(
        turned(pos),
        (8 - from.0, 8 - from.1),
        turned_piece(piece),
        8 - row,
        8 - col,
        opposite(v),
    );
    if !shogi::on_board(row, col) || (v.dr == 0 && v.dc == 0) {
        assert(there =~= turned_moves(here));
    } else {
        assert((8 - row) * 9 + (8 - col) == 80 - (row * 9 + col));
        assert(turned(pos).at(8 - row, 8 - col) == turned_square(pos.at(row, col)));
        let base = shogi::board_move(from.0, from.1, row, col, piece, pos.at(row, col));
        assert(turned_move(base) == shogi::board_move(
            8 - from.0,
            8 - from.1,
            8 - row,
            8 - col,
            turned_piece(piece),
            turned(pos).at(8 - row, 8 - col),
        ));
        lemma_variants_turn(base);
        match pos.at(row, col) {
            Some(other) => {
                assert(there =~= turned_moves(here));
            },
            None => {
                if v.slide {
                    lemma_ray_turns(pos, from, piece, row + v.dr, col + v.dc, v);
                    assert(8 - row + opposite(v).dr == 8 - (row + v.dr));
                    assert(8 - col + opposite(v).dc == 8 - (col + v.dc));
                }
                assert(there =~= turned_moves(here));
            },
        }
    }
}

proof fn lemma_vectors_turn(
    pos: Position,
    from: (int, int),
    piece: Piece,
    vectors: Seq<VectorRule>,
)
    requires
        shogi::on_board(from.0, from.1),
        forall|i: int| 0 <= i < vectors.len() ==> short(#[trigger] vectors[i]),
    ensures
        shogi::vector_moves(
            turned(pos),
            (8 - from.0, 8 - from.1),
            turned_piece(piece),
            opposites(vectors),
        ) == turned_moves(shogi::vector_moves(pos, from, piece, vectors)),
    decreases vectors.len(),
{
    let here = shogi::vector_moves(pos, from, piece, vectors);
    let there = shogi::vector_moves(
        turned(pos),
        (8 - from.0, 8 - from.1),
        turned_piece(piece),
        opposites(vectors),
    );
    if vectors.len() > 0 {
        let v = vectors.last();
        lemma_vectors_turn(pos, from, piece, vectors.drop_last());
        assert(opposites(vectors).drop_last() =~= opposites(vectors.drop_last()));
        assert(short(vectors[vectors.len() - 1]));
        lemma_ray_turns(pos, from, piece, from.0 + v.dr, from.1 + v.dc, v);
        assert(8 - from.0 + opposite(v).dr == 8 - (from.0 + v.dr));
        assert(8 - from.1 + opposite(v).dc == 8 - (from.1 + v.dc));
    }
    assert(there =~= turned_moves(here));
}

// ---------------------------------------------------------------------------
// The order of directions
// ---------------------------------------------------------------------------

/// The moves along one direction.
spec fn moves_along(pos: Position, from: (int, int), piece: Piece, v: VectorRule) -> Seq<GenMove> {
    shogi::ray_moves(pos, from, piece, from.0 + v.dr, from.1 + v.dc, v)
}

proof fn lemma_moves_without(
    pos: Position,
    from: (int, int),
    piece: Piece,
    vectors: Seq<VectorRule>,
    i: int,
)
    requires
        0 <= i < vectors.len(),
    ensures
        shogi::vector_moves(pos, from, piece, vectors).to_multiset() == shogi::vector_moves(
            pos,
            from,
            piece,
            vectors.remove(i),
        ).to_multiset().add(moves_along(pos, from, piece, vectors[i]).to_multiset()),
    decreases vectors.len(),
{
    let v = vectors.last();
    let before = shogi::vector_moves(pos, from, piece, vectors.drop_last());
    let last = moves_along(pos, from, piece, v);
    vstd::seq_lib::lemma_multiset_commutative(before, last);
    if i == vectors.len() - 1 {
        assert(vectors.remove(i) =~= vectors.drop_last());
    } else {
        lemma_moves_without(pos, from, piece, vectors.drop_last(), i);
        let rest = vectors.remove(i);
        assert(rest.drop_last() =~= vectors.drop_last().remove(i));
        assert(rest.last() == v);
        let others = shogi::vector_moves(pos, from, piece, rest.drop_last());
        vstd::seq_lib::lemma_multiset_commutative(others, last);
        let own = moves_along(pos, from, piece, vectors[i]).to_multiset();
        assert(others.to_multiset().add(own).add(last.to_multiset())
            =~= others.to_multiset().add(last.to_multiset()).add(own));
    }
}

/// The order of the directions does not change the moves.
proof fn lemma_moves_in_any_order(
    pos: Position,
    from: (int, int),
    piece: Piece,
    a: Seq<VectorRule>,
    b: Seq<VectorRule>,
)
    requires
        a.to_multiset() == b.to_multiset(),
    ensures
        shogi::vector_moves(pos, from, piece, a).to_multiset() == shogi::vector_moves(
            pos,
            from,
            piece,
            b,
        ).to_multiset(),
    decreases a.len(),
{
    a.to_multiset_ensures();
    b.to_multiset_ensures();
    if a.len() > 0 {
        let i = a.len() - 1;
        assert(a.contains(a[i]));
        assert(b.to_multiset().count(a[i]) > 0);
        let j = choose|j: int| 0 <= j < b.len() && b[j] == a[i];
        assert(a.remove(i).to_multiset() =~= b.remove(j).to_multiset());
        lemma_moves_in_any_order(pos, from, piece, a.remove(i), b.remove(j));
        lemma_moves_without(pos, from, piece, a, i);
        lemma_moves_without(pos, from, piece, b, j);
    }
}

/// Two directions in each other's place.
spec fn swapped(vectors: Seq<VectorRule>, i: int, j: int) -> Seq<VectorRule> {
    vectors.update(i, vectors[j]).update(j, vectors[i])
}

proof fn lemma_swapped(vectors: Seq<VectorRule>, i: int, j: int)
    requires
        0 <= i < j < vectors.len(),
    ensures
        swapped(vectors, i, j).to_multiset() == vectors.to_multiset(),
{
    broadcast use vstd::seq_lib::group_to_multiset_ensures;

    let once = vectors.update(i, vectors[j]);
    assert(vectors.to_multiset().count(vectors[i]) > 0);
    assert(once.to_multiset().count(once[j]) > 0);
    assert(swapped(vectors, i, j).to_multiset() =~= vectors.to_multiset());
}

proof fn lemma_diagonals_turn(slides: bool)
    ensures
        opposites(shogi::diagonals(slides)).to_multiset() == shogi::diagonals(
            slides,
        ).to_multiset(),
{
    let a = shogi::diagonals(slides);
    lemma_swapped(a, 0, 3);
    lemma_swapped(swapped(a, 0, 3), 1, 2);
    assert(opposites(a) =~= swapped(swapped(a, 0, 3), 1, 2));
}

proof fn lemma_orthogonals_turn(slides: bool)
    ensures
        opposites(shogi::orthogonals(slides)).to_multiset() == shogi::orthogonals(
            slides,
        ).to_multiset(),
{
    let a = shogi::orthogonals(slides);
    lemma_swapped(a, 0, 1);
    lemma_swapped(swapped(a, 0, 1), 2, 3);
    assert(opposites(a) =~= swapped(swapped(a, 0, 1), 2, 3));
}

/// The directions of two parts, each of which turns into its opposites in some order.
proof fn lemma_parts_turn(a: Seq<VectorRule>, b: Seq<VectorRule>)
    requires
        opposites(a).to_multiset() == a.to_multiset(),
        opposites(b).to_multiset() == b.to_multiset(),
    ensures
        opposites(a + b).to_multiset() == (a + b).to_multiset(),
{
    assert(opposites(a + b) =~= opposites(a) + opposites(b));
    vstd::seq_lib::lemma_multiset_commutative(a, b);
    vstd::seq_lib::lemma_multiset_commutative(opposites(a), opposites(b));
}

proof fn lemma_gold_turns(f: int)
    requires
        f == 1 || f == -1,
    ensures
        opposites(shogi::gold_vectors(f)).to_multiset() == shogi::gold_vectors(-f).to_multiset(),
{
    let a = shogi::gold_vectors(-f);
    lemma_swapped(a, 1, 2);
    lemma_swapped(swapped(a, 1, 2), 3, 4);
    assert(opposites(shogi::gold_vectors(f)) =~= swapped(swapped(a, 1, 2), 3, 4));
}

proof fn lemma_silver_turns(f: int)
    requires
        f == 1 || f == -1,
    ensures
        opposites(shogi::silver_vectors(f)).to_multiset() == shogi::silver_vectors(
            -f,
        ).to_multiset(),
{
    let a = shogi::silver_vectors(-f);
    lemma_swapped(a, 0, 2);
    lemma_swapped(swapped(a, 0, 2), 3, 4);
    assert(opposites(shogi::silver_vectors(f)) =~= swapped(swapped(a, 0, 2), 3, 4));
}

proof fn lemma_king_turns()
    ensures
        opposites(shogi::king_vectors()).to_multiset() == shogi::king_vectors().to_multiset(),
{
    let a = shogi::king_vectors();
    let b = swapped(swapped(a, 0, 7), 1, 6);
    lemma_swapped(a, 0, 7);
    lemma_swapped(swapped(a, 0, 7), 1, 6);
    lemma_swapped(b, 2, 5);
    lemma_swapped(swapped(b, 2, 5), 3, 4);
    assert(opposites(a) =~= swapped(swapped(b, 2, 5), 3, 4));
}

/// A piece turned round moves in the opposite directions.
proof fn lemma_basic_vectors_turn(piece: Piece)
    ensures
        shogi::basic_vectors(turned_piece(piece)).to_multiset() == opposites(
            shogi::basic_vectors(piece),
        ).to_multiset(),
        forall|i: int|
            0 <= i < shogi::basic_vectors(piece).len() ==> short(
                #[trigger] shogi::basic_vectors(piece)[i],
            ),
{
    let f = shogi::ahead(piece.side);
    let a = shogi::basic_vectors(turned_piece(piece));
    let b = opposites(shogi::basic_vectors(piece));
    match piece.kind {
        PieceKind::Pawn | PieceKind::Lance => {
            if piece.promoted {
                lemma_gold_turns(f);
            } else {
                assert(a =~= b);
            }
        },
        PieceKind::Knight => {
            if piece.promoted {
                lemma_gold_turns(f);
            } else {
                lemma_swapped(a, 0, 1);
                assert(b =~= swapped(a, 0, 1));
            }
        },
        PieceKind::Silver => {
            if piece.promoted {
                lemma_gold_turns(f);
            } else {
                lemma_silver_turns(f);
            }
        },
        PieceKind::Gold => {
            lemma_gold_turns(f);
        },
        PieceKind::Bishop => {
            lemma_diagonals_turn(true);
            lemma_orthogonals_turn(false);
            lemma_parts_turn(shogi::diagonals(true), shogi::orthogonals(false));
        },
        PieceKind::Rook => {
            lemma_orthogonals_turn(true);
            lemma_diagonals_turn(false);
            lemma_parts_turn(shogi::orthogonals(true), shogi::diagonals(false));
        },
        PieceKind::King => {
            lemma_king_turns();
        },
    }
}

proof fn lemma_only_the_board_counts_on_a_ray(
    a: Position,
    b: Position,
    from: (int, int),
    piece: Piece,
    row: int,
    col: int,
    v: VectorRule,
)
    requires
        a.board == b.board,
    ensures
        shogi::ray_moves(a, from, piece, row, col, v) == shogi::ray_moves(
            b,
            from,
            piece,
            row,
            col,
            v,
        ),
    decreases shogi::ray_room(row, col, v),
{
    if shogi::on_board(row, col) && (v.dr != 0 || v.dc != 0) {
        lemma_only_the_board_counts_on_a_ray(a, b, from, piece, row + v.dr, col + v.dc, v);
    }
}

proof fn lemma_only_the_board_counts(
    a: Position,
    b: Position,
    from: (int, int),
    piece: Piece,
    vectors: Seq<VectorRule>,
)
    requires
        a.board == b.board,
    ensures
        shogi::vector_moves(a, from, piece, vectors) == shogi::vector_moves(
            b,
            from,
            piece,
            vectors,
        ),
    decreases vectors.len(),
{
    if vectors.len() > 0 {
        let v = vectors.last();
        lemma_only_the_board_counts(a, b, from, piece, vectors.drop_last());
        lemma_only_the_board_counts_on_a_ray(
            a,
            b,
            from,
            piece,
            from.0 + v.dr,
            from.1 + v.dc,
            v,
        );
    }
}

/// Whether the request adds no direction for what stands on square `i`.
pub open spec fn moves_plainly(pos: Position, i: int, rules: RulesView) -> bool {
    pos.board[i] matches Some(piece) ==> shogi::extra_vectors(piece, rules).len() == 0
}

/// Neither player is favoured: where the board is turned round and the players swapped, a piece
/// that moves by the basic rules has the same moves, turned round with it. Neither the player to
/// move nor the hands matter to it.
pub proof fn law_turning_the_board_turns_the_moves(
    pos: Position,
    other: Position,
    from: (int, int),
    piece: Piece,
    rules: RulesView,
)
    requires
        pos.wf(),
        other.board == turned(pos).board,
        shogi::on_board(from.0, from.1),
        shogi::extra_vectors(piece, rules).len() == 0,
    ensures
        shogi::piece_moves(
            other,
            (8 - from.0, 8 - from.1),
            turned_piece(piece),
            rules,
        ).to_multiset() == turned_moves(
            shogi::piece_moves(pos, from, piece, rules),
        ).to_multiset(),
{
    let at = (8 - from.0, 8 - from.1);
    let vectors = shogi::basic_vectors(piece);
    let others = shogi::basic_vectors(turned_piece(piece));
    assert(shogi::piece_vectors(piece, rules) =~= vectors);
    assert(shogi::piece_vectors(turned_piece(piece), rules) =~= others);
    lemma_basic_vectors_turn(piece);
    lemma_vectors_turn(pos, from, piece, vectors);
    lemma_moves_in_any_order(turned(pos), at, turned_piece(piece), others, opposites(vectors));
    lemma_only_the_board_counts(other, turned(pos), at, turned_piece(piece), others);
}

/// The same of whatever stands on a square.
pub proof fn law_turning_the_board(pos: Position, i: int, rules: RulesView)
    requires
        pos.wf(),
        0 <= i < 81,
        moves_plainly(pos, i, rules),
    ensures
        shogi::square_moves(turned(pos), 80 - i, rules).to_multiset() == turned_moves(
            shogi::square_moves(pos, i, rules),
        ).to_multiset(),
{
    assert(turned(pos).board[80 - i] == turned_square(pos.board[i]));
    match pos.board[i] {
        Some(piece) => {
            assert((80 - i) / 9 == 8 - i / 9 && (80 - i) % 9 == 8 - i % 9);
            law_turning_the_board_turns_the_moves(
                pos,
                turned(pos),
                (i / 9, i % 9),
                piece,
                rules,
            );
        },
        None => {
            assert(shogi::square_moves(turned(pos), 80 - i, rules) =~= turned_moves(
                shogi::square_moves(pos, i, rules),
            ));
        },
    }
}

// ---------------------------------------------------------------------------
// No move twice
// ---------------------------------------------------------------------------

/// Whether no two of the moves end on the same square and promote alike.
pub open spec fn apart(moves: Seq<GenMove>) -> bool {
    forall|j: int, k: int|
        0 <= j < k < moves.len() ==> (#[trigger] moves[j]).to != (#[trigger] moves[k]).to
            || moves[j].promote != moves[k].promote
}

/// Whether no two of the directions lead to a common square: they differ, and either all go to
/// neighbouring squares or none slides.
spec fn spread(vectors: Seq<VectorRule>) -> bool {
    &&& forall|a: int, b: int|
        0 <= a < b < vectors.len() ==> (#[trigger] vectors[a]).dr != (#[trigger] vectors[b]).dr
            || vectors[a].dc != vectors[b].dc
    &&& (forall|a: int| 0 <= a < vectors.len() ==> !(#[trigger] vectors[a]).slide) || (forall|
        a: int,
    |
        0 <= a < vectors.len() ==> unit(#[trigger] vectors[a]))
}

spec fn unit(v: VectorRule) -> bool {
    -1 <= v.dr <= 1 && -1 <= v.dc <= 1
}

proof fn lemma_times(n: int, d: int)
    requires
        -1 <= d <= 1,
    ensures
        n * d == (if d == 1 {
            n
        } else if d == 0 {
            0
        } else {
            -n
        }),
{
    if d == 1 {
        assert(n * 1 == n);
    } else if d == 0 {
        assert(n * 0 == 0);
    } else {
        assert(n * -1 == -n);
    }
}

/// Different directions lead to different squares.
proof fn lemma_directions_part(
    from: (int, int),
    vectors: Seq<VectorRule>,
    a: int,
    b: int,
    n: int,
    m: int,
)
    requires
        spread(vectors),
        0 <= a < b < vectors.len(),
        vectors[a].dr != 0 || vectors[a].dc != 0,
        vectors[b].dr != 0 || vectors[b].dc != 0,
        n == 1 || (n > 1 && vectors[a].slide),
        m == 1 || (m > 1 && vectors[b].slide),
    ensures
        shogi_laws::along(from, vectors[a], n) != shogi_laws::along(from, vectors[b], m),
{
    let v = vectors[a];
    let w = vectors[b];
    if unit(v) && unit(w) {
        lemma_times(n, v.dr as int);
        lemma_times(n, v.dc as int);
        lemma_times(m, w.dr as int);
        lemma_times(m, w.dc as int);
    } else {
        assert(n == 1 && m == 1);
        assert(1 * v.dr == v.dr && 1 * v.dc == v.dc);
        assert(1 * w.dr == w.dr && 1 * w.dc == w.dc);
    }
}

/// Different numbers of steps lead to different squares.
proof fn lemma_steps_part(from: (int, int), v: VectorRule, n: int, m: int)
    requires
        v.dr != 0 || v.dc != 0,
        n != m,
    ensures
        shogi_laws::along(from, v, n) != shogi_laws::along(from, v, m),
{
    let dr = v.dr as int;
    let dc = v.dc as int;
    if dr != 0 {
        assert(n * dr != m * dr) by (nonlinear_arith)
            requires
                dr != 0,
                n != m,
        ;
    } else {
        assert(n * dc != m * dc) by (nonlinear_arith)
            requires
                dc != 0,
                n != m,
        ;
    }
}

proof fn lemma_ray_is_apart(pos: Position, from: (int, int), piece: Piece, v: VectorRule, n: int)
    requires
        n >= 1,
    ensures
        ({
            let at = shogi_laws::along(from, v, n);
            apart(shogi::ray_moves(pos, from, piece, at.0, at.1, v))
        }),
    decreases
            shogi::ray_room(
                shogi_laws::along(from, v, n).0,
                shogi_laws::along(from, v, n).1,
                v,
            ),
{
    let at = shogi_laws::along(from, v, n);
    let moves = shogi::ray_moves(pos, from, piece, at.0, at.1, v);
    shogi_laws::lemma_along(from, v, n);
    if shogi::on_board(at.0, at.1) && (v.dr != 0 || v.dc != 0) && pos.at(at.0, at.1) is None
        && v.slide {
        let here = shogi::variants(shogi::board_move(from.0, from.1, at.0, at.1, piece, None));
        lemma_ray_is_apart(pos, from, piece, v, n + 1);
        let next = shogi_laws::along(from, v, n + 1);
        let rest = shogi::ray_moves(pos, from, piece, next.0, next.1, v);
        assert(moves =~= here + rest);
        assert forall|j: int, k: int| 0 <= j < k < moves.len() implies (#[trigger] moves[j]).to != (
        #[trigger] moves[k]).to || moves[j].promote != moves[k].promote by {
            if k < here.len() {
                assert(moves[j] == here[j] && moves[k] == here[k]);
            } else if j >= here.len() {
                assert(moves[j] == rest[j - here.len()] && moves[k] == rest[k - here.len()]);
            } else {
                assert(moves[j] == here[j] && moves[k] == rest[k - here.len()]);
                let m = shogi_laws::lemma_ray_targets(
                    pos,
                    from,
                    piece,
                    v,
                    n + 1,
                    k - here.len(),
                );
                lemma_steps_part(from, v, n, m);
            }
        }
    }
}

proof fn lemma_vector_moves_are_apart(
    pos: Position,
    from: (int, int),
    piece: Piece,
    vectors: Seq<VectorRule>,
)
    requires
        spread(vectors),
    ensures
        apart(shogi::vector_moves(pos, from, piece, vectors)),
    decreases vectors.len(),
{
    if vectors.len() > 0 {
        let front = vectors.drop_last();
        let v = vectors.last();
        let last = vectors.len() - 1;
        let before = shogi::vector_moves(pos, from, piece, front);
        let ray = moves_along(pos, from, piece, v);
        let moves = shogi::vector_moves(pos, from, piece, vectors);
        assert(spread(front)) by {
            assert forall|a: int, b: int| 0 <= a < b < front.len() implies (#[trigger] front[a]).dr
                != (#[trigger] front[b]).dr || front[a].dc != front[b].dc by {
                assert(front[a] == vectors[a] && front[b] == vectors[b]);
            }
        }
        lemma_vector_moves_are_apart(pos, from, piece, front);
        shogi_laws::lemma_along(from, v, 1);
        lemma_ray_is_apart(pos, from, piece, v, 1);
        assert(moves =~= before + ray);
        assert forall|j: int, k: int| 0 <= j < k < moves.len() implies (#[trigger] moves[j]).to != (
        #[trigger] moves[k]).to || moves[j].promote != moves[k].promote by {
            if k < before.len() {
                assert(moves[j] == before[j] && moves[k] == before[k]);
            } else if j >= before.len() {
                assert(moves[j] == ray[j - before.len()] && moves[k] == ray[k - before.len()]);
            } else {
                assert(moves[j] == before[j] && moves[k] == ray[k - before.len()]);
                let found = shogi_laws::lemma_vector_targets(pos, from, piece, front, j);
                let m = shogi_laws::lemma_ray_targets(pos, from, piece, v, 1, k - before.len());
                assert(front[found.0] == vectors[found.0]);
                lemma_directions_part(from, vectors, found.0, last, found.1, m);
            }
        }
    }
}

proof fn lemma_basic_vectors_are_spread(piece: Piece)
    ensures
        spread(shogi::basic_vectors(piece)),
{
}

/// A piece that moves by the basic rules has no move twice: any two of its moves end on different
/// squares, or one of them promotes and the other does not.
pub proof fn law_no_move_twice(pos: Position, from: (int, int), piece: Piece, rules: RulesView)
    requires
        shogi::extra_vectors(piece, rules).len() == 0,
    ensures
        apart(shogi::piece_moves(pos, from, piece, rules)),
{
    assert(shogi::piece_vectors(piece, rules) =~= shogi::basic_vectors(piece));
    lemma_basic_vectors_are_spread(piece);
    lemma_vector_moves_are_apart(pos, from, piece, shogi::basic_vectors(piece));
}

} // verus!
