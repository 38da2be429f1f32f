//! Move generation.

use crate::shogi;
use crate::shogi_laws;
use crate::types;
use crate::types::{
    hand_index, is_promotion_zone, must_promote, piece_code, piece_promotable, side_index,
    EngineMove, GenMove, Piece, PieceKind, RuntimeRules, SearchState, Side, VectorRule,
};
use vstd::prelude::*;

verus! {

/// Appends copies of `more`.
fn extend(out: &mut Vec<VectorRule>, more: &Vec<VectorRule>)
    ensures
        final(out)@ == old(out)@ + more@,
{
    let ghost before = out@;
    for i in 0..more.len()
        invariant
            out@ == before + more@.take(i as int),
    {
        out.push(more[i]);
        assert(more@.take(i + 1) == more@.take(i as int).push(more@[i as int]));
    }
    assert(more@.take(more@.len() as int) == more@);
}

fn step(dr: i32, dc: i32) -> (v: VectorRule)
    ensures
        v == shogi::step(dr as int, dc as int),
{
    VectorRule { dr, dc, slide: false }
}

fn slide(dr: i32, dc: i32) -> (v: VectorRule)
    ensures
        v == shogi::slide(dr as int, dc as int),
{
    VectorRule { dr, dc, slide: true }
}

fn gold_vectors(f: i32) -> (vectors: Vec<VectorRule>)
    requires
        -1 <= f <= 1,
    ensures
        vectors@ == shogi::gold_vectors(f as int),
{
    let b: i32 = -f;
    vec![step(f, 0), step(f, -1), step(f, 1), step(0, -1), step(0, 1), step(b, 0)]
}

/// The directions in which a piece moves by the rules of shogi.
fn basic_vectors(piece: Piece) -> (vectors: Vec<VectorRule>)
    ensures
        vectors@ == shogi::basic_vectors(piece),
{
    let f: i32 = if piece.side == Side::Black {
        -1
    } else {
        1
    };
    let b: i32 = -f;
    if piece.promoted && matches!(
            piece.kind,
            PieceKind::Pawn | PieceKind::Lance | PieceKind::Knight | PieceKind::Silver
        ) {
        return gold_vectors(f);
    }
    match piece.kind {
        PieceKind::Pawn => vec![step(f, 0)],
        PieceKind::Lance => vec![slide(f, 0)],
        PieceKind::Knight => vec![step(f * 2, -1), step(f * 2, 1)],
        PieceKind::Silver => vec![step(f, -1), step(f, 0), step(f, 1), step(b, -1), step(b, 1)],
        PieceKind::Gold => gold_vectors(f),
        PieceKind::Bishop => {
            let mut out = vec![slide(-1, -1), slide(-1, 1), slide(1, -1), slide(1, 1)];
            if piece.promoted {
                extend(&mut out, &vec![step(-1, 0), step(1, 0), step(0, -1), step(0, 1)]);
            }
            out
        },
        PieceKind::Rook => {
            let mut out = vec![slide(-1, 0), slide(1, 0), slide(0, -1), slide(0, 1)];
            if piece.promoted {
                extend(&mut out, &vec![step(-1, -1), step(-1, 1), step(1, -1), step(1, 1)]);
            }
            out
        },
        PieceKind::King => vec![
            step(-1, -1),
            step(-1, 0),
            step(-1, 1),
            step(0, -1),
            step(0, 1),
            step(1, -1),
            step(1, 0),
            step(1, 1),
        ],
    }
}

/// All directions in which a piece moves, those that the request adds included.
fn piece_vectors(piece: Piece, rules: &RuntimeRules) -> (vectors: Vec<VectorRule>)
    ensures
        vectors@ == shogi::piece_vectors(piece, rules@),
{
    let mut out = basic_vectors(piece);
    if piece.promoted && matches!(
            piece.kind,
            PieceKind::Pawn | PieceKind::Lance | PieceKind::Knight | PieceKind::Silver
        ) {
        assert(out@ =~= shogi::piece_vectors(piece, rules@));
        return out;
    }
    match rules.extra_vectors_by_piece.get(piece_code(piece.kind)) {
        Some(extra) => {
            extend(&mut out, extra);
        },
        None => {
            assert(out@ =~= shogi::piece_vectors(piece, rules@));
        },
    }
    out
}

/// A move on the board. It promotes if the piece could not move on otherwise.
fn make_gen_move(
    from: (usize, usize),
    to: (usize, usize),
    piece: Piece,
    capture: Option<Piece>,
) -> (mv: GenMove)
    ensures
        mv == (GenMove {
            promote: shogi::can_promote(piece, from.0 as int, to.0 as int) && types::dead_end(
                piece.side,
                piece.kind,
                to.0 as int,
            ),
            ..shogi::board_move(
                from.0 as int,
                from.1 as int,
                to.0 as int,
                to.1 as int,
                piece,
                capture,
            )
        }),
{
    let can_promote = piece_promotable(piece.kind) && !piece.promoted && (is_promotion_zone(
        piece.side,
        from.0,
    ) || is_promotion_zone(piece.side, to.0));
    GenMove {
        from: Some(from),
        to,
        piece,
        promote: can_promote && must_promote(piece, to.0),
        capture,
        drop: None,
    }
}

/// Appends the promoting and the plain form of a move, as far as the rules allow them.
fn push_promote_variants(out: &mut Vec<GenMove>, base: GenMove)
    ensures
        final(out)@ == old(out)@ + shogi::variants(base),
{
    let mut pushed = false;
    if piece_promotable(base.piece.kind) && !base.piece.promoted {
        if let Some((fr, _)) = base.from {
            if is_promotion_zone(base.piece.side, fr) || is_promotion_zone(
                base.piece.side,
                base.to.0,
            ) {
                let mut m = base;
                m.promote = true;
                out.push(m);
                pushed = true;
                if must_promote(base.piece, base.to.0) {
                    assert(out@ =~= old(out)@ + shogi::variants(base));
                    return;
                }
            }
        }
    }
    if !pushed || !must_promote(base.piece, base.to.0) {
        let mut m = base;
        m.promote = false;
        out.push(m);
    }
    assert(out@ =~= old(out)@ + shogi::variants(base));
}

/// Appends the moves of the piece at `row`, `col` along one direction.
fn push_step(
    state: &SearchState,
    row: usize,
    col: usize,
    piece: Piece,
    v: VectorRule,
    out: &mut Vec<GenMove>,
)
    requires
        row < 9,
        col < 9,
        v.dr != 0 || v.dc != 0 || state@.at(row as int, col as int) == Some(piece),
    ensures
        final(out)@ == old(out)@ + shogi::ray_moves(
            state@,
            (row as int, col as int),
            piece,
            row + v.dr,
            col + v.dc,
            v,
        ),
{
    let ghost from = (row as int, col as int);
    let ghost before = out@;
    let ghost whole = shogi::ray_moves(state@, from, piece, row + v.dr, col + v.dc, v);
    let mut r: i64 = row as i64 + v.dr as i64;
    let mut c: i64 = col as i64 + v.dc as i64;
    while 0 <= r && r <= 8 && 0 <= c && c <= 8
        invariant_except_break
            out@ + shogi::ray_moves(state@, from, piece, r as int, c as int, v) == before + whole,
        invariant
            -0x1_0000_0000 <= r <= 0x1_0000_0000,
            -0x1_0000_0000 <= c <= 0x1_0000_0000,
            from == (row as int, col as int),
            v.dr != 0 || v.dc != 0 || state@.at(row as int, col as int) == Some(piece),
            v.dr == 0 && v.dc == 0 ==> r == row && c == col && whole.len() == 0 && out@ == before,
        ensures
            out@ == before + whole,
        decreases shogi::ray_room(r as int, c as int, v),
    {
        let tidx: usize = r as usize * 9 + c as usize;
        let ghost here = out@;
        if let Some(tp) = state.board[tidx] {
            if tp.side == piece.side {
                assert(out@ =~= before + whole);
                break;
            }
            push_promote_variants(
                out,
                make_gen_move((row, col), (r as usize, c as usize), piece, Some(tp)),
            );
            break;
        }
        push_promote_variants(
            out,
            make_gen_move((row, col), (r as usize, c as usize), piece, None),
        );
        if !v.slide {
            break;
        }
        r = r + v.dr as i64;
        c = c + v.dc as i64;
        let ghost rest = shogi::ray_moves(state@, from, piece, r as int, c as int, v);
        assert(out@ + rest =~= here + (out@.skip(here.len() as int) + rest));
    }
    assert(out@ =~= before + whole);
}

/// Appends the moves that a piece has at `row`, `col`.
pub fn gen_piece_moves(
    state: &SearchState,
    row: usize,
    col: usize,
    piece: Piece,
    rules: &RuntimeRules,
    out: &mut Vec<GenMove>,
)
    requires
        row < 9,
        col < 9,
        state@.at(row as int, col as int) == Some(piece) || shogi::leads_away(piece, rules@),
    ensures
        final(out)@ == old(out)@ + shogi::piece_moves(
            state@,
            (row as int, col as int),
            piece,
            rules@,
        ),
        state@.at(row as int, col as int) == Some(piece) ==> final(out)@ == old(out)@
            + shogi::square_moves(state@, row * 9 + col, rules@),
{
    let ghost from = (row as int, col as int);
    let ghost before = out@;
    let vectors = piece_vectors(piece, rules);
    let ghost own = shogi::basic_vectors(piece);
    let ghost added = shogi::extra_vectors(piece, rules@);
    for i in 0..vectors.len()
        invariant
            row < 9,
            col < 9,
            from == (row as int, col as int),
            own == shogi::basic_vectors(piece),
            added == shogi::extra_vectors(piece, rules@),
            vectors@ == own + added,
            state@.at(row as int, col as int) == Some(piece) || shogi::leads_away(piece, rules@),
            out@ == before + shogi::vector_moves(state@, from, piece, vectors@.take(i as int)),
    {
        let ghost here = out@;
        proof {
            if i < own.len() {
                assert(vectors@[i as int] == own[i as int]);
            } else {
                assert(vectors@[i as int] == added[i - own.len()]);
            }
        }
        push_step(state, row, col, piece, vectors[i], out);
        assert(vectors@.take(i + 1).drop_last() == vectors@.take(i as int));
        assert(out@ =~= before + shogi::vector_moves(state@, from, piece, vectors@.take(i + 1)));
    }
    assert(vectors@.take(vectors@.len() as int) == vectors@);
    assert((row * 9 + col) / 9 == row && (row * 9 + col) % 9 == col);
}

fn has_pawn_on_file(state: &SearchState, side: Side, col: usize) -> (result: bool)
    requires
        col < 9,
    ensures
        result == shogi::pawn_on_file(state@, side, col as int),
{
    for row in 0..9usize
        invariant
            col < 9,
            forall|r: int|
                0 <= r < row ==> #[trigger] state@.at(r, col as int) != Some(
                    Piece { side, kind: PieceKind::Pawn, promoted: false },
                ),
    {
        if let Some(p) = state.board[row * 9 + col] {
            if p.side == side && p.kind == PieceKind::Pawn && !p.promoted {
                assert(state@.at(row as int, col as int) == Some(p));
                return true;
            }
        }
        assert(state@.at(row as int, col as int) == state.board@[row * 9 + col]);
    }
    false
}

/// Whether the player to move may drop the kind on this square, if it is empty.
pub fn drop_allowed(
    state: &SearchState,
    kind: PieceKind,
    row: usize,
    col: usize,
) -> (result: bool)
    requires
        kind != PieceKind::Pawn || types::dead_end(state@.side_to_move, kind, row as int) || col
            < 9,
    ensures
        result == shogi::may_drop(state@, kind, row as int, col as int),
{
    if must_promote(Piece { side: state.side_to_move, kind, promoted: false }, row) {
        return false;
    }
    if kind == PieceKind::Pawn && has_pawn_on_file(state, state.side_to_move, col) {
        return false;
    }
    true
}

/// Appends the drops of the player to move.
fn gen_drop_moves(state: &SearchState, out: &mut Vec<GenMove>)
    ensures
        final(out)@ == old(out)@ + shogi::drop_moves(state@, 7),
{
    let ghost pos = state@;
    let ghost before = out@;
    let side = side_index(state.side_to_move);
    let kinds: [PieceKind; 7] = [
        PieceKind::Pawn,
        PieceKind::Lance,
        PieceKind::Knight,
        PieceKind::Silver,
        PieceKind::Gold,
        PieceKind::Bishop,
        PieceKind::Rook,
    ];
    for k in 0..7usize
        invariant
            pos == state@,
            side == types::hand_of(state.side_to_move),
            kinds@ == shogi::hand_kinds(),
            out@ == before + shogi::drop_moves(pos, k as nat),
    {
        let kind = kinds[k];
        assert(shogi::in_hand(pos, k as int) == state.hands@[side as int]@[k as int]);
        if state.hands[side][k] > 0 {
            let ghost here = out@;
            for idx in 0..81usize
                invariant
                    pos == state@,
                    out@ == here + shogi::kind_drops(pos, kind, idx as nat),
            {
                let row: usize = idx / 9;
                let col: usize = idx % 9;
                if state.board[idx].is_none() && drop_allowed(state, kind, row, col) {
                    out.push(
                        GenMove {
                            from: None,
                            to: (row, col),
                            piece: Piece { side: state.side_to_move, kind, promoted: false },
                            promote: false,
                            capture: None,
                            drop: Some(kind),
                        },
                    );
                }
                assert(out@ =~= here + shogi::kind_drops(pos, kind, (idx + 1) as nat));
            }
        }
        assert(out@ =~= before + shogi::drop_moves(pos, (k + 1) as nat));
    }
}

fn generate_pseudo_moves(state: &SearchState, rules: &RuntimeRules) -> (moves: Vec<GenMove>)
    ensures
        moves@ == shogi::pseudo_moves(state@, rules@),
{
    let ghost pos = state@;
    let mut moves: Vec<GenMove> = Vec::new();
    for idx in 0..81usize
        invariant
            pos == state@,
            moves@ == shogi::board_moves(pos, rules@, idx as nat),
    {
        let ghost here = moves@;
        if let Some(piece) = state.board[idx] {
            if piece.side == state.side_to_move {
                assert((idx / 9) * 9 + idx % 9 == idx);
                gen_piece_moves(state, idx / 9, idx % 9, piece, rules, &mut moves);
            }
        }
        assert(moves@ == shogi::board_moves(pos, rules@, (idx + 1) as nat));
    }
    gen_drop_moves(state, &mut moves);
    moves
}

/// The position after a move.
pub fn apply_move(state: &SearchState, mv: &GenMove) -> (next: SearchState)
    requires
        shogi::playable(state@, *mv),
    ensures
        next@ == shogi::after_move(state@, *mv),
{
    let mut next = *state;
    if let Some((fr, fc)) = mv.from {
        let from_idx: usize = fr * 9 + fc;
        let to_idx: usize = mv.to.0 * 9 + mv.to.1;
        let mut piece = next.board[from_idx].unwrap();
        next.board[from_idx] = None;
        if let Some(cap) = next.board[to_idx] {
            if let Some(hidx) = hand_index(cap.kind) {
                let side = side_index(piece.side);
                next.hands[side][hidx] = next.hands[side][hidx].saturating_add(1);
            }
        }
        if mv.promote {
            piece.promoted = true;
        }
        next.board[to_idx] = Some(piece);
    } else if let Some(kind) = mv.drop {
        let to_idx: usize = mv.to.0 * 9 + mv.to.1;
        next.board[to_idx] = Some(Piece { side: state.side_to_move, kind, promoted: false });
        if let Some(hidx) = hand_index(kind) {
            let side = side_index(state.side_to_move);
            next.hands[side][hidx] = next.hands[side][hidx].saturating_sub(1);
        }
    }
    next.side_to_move = state.side_to_move.opposite();
    assert(next@ =~~= shogi::after_move(state@, *mv));
    next
}

/// Whether some piece of `attacker` has a move onto `tr`, `tc`.
fn attacks_square(
    state: &SearchState,
    attacker: Side,
    tr: usize,
    tc: usize,
    rules: &RuntimeRules,
) -> (result: bool)
    ensures
        result == shogi::attacked(state@, attacker, tr as int, tc as int, rules@),
{
    let ghost pos = state@;
    for idx in 0..81usize
        invariant
            pos == state@,
            forall|i: int, j: int|
                0 <= i < idx && shogi::owned(pos, i, attacker) && 0 <= j < shogi::square_moves(
                    pos,
                    i,
                    rules@,
                ).len() ==> (#[trigger] shogi::square_moves(pos, i, rules@)[j]).to != (tr, tc),
    {
        if let Some(piece) = state.board[idx] {
            if piece.side == attacker {
                let mut list: Vec<GenMove> = Vec::new();
                assert((idx / 9) * 9 + idx % 9 == idx);
                gen_piece_moves(state, idx / 9, idx % 9, piece, rules, &mut list);
                assert(list@ == shogi::square_moves(pos, idx as int, rules@));
                for j in 0..list.len()
                    invariant
                        idx < 81,
                        pos == state@,
                        shogi::owned(pos, idx as int, attacker),
                        list@ == shogi::square_moves(pos, idx as int, rules@),
                        forall|k: int| 0 <= k < j ==> (#[trigger] list@[k]).to != (tr, tc),
                {
                    if list[j].to.0 == tr && list[j].to.1 == tc {
                        assert(shogi::square_moves(pos, idx as int, rules@)[j as int].to == (
                            tr,
                            tc,
                        ));
                        return true;
                    }
                }
            }
        }
    }
    false
}

/// Whether the king of `side` is attacked.
pub fn is_in_check(state: &SearchState, side: Side, rules: &RuntimeRules) -> (result: bool)
    ensures
        result == shogi::in_check(state@, side, rules@),
{
    let ghost pos = state@;
    for idx in 0..81usize
        invariant
            pos == state@,
            forall|i: int| 0 <= i < idx ==> !#[trigger] shogi::king_on(pos, side, i),
    {
        if let Some(pc) = state.board[idx] {
            if pc.side == side && pc.kind == PieceKind::King {
                assert(shogi::king_on(pos, side, idx as int));
                assert(shogi::first_king(pos, side, idx as int));
                assert forall|k: int| #[trigger]
                    shogi::first_king(pos, side, k) implies k == idx by {
                    if k < idx {
                        assert(!shogi::king_on(pos, side, k));
                    }
                }
                return attacks_square(state, side.opposite(), idx / 9, idx % 9, rules);
            }
        }
    }
    false
}

/// Whether a move drops a pawn that mates at once.
fn is_uchi_fuzume(state: &SearchState, mv: &GenMove, rules: &RuntimeRules) -> (result: bool)
    requires
        shogi::playable(state@, *mv),
    ensures
        result == shogi::pawn_drop_mates(state@, *mv, rules@),
    decreases 1int, 0int,
{
    match mv.drop {
        Some(PieceKind::Pawn) => {},
        _ => {
            return false;
        },
    }
    let next = apply_move(state, mv);
    if !is_in_check(&next, next.side_to_move, rules) {
        return false;
    }
    let replies = generate_legal_moves(&next, rules, false);
    replies.len() == 0
}

/// The legal moves of the player to move. With `enforce_uchifuzume`, a pawn may not be dropped
/// for mate.
pub fn generate_legal_moves(
    state: &SearchState,
    rules: &RuntimeRules,
    enforce_uchifuzume: bool,
) -> (legal: Vec<GenMove>)
    ensures
        legal@ == shogi::legal_moves(state@, rules@, enforce_uchifuzume),
    decreases (if enforce_uchifuzume { 1int } else { 0int }), 1int,
{
    let ghost pos = state@;
    let pseudo = generate_pseudo_moves(state, rules);
    proof {
        shogi_laws::law_pseudo_moves_fit(pos, rules@);
    }
    let mut legal: Vec<GenMove> = Vec::new();
    for i in 0..pseudo.len()
        invariant
            pos == state@,
            pos.wf(),
            forall|j: int| 0 <= j < pseudo@.len() ==> shogi_laws::fits(pos, #[trigger] pseudo@[j]),
            legal@ == (if enforce_uchifuzume {
                shogi::legal_among(pos, rules@, pseudo@.take(i as int))
            } else {
                shogi::safe_among(pos, rules@, pseudo@.take(i as int))
            }),
    {
        let mv = pseudo[i];
        assert(shogi_laws::fits(pos, pseudo@[i as int]));
        assert(shogi::playable(pos, mv));
        assert(pseudo@.take(i + 1).drop_last() == pseudo@.take(i as int));
        let next = apply_move(state, &mv);
        if !is_in_check(&next, state.side_to_move, rules) && !(enforce_uchifuzume
            && is_uchi_fuzume(state, &mv, rules)) {
            legal.push(mv);
        }
    }
    assert(pseudo@.take(pseudo@.len() as int) == pseudo@);
    legal
}

/// A generated move in board coordinates and piece codes.
pub fn to_move_input(mv: &GenMove) -> (input: EngineMove)
    ensures
        input@ == shogi::engine_move(*mv),
{
    EngineMove {
        from_row: match mv.from {
            Some((r, _)) => Some(r as i32),
            None => None,
        },
        from_col: match mv.from {
            Some((_, c)) => Some(c as i32),
            None => None,
        },
        to_row: mv.to.0 as i32,
        to_col: mv.to.1 as i32,
        piece_code: piece_code(mv.piece.kind).to_string(),
        promote: mv.promote,
        drop_piece_code: match mv.drop {
            Some(kind) => Some(piece_code(kind).to_string()),
            None => None,
        },
        captured_piece_code: match mv.capture {
            Some(taken) => Some(piece_code(taken.kind).to_string()),
            None => None,
        },
        notation: None,
    }
}

} // verus!
