//! How the pieces move, said by coordinates.

use crate::shogi;
use crate::shogi_laws;
use crate::types;
use crate::types::{GenMove, Piece, PieceKind, Position, RulesView, Side, VectorRule};
use vstd::prelude::*;

verus! {

// ---------------------------------------------------------------------------
// Steps
// ---------------------------------------------------------------------------

/// How far a difference of rows leads ahead: black moves towards row 0.
pub open spec fn forward(side: Side, rows: int) -> int {
    match side {
        Side::Black => -rows,
        Side::White => rows,
    }
}

/// One square in any direction.
pub open spec fn neighbouring(rows: int, cols: int) -> bool {
    -1 <= rows <= 1 && -1 <= cols <= 1 && (rows != 0 || cols != 0)
}

/// Along a row or a column.
pub open spec fn straight(rows: int, cols: int) -> bool {
    (rows == 0 && cols != 0) || (rows != 0 && cols == 0)
}

/// Along a diagonal.
pub open spec fn slanted(rows: int, cols: int) -> bool {
    rows != 0 && (rows == cols || rows == -cols)
}

/// As a gold: one square, but not diagonally back.
pub open spec fn as_gold(ahead: int, cols: int) -> bool {
    neighbouring(ahead, cols) && !(ahead == -1 && cols != 0)
}

/// The direction of a difference: -1, 0 or 1.
pub open spec fn sign(n: int) -> int {
    if n < 0 {
        -1
    } else if n > 0 {
        1
    } else {
        0
    }
}

pub open spec fn magnitude(n: int) -> int {
    if n < 0 {
        -n
    } else {
        n
    }
}

/// How many steps a straight or slanted difference is long.
pub open spec fn span(rows: int, cols: int) -> int {
    if magnitude(rows) < magnitude(cols) {
        magnitude(cols)
    } else {
        magnitude(rows)
    }
}

/// What stands on row `row` and column `col`.
pub open spec fn standing(pos: Position, row: int, col: int) -> Option<Piece> {
    pos.board[9 * row + col]
}

/// Whether every square between two squares of a line is empty.
pub open spec fn clear_between(pos: Position, from: (int, int), to: (int, int)) -> bool {
    let rows = to.0 - from.0;
    let cols = to.1 - from.1;
    forall|m: int|
        1 <= m < span(rows, cols) ==> #[trigger] standing(
            pos,
            from.0 + m * sign(rows),
            from.1 + m * sign(cols),
        ) is None
}

/// Whether a piece moves from one square to another by the rules of shogi, as far as the squares
/// between them go.
pub open spec fn moves_to(pos: Position, piece: Piece, from: (int, int), to: (int, int)) -> bool {
    let rows = to.0 - from.0;
    let cols = to.1 - from.1;
    let ahead = forward(piece.side, rows);
    let free = clear_between(pos, from, to);
    if piece.promoted {
        match piece.kind {
            PieceKind::Pawn
            | PieceKind::Lance
            | PieceKind::Knight
            | PieceKind::Silver
            | PieceKind::Gold => as_gold(ahead, cols),
            PieceKind::Bishop => (slanted(rows, cols) && free) || neighbouring(rows, cols),
            PieceKind::Rook => (straight(rows, cols) && free) || neighbouring(rows, cols),
            PieceKind::King => neighbouring(rows, cols),
        }
    } else {
        match piece.kind {
            PieceKind::Pawn => ahead == 1 && cols == 0,
            PieceKind::Lance => ahead >= 1 && cols == 0 && free,
            PieceKind::Knight => ahead == 2 && (cols == 1 || cols == -1),
            PieceKind::Silver => neighbouring(ahead, cols) && ahead != 0 && !(ahead == -1 && cols
                == 0),
            PieceKind::Gold => as_gold(ahead, cols),
            PieceKind::Bishop => slanted(rows, cols) && free,
            PieceKind::Rook => straight(rows, cols) && free,
            PieceKind::King => neighbouring(rows, cols),
        }
    }
}

/// Whether `n` steps along an added direction lead from one square to another: one, or more if
/// the direction slides and every square on the way is empty.
pub open spec fn steps_to(
    pos: Position,
    v: VectorRule,
    from: (int, int),
    to: (int, int),
    n: int,
) -> bool {
    &&& v.dr != 0 || v.dc != 0
    &&& n == 1 || (n > 1 && v.slide)
    &&& to.0 == from.0 + n * v.dr
    &&& to.1 == from.1 + n * v.dc
    &&& forall|m: int|
        1 <= m < n ==> {
            let row = from.0 + m * v.dr;
            let col = from.1 + m * v.dc;
            &&& 0 <= row <= 8
            &&& 0 <= col <= 8
            &&& #[trigger] standing(pos, from.0 + m * v.dr, from.1 + m * v.dc) is None
        }
}

/// Whether a piece has become a gold by promotion.
pub open spec fn turned_gold(piece: Piece) -> bool {
    piece.promoted && (piece.kind == PieceKind::Pawn || piece.kind == PieceKind::Lance
        || piece.kind == PieceKind::Knight || piece.kind == PieceKind::Silver)
}

/// Whether one of the directions that a request adds for the kind of a piece leads from one square
/// to another. A piece that has become a gold by promotion has none.
pub open spec fn moves_by_addition(
    pos: Position,
    piece: Piece,
    from: (int, int),
    to: (int, int),
    rules: RulesView,
) -> bool {
    &&& !turned_gold(piece)
    &&& rules.vectors.contains_key(types::kind_code(piece.kind))
    &&& exists|d: int, n: int|
        0 <= d < rules.vectors[types::kind_code(piece.kind)].len() && #[trigger] steps_to(
            pos,
            rules.vectors[types::kind_code(piece.kind)][d],
            from,
            to,
            n,
        )
}

/// Whether a piece gets from one square to another: by the rules of shogi or by an added direction,
/// and not onto a piece of its own side.
pub open spec fn gets(
    pos: Position,
    piece: Piece,
    from: (int, int),
    to: (int, int),
    rules: RulesView,
) -> bool {
    &&& standing(pos, to.0, to.1) matches Some(other) ==> other.side != piece.side
    &&& moves_to(pos, piece, from, to) || moves_by_addition(pos, piece, from, to, rules)
}

// ---------------------------------------------------------------------------
// Directions and steps
// ---------------------------------------------------------------------------

pub(crate) proof fn lemma_times(n: int, d: int)
    requires
        -1 <= d <= 1,
    ensures
        n * d == (if d == 1 {
            n
        } else if d == 0 {
            0
        } else {
            -n
        }),
{
    if d == 1 {
        assert(n * 1 == n);
    } else if d == 0 {
        assert(n * 0 == 0);
    } else {
        assert(n * -1 == -n);
    }
}

/// Whether the direction leads to the square in some number of steps, over empty squares.
spec fn leads(pos: Position, from: (int, int), to: (int, int), side: Side, v: VectorRule) -> bool {
    exists|n: int| #[trigger]
        shogi_laws::gets_to(pos, from, side, v, n) && shogi_laws::along(from, v, n) == to
}

/// Whether the square is not taken by the side.
spec fn enterable(pos: Position, to: (int, int), side: Side) -> bool {
    standing(pos, to.0, to.1) matches Some(other) ==> other.side != side
}

proof fn lemma_step_leads(
    pos: Position,
    from: (int, int),
    to: (int, int),
    side: Side,
    v: VectorRule,
)
    requires
        shogi::on_board(to.0, to.1),
        !v.slide,
        v.dr != 0 || v.dc != 0,
    ensures
        leads(pos, from, to, side, v) <==> enterable(pos, to, side) && to.0 - from.0 == v.dr && to.1
            - from.1 == v.dc,
{
    shogi_laws::lemma_along(from, v, 1);
    if leads(pos, from, to, side, v) {
        let n = choose|n: int| #[trigger]
            shogi_laws::gets_to(pos, from, side, v, n) && shogi_laws::along(from, v, n) == to;
        assert(n == 1);
        assert(shogi_laws::open_to(pos, from, side, v, 1));
    }
    if enterable(pos, to, side) && to.0 - from.0 == v.dr && to.1 - from.1 == v.dc {
        assert(shogi_laws::open_to(pos, from, side, v, 1));
        assert(shogi_laws::gets_to(pos, from, side, v, 1));
    }
}

proof fn lemma_slide_leads(
    pos: Position,
    from: (int, int),
    to: (int, int),
    side: Side,
    v: VectorRule,
)
    requires
        shogi::on_board(from.0, from.1),
        shogi::on_board(to.0, to.1),
        v.slide,
        -1 <= v.dr <= 1,
        -1 <= v.dc <= 1,
        v.dr != 0 || v.dc != 0,
    ensures
        leads(pos, from, to, side, v) <==> {
            &&& enterable(pos, to, side)
            &&& sign(to.0 - from.0) == v.dr
            &&& sign(to.1 - from.1) == v.dc
            &&& straight(to.0 - from.0, to.1 - from.1) || slanted(to.0 - from.0, to.1 - from.1)
            &&& clear_between(pos, from, to)
        },
{
    let rows = to.0 - from.0;
    let cols = to.1 - from.1;
    let dr = v.dr as int;
    let dc = v.dc as int;
    if leads(pos, from, to, side, v) {
        let n = choose|n: int| #[trigger]
            shogi_laws::gets_to(pos, from, side, v, n) && shogi_laws::along(from, v, n) == to;
        lemma_times(n, dr);
        lemma_times(n, dc);
        assert(n >= 1);
        assert(span(rows, cols) == n);
        assert forall|m: int| 1 <= m < span(rows, cols) implies #[trigger] standing(
            pos,
            from.0 + m * sign(rows),
            from.1 + m * sign(cols),
        ) is None by {
            assert(shogi_laws::free(pos, from, v, m));
        }
        assert(shogi_laws::open_to(pos, from, side, v, n));
    }
    if enterable(pos, to, side) && sign(rows) == dr && sign(cols) == dc && (straight(rows, cols)
        || slanted(rows, cols)) && clear_between(pos, from, to) {
        let n = span(rows, cols);
        lemma_times(n, dr);
        lemma_times(n, dc);
        assert(shogi_laws::along(from, v, n) == to);
        assert forall|m: int| 1 <= m < n implies #[trigger] shogi_laws::free(pos, from, v, m) by {
            lemma_times(m, dr);
            lemma_times(m, dc);
            assert(standing(pos, from.0 + m * sign(rows), from.1 + m * sign(cols)) is None);
        }
        assert(shogi_laws::open_to(pos, from, side, v, n));
        assert(shogi_laws::gets_to(pos, from, side, v, n));
    }
}

/// Whether one of the directions leads to the square.
spec fn any_leads(
    pos: Position,
    from: (int, int),
    to: (int, int),
    side: Side,
    vectors: Seq<VectorRule>,
) -> bool {
    exists|d: int| 0 <= d < vectors.len() && leads(pos, from, to, side, #[trigger] vectors[d])
}

proof fn lemma_gold_leads(pos: Position, from: (int, int), to: (int, int), side: Side)
    requires
        shogi::on_board(from.0, from.1),
        shogi::on_board(to.0, to.1),
    ensures
        any_leads(pos, from, to, side, shogi::gold_vectors(shogi::ahead(side))) <==> enterable(
            pos,
            to,
            side,
        ) && as_gold(forward(side, to.0 - from.0), to.1 - from.1),
{
    let vectors = shogi::gold_vectors(shogi::ahead(side));
    lemma_steps_lead(pos, from, to, side, vectors);
}

proof fn lemma_steps_lead(
    pos: Position,
    from: (int, int),
    to: (int, int),
    side: Side,
    vectors: Seq<VectorRule>,
)
    requires
        shogi::on_board(from.0, from.1),
        shogi::on_board(to.0, to.1),
        forall|d: int|
            0 <= d < vectors.len() ==> !(#[trigger] vectors[d]).slide && (vectors[d].dr != 0
                || vectors[d].dc != 0),
    ensures
        forall|d: int|
            0 <= d < vectors.len() ==> (leads(pos, from, to, side, #[trigger] vectors[d])
                <==> enterable(pos, to, side) && to.0 - from.0 == vectors[d].dr && to.1 - from.1
                == vectors[d].dc),
{
    assert forall|d: int| 0 <= d < vectors.len() implies (leads(
        pos,
        from,
        to,
        side,
        #[trigger] vectors[d],
    ) <==> enterable(pos, to, side) && to.0 - from.0 == vectors[d].dr && to.1 - from.1
        == vectors[d].dc) by {
        lemma_step_leads(pos, from, to, side, vectors[d]);
    }
}

proof fn lemma_any_of_both(
    pos: Position,
    from: (int, int),
    to: (int, int),
    side: Side,
    a: Seq<VectorRule>,
    b: Seq<VectorRule>,
)
    ensures
        any_leads(pos, from, to, side, a + b) <==> any_leads(pos, from, to, side, a) || any_leads(
            pos,
            from,
            to,
            side,
            b,
        ),
{
    let both = a + b;
    if any_leads(pos, from, to, side, a) {
        let d = choose|d: int| 0 <= d < a.len() && leads(pos, from, to, side, #[trigger] a[d]);
        assert(both[d] == a[d]);
    }
    if any_leads(pos, from, to, side, b) {
        let d = choose|d: int| 0 <= d < b.len() && leads(pos, from, to, side, #[trigger] b[d]);
        assert(both[a.len() + d] == b[d]);
    }
    if any_leads(pos, from, to, side, both) {
        let d = choose|d: int|
            0 <= d < both.len() && leads(pos, from, to, side, #[trigger] both[d]);
        if d < a.len() {
            assert(both[d] == a[d]);
        } else {
            assert(both[d] == b[d - a.len()]);
        }
    }
}

proof fn lemma_slides_lead(
    pos: Position,
    from: (int, int),
    to: (int, int),
    side: Side,
    vectors: Seq<VectorRule>,
)
    requires
        shogi::on_board(from.0, from.1),
        shogi::on_board(to.0, to.1),
        forall|d: int|
            0 <= d < vectors.len() ==> (#[trigger] vectors[d]).slide && -1 <= vectors[d].dr <= 1
                && -1 <= vectors[d].dc <= 1 && (vectors[d].dr != 0 || vectors[d].dc != 0),
    ensures
        forall|d: int|
            0 <= d < vectors.len() ==> (leads(pos, from, to, side, #[trigger] vectors[d]) <==> {
                &&& enterable(pos, to, side)
                &&& sign(to.0 - from.0) == vectors[d].dr
                &&& sign(to.1 - from.1) == vectors[d].dc
                &&& straight(to.0 - from.0, to.1 - from.1) || slanted(
                    to.0 - from.0,
                    to.1 - from.1,
                )
                &&& clear_between(pos, from, to)
            }),
{
    assert forall|d: int| 0 <= d < vectors.len() implies (leads(
        pos,
        from,
        to,
        side,
        #[trigger] vectors[d],
    ) <==> {
        &&& enterable(pos, to, side)
        &&& sign(to.0 - from.0) == vectors[d].dr
        &&& sign(to.1 - from.1) == vectors[d].dc
        &&& straight(to.0 - from.0, to.1 - from.1) || slanted(to.0 - from.0, to.1 - from.1)
        &&& clear_between(pos, from, to)
    }) by {
        lemma_slide_leads(pos, from, to, side, vectors[d]);
    }
}

proof fn lemma_diagonals_lead(pos: Position, from: (int, int), to: (int, int), side: Side)
    requires
        shogi::on_board(from.0, from.1),
        shogi::on_board(to.0, to.1),
    ensures
        any_leads(pos, from, to, side, shogi::diagonals(true)) <==> enterable(pos, to, side)
            && slanted(to.0 - from.0, to.1 - from.1) && clear_between(pos, from, to),
        any_leads(pos, from, to, side, shogi::diagonals(false)) <==> enterable(pos, to, side)
            && slanted(to.0 - from.0, to.1 - from.1) && neighbouring(to.0 - from.0, to.1 - from.1),
{
    let slides = shogi::diagonals(true);
    let steps = shogi::diagonals(false);
    lemma_slides_lead(pos, from, to, side, slides);
    lemma_steps_lead(pos, from, to, side, steps);
    let rows = to.0 - from.0;
    let cols = to.1 - from.1;
    let d: int = if rows < 0 {
        if cols < 0 {
            0
        } else {
            1
        }
    } else {
        if cols < 0 {
            2
        } else {
            3
        }
    };
    assert(slides[d].slide);
    assert(!steps[d].slide);
}

proof fn lemma_orthogonals_lead(pos: Position, from: (int, int), to: (int, int), side: Side)
    requires
        shogi::on_board(from.0, from.1),
        shogi::on_board(to.0, to.1),
    ensures
        any_leads(pos, from, to, side, shogi::orthogonals(true)) <==> enterable(pos, to, side)
            && straight(to.0 - from.0, to.1 - from.1) && clear_between(pos, from, to),
        any_leads(pos, from, to, side, shogi::orthogonals(false)) <==> enterable(pos, to, side)
            && straight(to.0 - from.0, to.1 - from.1) && neighbouring(
            to.0 - from.0,
            to.1 - from.1,
        ),
{
    let slides = shogi::orthogonals(true);
    let steps = shogi::orthogonals(false);
    lemma_slides_lead(pos, from, to, side, slides);
    lemma_steps_lead(pos, from, to, side, steps);
    let rows = to.0 - from.0;
    let cols = to.1 - from.1;
    let d: int = if rows < 0 {
        0
    } else if rows > 0 {
        1
    } else if cols < 0 {
        2
    } else {
        3
    };
    assert(slides[d].slide);
    assert(!steps[d].slide);
}

/// The directions of a piece lead where it moves by the rules.
proof fn lemma_basic_vectors_lead(pos: Position, piece: Piece, from: (int, int), to: (int, int))
    requires
        shogi::on_board(from.0, from.1),
        shogi::on_board(to.0, to.1),
    ensures
        any_leads(pos, from, to, piece.side, shogi::basic_vectors(piece)) <==> enterable(
            pos,
            to,
            piece.side,
        ) && moves_to(pos, piece, from, to),
{
    let side = piece.side;
    let f = shogi::ahead(side);
    let vectors = shogi::basic_vectors(piece);
    let rows = to.0 - from.0;
    let cols = to.1 - from.1;
    match piece.kind {
        PieceKind::Gold => {
            lemma_gold_leads(pos, from, to, side);
            assert(vectors == shogi::gold_vectors(f));
            assert(moves_to(pos, piece, from, to) == as_gold(forward(side, rows), cols));
        },
        PieceKind::Pawn => {
            lemma_gold_leads(pos, from, to, side);
            if !piece.promoted {
                lemma_steps_lead(pos, from, to, side, vectors);
                assert(vectors[0].dr == f);
            }
        },
        PieceKind::Knight => {
            lemma_gold_leads(pos, from, to, side);
            if !piece.promoted {
                lemma_steps_lead(pos, from, to, side, vectors);
                assert(vectors[0].dc == -1 && vectors[1].dc == 1);
            }
        },
        PieceKind::Silver => {
            lemma_gold_leads(pos, from, to, side);
            if !piece.promoted {
                lemma_steps_lead(pos, from, to, side, vectors);
                assert(vectors[0].dr == f && vectors[1].dr == f && vectors[2].dr == f);
                assert(vectors[3].dr == -f && vectors[4].dr == -f);
            }
        },
        PieceKind::Lance => {
            lemma_gold_leads(pos, from, to, side);
            if !piece.promoted {
                lemma_slides_lead(pos, from, to, side, vectors);
            }
        },
        PieceKind::Bishop => {
            lemma_diagonals_lead(pos, from, to, side);
            lemma_orthogonals_lead(pos, from, to, side);
            lemma_any_of_both(
                pos,
                from,
                to,
                side,
                shogi::diagonals(true),
                shogi::orthogonals(false),
            );
            if slanted(rows, cols) && neighbouring(rows, cols) {
                assert(span(rows, cols) == 1);
            }
        },
        PieceKind::Rook => {
            lemma_diagonals_lead(pos, from, to, side);
            lemma_orthogonals_lead(pos, from, to, side);
            lemma_any_of_both(
                pos,
                from,
                to,
                side,
                shogi::orthogonals(true),
                shogi::diagonals(false),
            );
            if straight(rows, cols) && neighbouring(rows, cols) {
                assert(span(rows, cols) == 1);
            }
        },
        PieceKind::King => {
            lemma_steps_lead(pos, from, to, side, vectors);
            let d: int = 3 * (rows + 1) + (cols + 1);
            if neighbouring(rows, cols) {
                let at = if d < 4 {
                    d
                } else {
                    d - 1
                };
                assert(vectors[at].dr == rows && vectors[at].dc == cols);
            }
        },
    }
}

proof fn lemma_added_vectors_lead(
    pos: Position,
    piece: Piece,
    from: (int, int),
    to: (int, int),
    rules: RulesView,
)
    requires
        shogi::on_board(to.0, to.1),
    ensures
        any_leads(pos, from, to, piece.side, shogi::extra_vectors(piece, rules)) <==> enterable(
            pos,
            to,
            piece.side,
        ) && moves_by_addition(pos, piece, from, to, rules),
{
    let side = piece.side;
    let vectors = shogi::extra_vectors(piece, rules);
    assert(turned_gold(piece) == (piece.promoted && shogi::promotes_to_gold(piece.kind)));
    if any_leads(pos, from, to, side, vectors) {
        let d = choose|d: int|
            0 <= d < vectors.len() && leads(pos, from, to, side, #[trigger] vectors[d]);
        let v = vectors[d];
        let n = choose|n: int| #[trigger]
            shogi_laws::gets_to(pos, from, side, v, n) && shogi_laws::along(from, v, n) == to;
        assert(shogi_laws::open_to(pos, from, side, v, n));
        assert forall|m: int| 1 <= m < n implies {
            let row = from.0 + m * v.dr;
            let col = from.1 + m * v.dc;
            &&& 0 <= row <= 8
            &&& 0 <= col <= 8
            &&& #[trigger] standing(pos, from.0 + m * v.dr, from.1 + m * v.dc) is None
        } by {
            assert(shogi_laws::free(pos, from, v, m));
        }
        assert(steps_to(pos, rules.vectors[types::kind_code(piece.kind)][d], from, to, n));
    }
    if enterable(pos, to, side) && moves_by_addition(pos, piece, from, to, rules) {
        let (d, n): (int, int) = choose|d: int, n: int|
            0 <= d < rules.vectors[types::kind_code(piece.kind)].len() && #[trigger] steps_to(
                pos,
                rules.vectors[types::kind_code(piece.kind)][d],
                from,
                to,
                n,
            );
        let v = vectors[d];
        assert forall|m: int| 1 <= m < n implies #[trigger] shogi_laws::free(pos, from, v, m) by {
            assert(standing(pos, from.0 + m * v.dr, from.1 + m * v.dc) is None);
        }
        assert(shogi_laws::open_to(pos, from, side, v, n));
        assert(shogi_laws::gets_to(pos, from, side, v, n));
    }
}

proof fn lemma_vectors_lead(
    pos: Position,
    piece: Piece,
    from: (int, int),
    to: (int, int),
    rules: RulesView,
)
    requires
        shogi::on_board(from.0, from.1),
        shogi::on_board(to.0, to.1),
    ensures
        any_leads(pos, from, to, piece.side, shogi::piece_vectors(piece, rules)) <==> gets(
            pos,
            piece,
            from,
            to,
            rules,
        ),
{
    lemma_basic_vectors_lead(pos, piece, from, to);
    lemma_added_vectors_lead(pos, piece, from, to, rules);
    lemma_any_of_both(
        pos,
        from,
        to,
        piece.side,
        shogi::basic_vectors(piece),
        shogi::extra_vectors(piece, rules),
    );
}

// ---------------------------------------------------------------------------
// The moves of a piece
// ---------------------------------------------------------------------------

/// Whether a row is one of the last `n` that a side can reach.
pub open spec fn among_last_rows(side: Side, row: int, n: int) -> bool {
    match side {
        Side::Black => row < n,
        Side::White => row > 8 - n,
    }
}

/// Whether a move of a piece between these rows may promote it: it has a promoted side, is not
/// promoted yet, and starts or ends among the last three rows.
pub open spec fn may_promote(piece: Piece, from_row: int, to_row: int) -> bool {
    &&& !piece.promoted
    &&& piece.kind != PieceKind::Gold && piece.kind != PieceKind::King
    &&& among_last_rows(piece.side, from_row, 3) || among_last_rows(piece.side, to_row, 3)
}

/// Whether a piece could never move on from a row: an unpromoted pawn or lance on the last one, an
/// unpromoted knight on the last two.
pub open spec fn stuck(piece: Piece, row: int) -> bool {
    &&& !piece.promoted
    &&& match piece.kind {
        PieceKind::Pawn | PieceKind::Lance => among_last_rows(piece.side, row, 1),
        PieceKind::Knight => among_last_rows(piece.side, row, 2),
        _ => false,
    }
}

/// Whether `mv` is a move on the board of `piece`, standing at `from`.
pub open spec fn is_move_of(
    pos: Position,
    piece: Piece,
    from: (int, int),
    rules: RulesView,
    mv: GenMove,
) -> bool {
    let to = (mv.to.0 as int, mv.to.1 as int);
    &&& mv.from == Some((from.0 as usize, from.1 as usize))
    &&& mv.piece == piece
    &&& mv.drop is None
    &&& to.0 <= 8
    &&& to.1 <= 8
    &&& mv.capture == standing(pos, to.0, to.1)
    &&& gets(pos, piece, from, to, rules)
    &&& if mv.promote {
        may_promote(piece, from.0, to.0)
    } else {
        !stuck(piece, to.0)
    }
}

proof fn lemma_forms(
    pos: Position,
    from: (int, int),
    piece: Piece,
    v: VectorRule,
    n: int,
    mv: GenMove,
)
    requires
        shogi::on_board(from.0, from.1),
        shogi::on_board(shogi_laws::along(from, v, n).0, shogi_laws::along(from, v, n).1),
    ensures
        shogi_laws::forms(pos, from, piece, v, n).contains(mv) <==> {
            let to = shogi_laws::along(from, v, n);
            &&& mv.from == Some((from.0 as usize, from.1 as usize))
            &&& mv.to == (to.0 as usize, to.1 as usize)
            &&& mv.piece == piece
            &&& mv.drop is None
            &&& mv.capture == standing(pos, to.0, to.1)
            &&& if mv.promote {
                may_promote(piece, from.0, to.0)
            } else {
                !stuck(piece, to.0)
            }
        },
{
    let to = shogi_laws::along(from, v, n);
    let list = shogi_laws::forms(pos, from, piece, v, n);
    let base = shogi::board_move(from.0, from.1, to.0, to.1, piece, pos.at(to.0, to.1));
    assert(pos.at(to.0, to.1) == standing(pos, to.0, to.1));
    let promoting = GenMove { promote: true, ..base };
    let plain = GenMove { promote: false, ..base };
    assert(shogi::can_promote(piece, from.0, to.0) == may_promote(piece, from.0, to.0));
    assert(stuck(piece, to.0) ==> may_promote(piece, from.0, to.0));
    assert(!piece.promoted ==> stuck(piece, to.0) == types::dead_end(
        piece.side,
        piece.kind,
        to.0,
    ));
    assert(list == shogi::variants(base));
    if list.contains(mv) {
        let k = choose|k: int| 0 <= k < list.len() && list[k] == mv;
        assert(mv == promoting || mv == plain);
    }
    if mv == promoting && may_promote(piece, from.0, to.0) {
        assert(list[0] == mv);
    }
    if mv == plain && !stuck(piece, to.0) {
        assert(list[list.len() - 1] == mv);
    }
}

/// Each move of a ray that starts `n` steps away is a form of a move to a square that it gets to.
proof fn lemma_ray_move_is_a_form(
    pos: Position,
    from: (int, int),
    piece: Piece,
    v: VectorRule,
    n: int,
    mv: GenMove,
) -> (m: int)
    requires
        n >= 1,
        shogi::ray_moves(
            pos,
            from,
            piece,
            shogi_laws::along(from, v, n).0,
            shogi_laws::along(from, v, n).1,
            v,
        ).contains(mv),
    ensures
        m == n || (m > n && v.slide),
        v.dr != 0 || v.dc != 0,
        forall|k: int| n <= k < m ==> #[trigger] shogi_laws::free(pos, from, v, k),
        shogi_laws::open_to(pos, from, piece.side, v, m),
        shogi_laws::forms(pos, from, piece, v, m).contains(mv),
    decreases
            shogi::ray_room(
                shogi_laws::along(from, v, n).0,
                shogi_laws::along(from, v, n).1,
                v,
            ),
{
    let at = shogi_laws::along(from, v, n);
    shogi_laws::lemma_along(from, v, n);
    if pos.at(at.0, at.1) is None && v.slide {
        let here = shogi_laws::forms(pos, from, piece, v, n);
        let rest = shogi::ray_moves(pos, from, piece, at.0 + v.dr, at.1 + v.dc, v);
        shogi_laws::lemma_append_contains(here, rest, mv);
        if here.contains(mv) {
            n
        } else {
            let m = lemma_ray_move_is_a_form(pos, from, piece, v, n + 1, mv);
            assert(shogi_laws::free(pos, from, v, n));
            m
        }
    } else {
        n
    }
}

proof fn lemma_vector_move_is_a_form(
    pos: Position,
    from: (int, int),
    piece: Piece,
    vectors: Seq<VectorRule>,
    mv: GenMove,
) -> (found: (int, int))
    requires
        shogi::vector_moves(pos, from, piece, vectors).contains(mv),
    ensures
        0 <= found.0 < vectors.len(),
        shogi_laws::gets_to(pos, from, piece.side, vectors[found.0], found.1),
        shogi_laws::forms(pos, from, piece, vectors[found.0], found.1).contains(mv),
    decreases vectors.len(),
{
    let v = vectors.last();
    let before = shogi::vector_moves(pos, from, piece, vectors.drop_last());
    let ray = shogi::ray_moves(pos, from, piece, from.0 + v.dr, from.1 + v.dc, v);
    shogi_laws::lemma_along(from, v, 1);
    shogi_laws::lemma_append_contains(before, ray, mv);
    if before.contains(mv) {
        lemma_vector_move_is_a_form(pos, from, piece, vectors.drop_last(), mv)
    } else {
        (vectors.len() - 1, lemma_ray_move_is_a_form(pos, from, piece, v, 1, mv))
    }
}

/// The moves of a piece are those that lead where it gets, each named by its squares, the piece and
/// what it takes: promoting where that is allowed, and plain unless the piece would be stuck.
pub proof fn law_moves_of_a_piece(
    pos: Position,
    piece: Piece,
    from: (int, int),
    rules: RulesView,
    mv: GenMove,
)
    requires
        0 <= from.0 <= 8,
        0 <= from.1 <= 8,
    ensures
        shogi::piece_moves(pos, from, piece, rules).contains(mv) <==> is_move_of(
            pos,
            piece,
            from,
            rules,
            mv,
        ),
{
    let side = piece.side;
    let vectors = shogi::piece_vectors(piece, rules);
    let to = (mv.to.0 as int, mv.to.1 as int);
    if shogi::piece_moves(pos, from, piece, rules).contains(mv) {
        let (d, n) = lemma_vector_move_is_a_form(pos, from, piece, vectors, mv);
        assert(shogi_laws::open_to(pos, from, side, vectors[d], n));
        lemma_forms(pos, from, piece, vectors[d], n, mv);
        assert(leads(pos, from, to, side, vectors[d]));
        lemma_vectors_lead(pos, piece, from, to, rules);
    }
    if is_move_of(pos, piece, from, rules, mv) {
        lemma_vectors_lead(pos, piece, from, to, rules);
        let d = choose|d: int|
            0 <= d < vectors.len() && leads(pos, from, to, side, #[trigger] vectors[d]);
        let n = choose|n: int| #[trigger]
            shogi_laws::gets_to(pos, from, side, vectors[d], n) && shogi_laws::along(
                from,
                vectors[d],
                n,
            ) == to;
        lemma_forms(pos, from, piece, vectors[d], n, mv);
        shogi_laws::lemma_vectors_hold_forms(pos, from, piece, vectors, d, n, mv);
    }
}

} // verus!
