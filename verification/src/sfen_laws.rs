//! What holds of reading SFEN notation: in whatever order the pieces in hand are listed they are
//! the same, and reading the notation of a position gives the position back.

use crate::sfen;
use crate::shogi;
use crate::text;
use crate::types;
use crate::types::{Piece, PieceKind, Position, Side};
use vstd::prelude::*;

verus! {

// ---------------------------------------------------------------------------
// Pieces in hand
// ---------------------------------------------------------------------------

/// A letter of the hands, after a number if there is one.
pub struct HandGroup {
    pub count: Option<u8>,
    pub letter: char,
}

impl HandGroup {
    /// A letter of a kind that can be in hand.
    pub open spec fn valid(self) -> bool {
        types::kind_of_letter(self.letter) matches Some(kind) && types::hand_slot(kind) is Some
    }

    /// Where the group is counted in a hand.
    pub open spec fn slot(self) -> int {
        types::hand_slot(types::kind_of_letter(self.letter).unwrap()).unwrap() as int
    }

    /// Whether the group speaks of this slot of this hand.
    pub open spec fn speaks_of(self, side: Side, k: int) -> bool {
        sfen::letter_side(self.letter) == side && self.slot() == k
    }

    /// How many pieces the group stands for: one at least.
    pub open spec fn number(self) -> nat {
        match self.count {
            Some(n) => if n > 1 {
                n as nat
            } else {
                1
            },
            None => 1,
        }
    }

    pub open spec fn text(self) -> Seq<char> {
        match self.count {
            Some(n) => text::decimal(n as nat).push(self.letter),
            None => seq![self.letter],
        }
    }
}

pub open spec fn all_valid(groups: Seq<HandGroup>) -> bool {
    forall|i: int| 0 <= i < groups.len() ==> (#[trigger] groups[i]).valid()
}

/// Groups, one after the other.
pub open spec fn groups_text(groups: Seq<HandGroup>) -> Seq<char>
    decreases groups.len(),
{
    if groups.len() == 0 {
        Seq::empty()
    } else {
        groups_text(groups.drop_last()) + groups.last().text()
    }
}

/// How many pieces of a slot the groups stand for.
pub open spec fn total(groups: Seq<HandGroup>, side: Side, k: int) -> nat
    decreases groups.len(),
{
    if groups.len() == 0 {
        0
    } else {
        let earlier = total(groups.drop_last(), side, k);
        if groups.last().speaks_of(side, k) {
            earlier + groups.last().number()
        } else {
            earlier
        }
    }
}

/// A number as far as a counter goes.
pub open spec fn capped(n: nat) -> u8 {
    if n < 255 {
        n as u8
    } else {
        255
    }
}

/// The hands that groups stand for: of each slot the sum, as far as the counter goes.
pub open spec fn counted(groups: Seq<HandGroup>) -> Seq<Seq<u8>> {
    seq![
        Seq::new(7, |k: int| capped(total(groups, Side::Black, k))),
        Seq::new(7, |k: int| capped(total(groups, Side::White, k))),
    ]
}

proof fn lemma_digit(d: int)
    requires
        0 <= d < 10,
    ensures
        text::digit(d).len() == 1,
        text::digit_value(text::digit(d)[0]) == Some(d as nat),
{
    reveal_strlit("0");
    reveal_strlit("1");
    reveal_strlit("2");
    reveal_strlit("3");
    reveal_strlit("4");
    reveal_strlit("5");
    reveal_strlit("6");
    reveal_strlit("7");
    reveal_strlit("8");
    reveal_strlit("9");
}

/// A number is read digit by digit.
pub(crate) proof fn lemma_number_is_read(before: Seq<char>, n: nat, after: Seq<char>, hands: Seq<Seq<u8>>)
    requires
        n < 0x1_0000_0000,
    ensures
        sfen::hand_counts(before + text::decimal(n) + after, before.len() as int, 0, hands)
            == sfen::hand_counts(
            before + text::decimal(n) + after,
            (before + text::decimal(n)).len() as int,
            n,
            hands,
        ),
    decreases n,
{
    let s = before + text::decimal(n) + after;
    if n < 10 {
        lemma_digit(n as int);
        assert(s[before.len() as int] == text::digit(n as int)[0]);
    } else {
        let d = text::digit((n % 10) as int);
        let head = text::decimal(n / 10);
        lemma_digit((n % 10) as int);
        assert(s =~= before + head + (d + after));
        lemma_number_is_read(before, n / 10, d + after, hands);
        let k = (before + head).len() as int;
        assert(s[k] == d[0]);
        assert((n / 10) * 10 + n % 10 == n);
    }
}

/// A group is read as its number of its pieces.
proof fn lemma_group_is_read(
    before: Seq<char>,
    group: HandGroup,
    after: Seq<char>,
    hands: Seq<Seq<u8>>,
)
    requires
        group.valid(),
    ensures
        sfen::hand_counts(before + group.text() + after, before.len() as int, 0, hands)
            == sfen::hand_counts(
            before + group.text() + after,
            (before + group.text()).len() as int,
            0,
            sfen::hand_with(
                hands,
                sfen::letter_side(group.letter),
                group.slot(),
                group.number(),
            ),
        ),
{
    let s = before + group.text() + after;
    match group.count {
        Some(n) => {
            let rest = seq![group.letter] + after;
            assert(s =~= before + text::decimal(n as nat) + rest);
            lemma_number_is_read(before, n as nat, rest, hands);
            let k = (before + text::decimal(n as nat)).len() as int;
            assert(s[k] == group.letter);
        },
        None => {
            assert(s[before.len() as int] == group.letter);
        },
    }
}

proof fn lemma_counted_grows(groups: Seq<HandGroup>, i: int)
    requires
        all_valid(groups),
        0 <= i < groups.len(),
    ensures
        counted(groups.take(i + 1)) == sfen::hand_with(
            counted(groups.take(i)),
            sfen::letter_side(groups[i].letter),
            groups[i].slot(),
            groups[i].number(),
        ),
{
    let group = groups[i];
    let next = groups.take(i + 1);
    assert(group.valid());
    assert(next.drop_last() =~= groups.take(i));
    assert(next.last() == group);
    let after = sfen::hand_with(
        counted(groups.take(i)),
        sfen::letter_side(group.letter),
        group.slot(),
        group.number(),
    );
    assert(counted(next)[0] =~= after[0]);
    assert(counted(next)[1] =~= after[1]);
    assert(counted(next) =~= after);
}

proof fn lemma_groups_are_read(groups: Seq<HandGroup>, i: int, after: Seq<char>)
    requires
        all_valid(groups),
        0 <= i <= groups.len(),
    ensures
        sfen::hand_counts(groups_text(groups.take(i)) + after, 0, 0, sfen::no_hands())
            == sfen::hand_counts(
            groups_text(groups.take(i)) + after,
            groups_text(groups.take(i)).len() as int,
            0,
            counted(groups.take(i)),
        ),
    decreases i,
{
    if i == 0 {
        assert(counted(groups.take(0))[0] =~= sfen::no_hands()[0]);
        assert(counted(groups.take(0))[1] =~= sfen::no_hands()[1]);
        assert(counted(groups.take(0)) =~= sfen::no_hands());
    } else {
        let group = groups[i - 1];
        let before = groups_text(groups.take(i - 1));
        assert(groups.take(i).drop_last() =~= groups.take(i - 1));
        assert(groups_text(groups.take(i)) == before + group.text());
        lemma_groups_are_read(groups, i - 1, group.text() + after);
        assert(before + (group.text() + after) =~= before + group.text() + after);
        lemma_group_is_read(before, group, after, counted(groups.take(i - 1)));
        lemma_counted_grows(groups, i - 1);
    }
}

/// Of groups of pieces in hand only the sum for each slot counts, as far as the counter goes.
pub proof fn law_only_the_sums_of_hand_groups_count(groups: Seq<HandGroup>)
    requires
        all_valid(groups),
    ensures
        sfen::sfen_hands(groups_text(groups)) == Ok::<Seq<Seq<u8>>, Seq<char>>(counted(groups)),
{
    let s = groups_text(groups);
    lemma_groups_are_read(groups, groups.len() as int, Seq::empty());
    assert(groups.take(groups.len() as int) =~= groups);
    assert(s + Seq::<char>::empty() =~= s);
    reveal_strlit("-");
    if groups.len() > 0 {
        assert(groups.last().valid());
        assert(s.last() == groups.last().letter);
    }
    assert(s != "-"@);
}

proof fn lemma_total_without(groups: Seq<HandGroup>, j: int, side: Side, k: int)
    requires
        0 <= j < groups.len(),
    ensures
        total(groups, side, k) == total(groups.remove(j), side, k) + (if groups[j].speaks_of(
            side,
            k,
        ) {
            groups[j].number()
        } else {
            0
        }),
    decreases groups.len(),
{
    if j == groups.len() - 1 {
        assert(groups.remove(j) =~= groups.drop_last());
    } else {
        lemma_total_without(groups.drop_last(), j, side, k);
        assert(groups.remove(j).drop_last() =~= groups.drop_last().remove(j));
        assert(groups.remove(j).last() == groups.last());
    }
}

proof fn lemma_total_in_any_order(a: Seq<HandGroup>, b: Seq<HandGroup>, side: Side, k: int)
    requires
        a.to_multiset() == b.to_multiset(),
    ensures
        total(a, side, k) == total(b, side, k),
    decreases a.len(),
{
    a.to_multiset_ensures();
    b.to_multiset_ensures();
    if a.len() > 0 {
        let i = a.len() - 1;
        assert(a.contains(a[i]));
        assert(b.to_multiset().count(a[i]) > 0);
        let j = choose|j: int| 0 <= j < b.len() && b[j] == a[i];
        assert(a.remove(i).to_multiset() =~= b.remove(j).to_multiset());
        lemma_total_in_any_order(a.remove(i), b.remove(j), side, k);
        lemma_total_without(a, i, side, k);
        lemma_total_without(b, j, side, k);
    }
}

/// The same groups of pieces in hand are read alike in whatever order they stand.
pub proof fn law_order_of_hand_groups_does_not_count(a: Seq<HandGroup>, b: Seq<HandGroup>)
    requires
        all_valid(a),
        all_valid(b),
        a.to_multiset() == b.to_multiset(),
    ensures
        sfen::sfen_hands(groups_text(a)) == sfen::sfen_hands(groups_text(b)),
        sfen::sfen_hands(groups_text(a)) == Ok::<Seq<Seq<u8>>, Seq<char>>(counted(a)),
{
    law_only_the_sums_of_hand_groups_count(a);
    law_only_the_sums_of_hand_groups_count(b);
    assert forall|k: int| 0 <= k < 7 implies capped(#[trigger] total(a, Side::Black, k)) == capped(
        total(b, Side::Black, k),
    ) by {
        lemma_total_in_any_order(a, b, Side::Black, k);
    }
    assert forall|k: int| 0 <= k < 7 implies capped(#[trigger] total(a, Side::White, k)) == capped(
        total(b, Side::White, k),
    ) by {
        lemma_total_in_any_order(a, b, Side::White, k);
    }
    assert(counted(a)[0] =~= counted(b)[0]);
    assert(counted(a)[1] =~= counted(b)[1]);
    assert(counted(a) =~= counted(b));
}

// ---------------------------------------------------------------------------
// The notation of a position
// ---------------------------------------------------------------------------

/// The letter of a piece: a capital for black.
pub open spec fn piece_letter(side: Side, kind: PieceKind) -> char {
    match (side, kind) {
        (Side::Black, PieceKind::Pawn) => 'P',
        (Side::Black, PieceKind::Lance) => 'L',
        (Side::Black, PieceKind::Knight) => 'N',
        (Side::Black, PieceKind::Silver) => 'S',
        (Side::Black, PieceKind::Gold) => 'G',
        (Side::Black, PieceKind::Bishop) => 'B',
        (Side::Black, PieceKind::Rook) => 'R',
        (Side::Black, PieceKind::King) => 'K',
        (Side::White, PieceKind::Pawn) => 'p',
        (Side::White, PieceKind::Lance) => 'l',
        (Side::White, PieceKind::Knight) => 'n',
        (Side::White, PieceKind::Silver) => 's',
        (Side::White, PieceKind::Gold) => 'g',
        (Side::White, PieceKind::Bishop) => 'b',
        (Side::White, PieceKind::Rook) => 'r',
        (Side::White, PieceKind::King) => 'k',
    }
}

/// A piece on the board, with a `+` before its letter if it is promoted.
pub open spec fn piece_text(piece: Piece) -> Seq<char> {
    if piece.promoted {
        seq!['+', piece_letter(piece.side, piece.kind)]
    } else {
        seq![piece_letter(piece.side, piece.kind)]
    }
}

/// A run of empty squares.
pub open spec fn gap_text(gap: int) -> Seq<char> {
    if gap == 0 {
        Seq::empty()
    } else {
        text::digit(gap)
    }
}

/// The squares of a rank from place `i` on, after a run of `gap` empty squares.
pub open spec fn rank_text(squares: Seq<Option<Piece>>, i: int, gap: int) -> Seq<char>
    decreases squares.len() - i,
{
    if i >= squares.len() {
        gap_text(gap)
    } else {
        match squares[i] {
            Some(piece) => gap_text(gap) + piece_text(piece) + rank_text(squares, i + 1, 0),
            None => rank_text(squares, i + 1, gap + 1),
        }
    }
}

/// Parts with a separator between them.
pub open spec fn joined(parts: Seq<Seq<char>>, sep: char) -> Seq<char>
    decreases parts.len(),
{
    if parts.len() == 0 {
        Seq::empty()
    } else if parts.len() == 1 {
        parts[0]
    } else {
        parts[0] + seq![sep] + joined(parts.drop_first(), sep)
    }
}

/// The ranks of a board.
pub open spec fn board_ranks(board: Seq<Option<Piece>>) -> Seq<Seq<char>> {
    Seq::new(9, |r: int| rank_text(board.subrange(r * 9, r * 9 + 9), 0, 0))
}

/// The kinds in hand, black's first, of the first `n` slots, each with its number if there are
/// several.
pub open spec fn hand_groups(hands: Seq<Seq<u8>>, n: nat) -> Seq<HandGroup>
    decreases n,
{
    if n == 0 {
        Seq::empty()
    } else {
        let earlier = hand_groups(hands, (n - 1) as nat);
        let count = hands[(n - 1) / 7][(n - 1) % 7];
        let letter = piece_letter(
            if n <= 7 {
                Side::Black
            } else {
                Side::White
            },
            shogi::hand_kinds()[(n - 1) % 7],
        );
        if count == 0 {
            earlier
        } else if count == 1 {
            earlier.push(HandGroup { count: None, letter })
        } else {
            earlier.push(HandGroup { count: Some(count), letter })
        }
    }
}

pub open spec fn hands_text(hands: Seq<Seq<u8>>) -> Seq<char> {
    if hand_groups(hands, 14).len() == 0 {
        "-"@
    } else {
        groups_text(hand_groups(hands, 14))
    }
}

pub open spec fn side_text(side: Side) -> Seq<char> {
    match side {
        Side::Black => "b"@,
        Side::White => "w"@,
    }
}

/// A position in SFEN notation: the board, the player to move, the pieces in hand and the number
/// of the move.
pub open spec fn sfen_text(pos: Position, move_number: nat) -> Seq<char> {
    joined(
        seq![
            joined(board_ranks(pos.board), '/'),
            side_text(pos.side_to_move),
            hands_text(pos.hands),
            text::decimal(move_number),
        ],
        ' ',
    )
}

/// Neither white space nor the separator of ranks.
spec fn plain(s: Seq<char>) -> bool {
    forall|i: int| 0 <= i < s.len() ==> !text::blank(#[trigger] s[i]) && s[i] != '/'
}

proof fn lemma_letter(side: Side, kind: PieceKind)
    ensures
        types::kind_of_letter(piece_letter(side, kind)) == Some(kind),
        sfen::letter_side(piece_letter(side, kind)) == side,
        text::digit_value(piece_letter(side, kind)) is None,
        piece_letter(side, kind) != '+',
        !text::blank(piece_letter(side, kind)),
        piece_letter(side, kind) != '/',
{
}

proof fn lemma_rank_is_plain(squares: Seq<Option<Piece>>, i: int, gap: int)
    requires
        0 <= i <= squares.len() <= 9,
        0 <= gap <= i,
    ensures
        plain(rank_text(squares, i, gap)),
        gap + squares.len() > i ==> rank_text(squares, i, gap).len() > 0,
    decreases squares.len() - i,
{
    if gap > 0 {
        lemma_digit(gap);
    }
    if i < squares.len() {
        match squares[i] {
            Some(piece) => {
                lemma_letter(piece.side, piece.kind);
                lemma_rank_is_plain(squares, i + 1, 0);
            },
            None => {
                lemma_rank_is_plain(squares, i + 1, gap + 1);
            },
        }
    }
}

/// A rank is read back, from place `i` on.
proof fn lemma_rank_is_read(squares: Seq<Option<Piece>>, i: int, gap: int, before: Seq<char>)
    requires
        squares.len() == 9,
        0 <= gap <= i <= 9,
        forall|j: int| i - gap <= j < i ==> #[trigger] squares[j] is None,
    ensures
        sfen::rank_squares(
            before + rank_text(squares, i, gap),
            before.len() as int,
            squares.take(i - gap),
        ) == Ok::<Seq<Option<Piece>>, Seq<char>>(squares),
    decreases 9 - i,
{
    let rank = before + rank_text(squares, i, gap);
    let k = before.len() as int;
    if gap > 0 {
        lemma_digit(gap);
        assert(squares.take(i - gap) + sfen::empty_squares(gap as nat) =~= squares.take(i));
    }
    if i == 9 {
        assert(squares.take(9) =~= squares);
        if gap > 0 {
            assert(rank[k] == text::digit(gap)[0]);
            assert(sfen::rank_squares(rank, k + 1, squares) == Ok::<
                Seq<Option<Piece>>,
                Seq<char>,
            >(squares));
        }
    } else {
        match squares[i] {
            Some(piece) => {
                let mid = before + gap_text(gap);
                let rest = rank_text(squares, i + 1, 0);
                let next = mid + piece_text(piece);
                assert(rank =~= next + rest);
                lemma_rank_is_read(squares, i + 1, 0, next);
                assert(squares.take(i).push(Some(piece)) =~= squares.take(i + 1));
                lemma_letter(piece.side, piece.kind);
                let m = mid.len() as int;
                assert(rank[m] == piece_text(piece)[0]);
                if piece.promoted {
                    assert(rank[m + 1] == piece_text(piece)[1]);
                }
                assert(sfen::rank_squares(rank, m, squares.take(i)) == sfen::rank_squares(
                    rank,
                    next.len() as int,
                    squares.take(i + 1),
                ));
                if gap > 0 {
                    assert(rank[k] == text::digit(gap)[0]);
                }
            },
            None => {
                lemma_rank_is_read(squares, i + 1, gap + 1, before);
                assert(squares.take((i + 1) - (gap + 1)) =~= squares.take(i - gap));
            },
        }
    }
}

proof fn lemma_field_end(s: Seq<char>, sep: char, from: int, end: int)
    requires
        0 <= from <= end <= s.len(),
        forall|i: int| from <= i < end ==> #[trigger] s[i] != sep,
        end == s.len() || s[end] == sep,
    ensures
        text::field_end(s, sep, from) == end,
    decreases end - from,
{
    if from < end {
        lemma_field_end(s, sep, from + 1, end);
    }
}

/// Joined parts are divided again.
proof fn lemma_fields_of_joined(before: Seq<char>, parts: Seq<Seq<char>>, sep: char)
    requires
        parts.len() > 0,
        forall|i: int, j: int|
            0 <= i < parts.len() && 0 <= j < parts[i].len() ==> #[trigger] parts[i][j] != sep,
    ensures
        text::fields(before + joined(parts, sep), sep, before.len() as int) == parts,
    decreases parts.len(),
{
    let s = before + joined(parts, sep);
    let from = before.len() as int;
    let end = from + parts[0].len();
    if parts.len() == 1 {
        assert forall|i: int| from <= i < end implies #[trigger] s[i] != sep by {
            assert(s[i] == parts[0][i - from]);
        }
        lemma_field_end(s, sep, from, end);
        assert(s.subrange(from, s.len() as int) =~= parts[0]);
        assert(text::fields(s, sep, from) =~= parts);
    } else {
        let rest = parts.drop_first();
        let next = before + parts[0] + seq![sep];
        assert(s =~= next + joined(rest, sep));
        assert forall|i: int| from <= i < end implies #[trigger] s[i] != sep by {
            assert(s[i] == parts[0][i - from]);
        }
        assert(s[end] == sep);
        lemma_field_end(s, sep, from, end);
        assert forall|i: int, j: int|
            0 <= i < rest.len() && 0 <= j < rest[i].len() implies #[trigger] rest[i][j] != sep by {
            assert(parts[i + 1][j] != sep);
        }
        lemma_fields_of_joined(next, rest, sep);
        assert(s.subrange(from, end) =~= parts[0]);
        assert(seq![parts[0]] + rest =~= parts);
    }
}

proof fn lemma_word_end(s: Seq<char>, from: int, end: int)
    requires
        0 <= from <= end <= s.len(),
        forall|i: int| from <= i < end ==> !text::blank(#[trigger] s[i]),
        end == s.len() || text::blank(s[end]),
    ensures
        text::word_end(s, from) == end,
    decreases end - from,
{
    if from < end {
        lemma_word_end(s, from + 1, end);
    }
}

/// Joined words are divided again.
proof fn lemma_words_of_joined(before: Seq<char>, parts: Seq<Seq<char>>)
    requires
        parts.len() > 0,
        forall|i: int| 0 <= i < parts.len() ==> (#[trigger] parts[i]).len() > 0,
        forall|i: int, j: int|
            0 <= i < parts.len() && 0 <= j < parts[i].len() ==> !text::blank(
                #[trigger] parts[i][j],
            ),
    ensures
        text::words(before + joined(parts, ' '), before.len() as int) == parts,
    decreases parts.len(),
{
    let s = before + joined(parts, ' ');
    let from = before.len() as int;
    let end = from + parts[0].len();
    assert(parts[0].len() > 0);
    assert(s[from] == parts[0][0]);
    assert(text::word_start(s, from) == from);
    assert forall|i: int| from <= i < end implies !text::blank(#[trigger] s[i]) by {
        assert(s[i] == parts[0][i - from]);
    }
    if parts.len() == 1 {
        lemma_word_end(s, from, end);
        assert(s.subrange(from, end) =~= parts[0]);
        assert(text::words(s, end) =~= Seq::<Seq<char>>::empty());
        assert(text::words(s, from) =~= parts);
    } else {
        let rest = parts.drop_first();
        let next = before + parts[0] + seq![' '];
        assert(s =~= next + joined(rest, ' '));
        assert(s[end] == ' ');
        lemma_word_end(s, from, end);
        assert forall|i: int| 0 <= i < rest.len() implies (#[trigger] rest[i]).len() > 0 by {
            assert(parts[i + 1].len() > 0);
        }
        assert forall|i: int, j: int|
            0 <= i < rest.len() && 0 <= j < rest[i].len() implies !text::blank(
            #[trigger] rest[i][j],
        ) by {
            assert(!text::blank(parts[i + 1][j]));
        }
        lemma_words_of_joined(next, rest);
        assert(text::word_start(s, end) == text::word_start(s, end + 1));
        assert(text::words(s, end) == text::words(s, end + 1));
        assert(s.subrange(from, end) =~= parts[0]);
        assert(seq![parts[0]] + rest =~= parts);
    }
}

proof fn lemma_board_is_read(board: Seq<Option<Piece>>, r: int)
    requires
        board.len() == 81,
        0 <= r <= 9,
    ensures
        sfen::board_squares(board_ranks(board), r, board.take(r * 9)) == Ok::<
            Seq<Option<Piece>>,
            Seq<char>,
        >(board),
    decreases 9 - r,
{
    if r == 9 {
        assert(board.take(81) + sfen::empty_squares(0) =~= board);
    } else {
        let squares = board.subrange(r * 9, r * 9 + 9);
        let rank = rank_text(squares, 0, 0);
        lemma_rank_is_read(squares, 0, 0, Seq::empty());
        assert(Seq::<char>::empty() + rank =~= rank);
        assert(squares.take(0) =~= Seq::<Option<Piece>>::empty());
        assert(board.take(r * 9) + squares =~= board.take((r + 1) * 9));
        lemma_board_is_read(board, r + 1);
    }
}

proof fn lemma_hand_groups(hands: Seq<Seq<u8>>, n: nat, side: Side, k: int)
    requires
        n <= 14,
        0 <= k < 7,
    ensures
        all_valid(hand_groups(hands, n)),
        total(hand_groups(hands, n), side, k) == (if types::hand_of(side) * 7 + k < n {
            hands[types::hand_of(side)][k] as nat
        } else {
            0
        }),
    decreases n,
{
    if n > 0 {
        lemma_hand_groups(hands, (n - 1) as nat, side, k);
        let earlier = hand_groups(hands, (n - 1) as nat);
        let groups = hand_groups(hands, n);
        let slot = (n - 1) % 7;
        let owner = if n <= 7 {
            Side::Black
        } else {
            Side::White
        };
        let kind = shogi::hand_kinds()[slot];
        lemma_letter(owner, kind);
        assert(types::hand_slot(kind) == Some(slot as usize));
        let count = hands[(n - 1) / 7][slot];
        assert((n - 1) / 7 == types::hand_of(owner));
        if count > 0 {
            let group = groups.last();
            assert(group.valid() && group.slot() == slot);
            assert(sfen::letter_side(group.letter) == owner);
            assert(group.number() == count);
            assert(groups.drop_last() =~= earlier);
        }
    }
}

proof fn lemma_hands_are_read(hands: Seq<Seq<u8>>)
    requires
        hands.len() == 2,
        hands[0].len() == 7,
        hands[1].len() == 7,
    ensures
        sfen::sfen_hands(hands_text(hands)) == Ok::<Seq<Seq<u8>>, Seq<char>>(hands),
{
    let groups = hand_groups(hands, 14);
    lemma_hand_groups(hands, 14, Side::Black, 0);
    assert forall|k: int| 0 <= k < 7 implies capped(#[trigger] total(groups, Side::Black, k))
        == hands[0][k] by {
        lemma_hand_groups(hands, 14, Side::Black, k);
    }
    assert forall|k: int| 0 <= k < 7 implies capped(#[trigger] total(groups, Side::White, k))
        == hands[1][k] by {
        lemma_hand_groups(hands, 14, Side::White, k);
    }
    assert(counted(groups)[0] =~= hands[0]);
    assert(counted(groups)[1] =~= hands[1]);
    assert(counted(groups) =~= hands);
    if groups.len() == 0 {
        assert(counted(groups)[0] =~= sfen::no_hands()[0]);
        assert(counted(groups)[1] =~= sfen::no_hands()[1]);
        assert(counted(groups) =~= sfen::no_hands());
    } else {
        law_only_the_sums_of_hand_groups_count(groups);
    }
}

proof fn lemma_decimal_is_plain(n: nat)
    ensures
        plain(text::decimal(n)),
        text::decimal(n).len() > 0,
    decreases n,
{
    lemma_digit((n % 10) as int);
    if n >= 10 {
        lemma_decimal_is_plain(n / 10);
    } else {
        lemma_digit(n as int);
    }
}

proof fn lemma_groups_are_plain(groups: Seq<HandGroup>)
    requires
        all_valid(groups),
    ensures
        plain(groups_text(groups)),
        groups.len() > 0 ==> groups_text(groups).len() > 0,
    decreases groups.len(),
{
    if groups.len() > 0 {
        lemma_groups_are_plain(groups.drop_last());
        assert(groups.last().valid());
        if let Some(n) = groups.last().count {
            lemma_decimal_is_plain(n as nat);
        }
    }
}

proof fn lemma_joined_has_no_blank(parts: Seq<Seq<char>>)
    requires
        parts.len() > 0,
        forall|i: int| 0 <= i < parts.len() ==> plain(#[trigger] parts[i]) && parts[i].len() > 0,
    ensures
        joined(parts, '/').len() > 0,
        forall|i: int|
            0 <= i < joined(parts, '/').len() ==> !text::blank(#[trigger] joined(parts, '/')[i]),
    decreases parts.len(),
{
    assert(plain(parts[0]));
    if parts.len() > 1 {
        let rest = parts.drop_first();
        assert forall|i: int| 0 <= i < rest.len() implies plain(#[trigger] rest[i])
            && rest[i].len() > 0 by {
            assert(plain(parts[i + 1]));
        }
        lemma_joined_has_no_blank(rest);
    }
}

/// Reading the notation of a position gives the position back, whatever the number of the move.
pub proof fn law_reading_undoes_writing(pos: Position, move_number: nat)
    requires
        pos.wf(),
    ensures
        sfen::sfen_position(sfen_text(pos, move_number)) == Ok::<Position, Seq<char>>(pos),
{
    let ranks = board_ranks(pos.board);
    let board = joined(ranks, '/');
    let side = side_text(pos.side_to_move);
    let hands = hands_text(pos.hands);
    let number = text::decimal(move_number);
    let parts = seq![board, side, hands, number];
    reveal_strlit("-");
    reveal_strlit("b");
    reveal_strlit("w");
    assert forall|i: int| 0 <= i < ranks.len() implies plain(#[trigger] ranks[i]) && ranks[i].len()
        > 0 by {
        lemma_rank_is_plain(pos.board.subrange(i * 9, i * 9 + 9), 0, 0);
    }
    lemma_joined_has_no_blank(ranks);
    lemma_hand_groups(pos.hands, 14, Side::Black, 0);
    lemma_groups_are_plain(hand_groups(pos.hands, 14));
    lemma_decimal_is_plain(move_number);
    assert(plain(side) && side.len() > 0);
    assert(plain(hands) && hands.len() > 0);
    assert forall|i: int, j: int|
        0 <= i < parts.len() && 0 <= j < parts[i].len() implies !text::blank(
        #[trigger] parts[i][j],
    ) by {
        if i == 0 {
            assert(!text::blank(board[j]));
        } else if i == 1 {
            assert(!text::blank(side[j]));
        } else if i == 2 {
            assert(!text::blank(hands[j]));
        } else {
            assert(!text::blank(number[j]));
        }
    }
    lemma_words_of_joined(Seq::empty(), parts);
    assert(Seq::<char>::empty() + joined(parts, ' ') =~= sfen_text(pos, move_number));
    lemma_fields_of_joined(Seq::empty(), ranks, '/');
    assert(Seq::<char>::empty() + board =~= board);
    lemma_board_is_read(pos.board, 0);
    assert(pos.board.take(0) =~= Seq::<Option<Piece>>::empty());
    lemma_hands_are_read(pos.hands);
    assert("b"@[0] == 'b' && "w"@[0] == 'w');
    assert((side == "b"@) == (pos.side_to_move == Side::Black));
}

} // verus!
