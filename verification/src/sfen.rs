//! Positions in SFEN notation: board, player to move and pieces in hand.

use crate::text;
use crate::text::{characters, digit_of, split_fields, split_words};
use crate::types;
use crate::types::{
    hand_index, piece_kind_from_char, side_index, Piece, Position, SearchState, Side,
};
use vstd::prelude::*;

verus! {

/// A capital letter is a piece of black's.
pub open spec fn letter_side(c: char) -> Side {
    if 'A' <= c <= 'Z' {
        Side::Black
    } else {
        Side::White
    }
}

/// `n` empty squares.
pub open spec fn empty_squares(n: nat) -> Seq<Option<Piece>> {
    Seq::new(n, |i: int| None)
}

/// The squares of a rank, read from place `k` on, behind the squares read before. A digit stands
/// for that many empty squares, a letter for a piece, a `+` before it for its promoted side.
pub open spec fn rank_squares(
    rank: Seq<char>,
    k: int,
    squares: Seq<Option<Piece>>,
) -> Result<Seq<Option<Piece>>, Seq<char>>
    decreases rank.len() - k,
{
    if k >= rank.len() {
        if squares.len() == 9 {
            Ok(squares)
        } else {
            Err("rank width mismatch"@)
        }
    } else {
        match text::digit_value(rank[k]) {
            Some(d) => rank_squares(rank, k + 1, squares + empty_squares(d)),
            None => {
                let promoted = rank[k] == '+';
                let at = if promoted {
                    k + 1
                } else {
                    k
                };
                if at >= rank.len() {
                    Err("invalid promoted piece"@)
                } else if squares.len() >= 9 {
                    Err("column overflow"@)
                } else {
                    match types::kind_of_letter(rank[at]) {
                        Some(kind) => rank_squares(
                            rank,
                            at + 1,
                            squares.push(
                                Some(Piece { side: letter_side(rank[at]), kind, promoted }),
                            ),
                        ),
                        None => Err("invalid piece"@),
                    }
                }
            },
        }
    }
}

/// The board that the ranks from `r` on complete. Ranks that are not given are empty.
pub open spec fn board_squares(
    ranks: Seq<Seq<char>>,
    r: int,
    squares: Seq<Option<Piece>>,
) -> Result<Seq<Option<Piece>>, Seq<char>>
    decreases ranks.len() - r,
{
    if r >= ranks.len() {
        Ok(squares + empty_squares((81 - squares.len()) as nat))
    } else if r >= 9 {
        Err("too many ranks"@)
    } else {
        match rank_squares(ranks[r], 0, Seq::empty()) {
            Ok(rank) => board_squares(ranks, r + 1, squares + rank),
            Err(message) => Err(message),
        }
    }
}

/// Empty hands.
pub open spec fn no_hands() -> Seq<Seq<u8>> {
    seq![seq![0u8, 0, 0, 0, 0, 0, 0], seq![0u8, 0, 0, 0, 0, 0, 0]]
}

/// `n` more pieces of slot `k` in the hand of `side`, as far as the counter goes. Of `n` only the
/// low eight bits count.
pub open spec fn hand_with(hands: Seq<Seq<u8>>, side: Side, k: int, n: nat) -> Seq<Seq<u8>> {
    let h = types::hand_of(side);
    let sum = hands[h][k] + n % 256;
    hands.update(h, hands[h].update(k, if sum < 255 { sum as u8 } else { 255 }))
}

/// The hands, read from place `k` on: a letter for each kind, after a number if there are
/// several. The number wraps at 32 bits.
pub open spec fn hand_counts(
    s: Seq<char>,
    k: int,
    number: nat,
    hands: Seq<Seq<u8>>,
) -> Result<Seq<Seq<u8>>, Seq<char>>
    decreases s.len() - k,
{
    if k >= s.len() {
        Ok(hands)
    } else {
        match text::digit_value(s[k]) {
            Some(d) => hand_counts(s, k + 1, (number * 10 + d) % 0x1_0000_0000, hands),
            None => match types::kind_of_letter(s[k]) {
                Some(kind) => match types::hand_slot(kind) {
                    Some(slot) => hand_counts(
                        s,
                        k + 1,
                        0,
                        hand_with(
                            hands,
                            letter_side(s[k]),
                            slot as int,
                            if number == 0 {
                                1
                            } else {
                                number
                            },
                        ),
                    ),
                    None => Err("king cannot be in hand"@),
                },
                None => Err("invalid hand piece"@),
            },
        }
    }
}

/// The pieces in hand that a text gives; `-` stands for none.
pub open spec fn sfen_hands(s: Seq<char>) -> Result<Seq<Seq<u8>>, Seq<char>> {
    if s == "-"@ {
        Ok(no_hands())
    } else {
        hand_counts(s, 0, 0, no_hands())
    }
}

/// The position that a text gives, or what is wrong with the text.
pub open spec fn sfen_position(s: Seq<char>) -> Result<Position, Seq<char>> {
    let words = text::words(s, 0);
    if words.len() == 0 {
        Err("missing board"@)
    } else if words.len() == 1 {
        Err("missing side"@)
    } else {
        match board_squares(text::fields(words[0], '/', 0), 0, Seq::empty()) {
            Err(message) => Err(message),
            Ok(board) => match sfen_hands(
                if words.len() > 2 {
                    words[2]
                } else {
                    "-"@
                },
            ) {
                Err(message) => Err(message),
                Ok(hands) => Ok(
                    Position {
                        board,
                        side_to_move: if words[1] == "b"@ {
                            Side::Black
                        } else {
                            Side::White
                        },
                        hands,
                    },
                ),
            },
        }
    }
}

fn side_of_letter(c: char) -> (side: Side)
    ensures
        side == letter_side(c),
{
    if 'A' <= c && c <= 'Z' {
        Side::Black
    } else {
        Side::White
    }
}

/// Whether a list of characters is exactly the one given.
fn is_single(chars: &Vec<char>, c: char) -> (result: bool)
    ensures
        result == (chars@ == seq![c]),
{
    let result = chars.len() == 1 && chars[0] == c;
    assert(result ==> chars@ =~= seq![c]);
    result
}

/// Reads one rank into its row of the board.
fn read_rank(rank: &Vec<char>, row: usize, board: &mut [Option<Piece>; 81]) -> (result: Result<
    (),
    String,
>)
    requires
        row < 9,
        forall|i: int| row * 9 <= i < 81 ==> #[trigger] old(board)@[i] is None,
    ensures
        match rank_squares(rank@, 0, Seq::empty()) {
            Ok(squares) => {
                &&& result is Ok
                &&& final(board)@.take(row * 9 + 9) == old(board)@.take(row * 9) + squares
                &&& forall|i: int| row * 9 + 9 <= i < 81 ==> #[trigger] final(board)@[i] is None
            },
            Err(message) => result matches Err(e) && e@ == message,
        },
{
    let ghost before = board@;
    let ghost mut squares: Seq<Option<Piece>> = Seq::empty();
    let mut col: usize = 0;
    let mut k: usize = 0;
    while k < rank.len()
        invariant
            row < 9,
            k <= rank@.len(),
            col <= 10,
            col == squares.len() || (col == 10 && squares.len() > 10),
            board@.len() == 81,
            before.len() == 81,
            forall|i: int| row * 9 <= i < 81 ==> #[trigger] before[i] is None,
            forall|i: int| 0 <= i < row * 9 ==> #[trigger] board@[i] == before[i],
            forall|i: int|
                0 <= i < 9 && i < squares.len() ==> board@[row * 9 + i] == #[trigger] squares[i],
            forall|i: int|
                row * 9 <= i < 81 && i >= row * 9 + squares.len() ==> #[trigger] board@[i] is None,
            forall|i: int| row * 9 + 9 <= i < 81 ==> #[trigger] board@[i] is None,
            rank_squares(rank@, 0, Seq::empty()) == rank_squares(rank@, k as int, squares),
        decreases rank@.len() - k,
    {
        let c = rank[k];
        match digit_of(c) {
            Some(d) => {
                proof {
                    squares = squares + empty_squares(d as nat);
                }
                col = if col + d as usize > 10 {
                    10
                } else {
                    col + d as usize
                };
                k = k + 1;
            },
            None => {
                let promoted = c == '+';
                if promoted {
                    k = k + 1;
                }
                if k >= rank.len() {
                    return Err("invalid promoted piece".to_string());
                }
                if col >= 9 {
                    return Err("column overflow".to_string());
                }
                match piece_kind_from_char(rank[k]) {
                    Some(kind) => {
                        let piece = Piece { side: side_of_letter(rank[k]), kind, promoted };
                        board[row * 9 + col] = Some(piece);
                        proof {
                            squares = squares.push(Some(piece));
                        }
                        col = col + 1;
                        k = k + 1;
                    },
                    None => {
                        return Err("invalid piece".to_string());
                    },
                }
            },
        }
    }
    if col != 9 {
        return Err("rank width mismatch".to_string());
    }
    assert(board@.take(row * 9 + 9) =~= before.take(row * 9) + squares) by {
        assert forall|i: int| 0 <= i < row * 9 + 9 implies board@[i] == (before.take(row * 9)
            + squares)[i] by {
            if i >= row * 9 {
                assert(board@[row * 9 + (i - row * 9)] == squares[i - row * 9]);
            }
        }
    }
    Ok(())
}

fn read_board(ranks: &Vec<Vec<char>>) -> (result: Result<[Option<Piece>; 81], String>)
    ensures
        match board_squares(text::parts(ranks@), 0, Seq::empty()) {
            Ok(squares) => result matches Ok(board) && board@ == squares,
            Err(message) => result matches Err(e) && e@ == message,
        },
{
    let mut board: [Option<Piece>; 81] = [None; 81];
    let ghost ranks_view = text::parts(ranks@);
    assert(board@.take(0) =~= Seq::empty());
    let mut row: usize = 0;
    while row < ranks.len()
        invariant
            row <= 9,
            row <= ranks@.len(),
            board@.len() == 81,
            ranks_view == text::parts(ranks@),
            forall|i: int| row * 9 <= i < 81 ==> #[trigger] board@[i] is None,
            board_squares(ranks_view, 0, Seq::empty()) == board_squares(
                ranks_view,
                row as int,
                board@.take(row * 9),
            ),
        decreases ranks@.len() - row,
    {
        if row >= 9 {
            return Err("too many ranks".to_string());
        }
        match read_rank(&ranks[row], row, &mut board) {
            Ok(_) => {},
            Err(e) => {
                return Err(e);
            },
        }
        row = row + 1;
    }
    assert(board@ =~= board@.take(row * 9) + empty_squares((81 - row * 9) as nat));
    Ok(board)
}

/// Reads the pieces in hand: a dash, or letters with a number before those that come several
/// times.
pub fn parse_sfen_hands(hands: &Vec<char>) -> (result: Result<[[u8; 7]; 2], String>)
    ensures
        match sfen_hands(hands@) {
            Ok(counts) => result matches Ok(out) && seq![out@[0]@, out@[1]@] == counts,
            Err(message) => result matches Err(e) && e@ == message,
        },
{
    let mut out: [[u8; 7]; 2] = [[0; 7]; 2];
    proof {
        reveal_strlit("-");
        assert("-"@ =~= seq!['-']);
        assert(out@[0]@ =~= no_hands()[0]);
        assert(out@[1]@ =~= no_hands()[1]);
        assert(seq![out@[0]@, out@[1]@] =~= no_hands());
    }
    if is_single(hands, '-') {
        return Ok(out);
    }
    let mut number: u32 = 0;
    let mut k: usize = 0;
    while k < hands.len()
        invariant
            k <= hands@.len(),
            sfen_hands(hands@) == hand_counts(
                hands@,
                k as int,
                number as nat,
                seq![out@[0]@, out@[1]@],
            ),
        decreases hands@.len() - k,
    {
        let c = hands[k];
        let ghost before = seq![out@[0]@, out@[1]@];
        match digit_of(c) {
            Some(d) => {
                number = ((number as u64 * 10 + d as u64) % 0x1_0000_0000) as u32;
            },
            None => {
                let n: u32 = if number == 0 {
                    1
                } else {
                    number
                };
                number = 0;
                let side = side_of_letter(c);
                let kind = match piece_kind_from_char(c) {
                    Some(kind) => kind,
                    None => {
                        return Err("invalid hand piece".to_string());
                    },
                };
                let slot = match hand_index(kind) {
                    Some(slot) => slot,
                    None => {
                        return Err("king cannot be in hand".to_string());
                    },
                };
                let h = side_index(side);
                let more: u8 = (n % 256) as u8;
                let total = out[h][slot].saturating_add(more);
                out[h][slot] = total;
                proof {
                    let after = hand_with(before, side, slot as int, n as nat);
                    assert(out@[0]@ =~= after[0]);
                    assert(out@[1]@ =~= after[1]);
                    assert(seq![out@[0]@, out@[1]@] =~= after);
                }
            },
        }
        k = k + 1;
    }
    Ok(out)
}

impl SearchState {
    /// The position that a text in SFEN notation gives. What follows the hands is not read.
    pub fn from_sfen(sfen: &str) -> (result: Result<Self, String>)
        ensures
            match sfen_position(sfen@) {
                Ok(pos) => result matches Ok(state) && state@ == pos,
                Err(message) => result matches Err(e) && e@ == message,
            },
    {
        let words = split_words(&characters(sfen));
        let ghost words_view = text::words(sfen@, 0);
        assert(words@.len() == words_view.len());
        if words.len() == 0 {
            return Err("missing board".to_string());
        }
        assert(words@[0]@ == words_view[0]);
        if words.len() == 1 {
            return Err("missing side".to_string());
        }
        assert(words@[1]@ == words_view[1]);
        let board = match read_board(&split_fields(&words[0], '/')) {
            Ok(board) => board,
            Err(e) => {
                return Err(e);
            },
        };
        proof {
            reveal_strlit("b");
            reveal_strlit("-");
            assert("b"@ =~= seq!['b']);
            assert("-"@ =~= seq!['-']);
        }
        let side_to_move = if is_single(&words[1], 'b') {
            Side::Black
        } else {
            Side::White
        };
        let hands = if words.len() > 2 {
            assert(words@[2]@ == words_view[2]);
            parse_sfen_hands(&words[2])
        } else {
            let none = vec!['-'];
            assert(none@ =~= seq!['-']);
            parse_sfen_hands(&none)
        };
        match hands {
            Ok(hands) => {
                let state = SearchState { board, side_to_move, hands };
                assert(state@ =~= sfen_position(sfen@)->Ok_0);
                Ok(state)
            },
            Err(e) => Err(e),
        }
    }
}

pub(crate) proof fn lemma_rank_width(rank: Seq<char>, k: int, squares: Seq<Option<Piece>>)
    ensures
        rank_squares(rank, k, squares) matches Ok(found) ==> found.len() == 9,
    decreases rank.len() - k,
{
    if k < rank.len() {
        match text::digit_value(rank[k]) {
            Some(d) => {
                lemma_rank_width(rank, k + 1, squares + empty_squares(d));
            },
            None => {
                let promoted = rank[k] == '+';
                let at = if promoted {
                    k + 1
                } else {
                    k
                };
                if at < rank.len() {
                    if let Some(kind) = types::kind_of_letter(rank[at]) {
                        lemma_rank_width(
                            rank,
                            at + 1,
                            squares.push(
                                Some(Piece { side: letter_side(rank[at]), kind, promoted }),
                            ),
                        );
                    }
                }
            },
        }
    }
}

proof fn lemma_board_size(ranks: Seq<Seq<char>>, r: int, squares: Seq<Option<Piece>>)
    requires
        0 <= r <= 9,
        squares.len() == r * 9,
    ensures
        board_squares(ranks, r, squares) matches Ok(found) ==> found.len() == 81,
    decreases ranks.len() - r,
{
    if r < ranks.len() && r < 9 {
        lemma_rank_width(ranks[r], 0, Seq::empty());
        if let Ok(rank) = rank_squares(ranks[r], 0, Seq::empty()) {
            lemma_board_size(ranks, r + 1, squares + rank);
        }
    }
}

proof fn lemma_hands_size(s: Seq<char>, k: int, number: nat, hands: Seq<Seq<u8>>)
    requires
        hands.len() == 2,
        hands[0].len() == 7,
        hands[1].len() == 7,
    ensures
        hand_counts(s, k, number, hands) matches Ok(found) ==> found.len() == 2 && found[0].len()
            == 7 && found[1].len() == 7,
    decreases s.len() - k,
{
    if k < s.len() {
        match text::digit_value(s[k]) {
            Some(d) => {
                lemma_hands_size(s, k + 1, (number * 10 + d) % 0x1_0000_0000, hands);
            },
            None => {
                if let Some(kind) = types::kind_of_letter(s[k]) {
                    if let Some(slot) = types::hand_slot(kind) {
                        let n: nat = if number == 0 {
                            1
                        } else {
                            number
                        };
                        lemma_hands_size(
                            s,
                            k + 1,
                            0,
                            hand_with(hands, letter_side(s[k]), slot as int, n),
                        );
                    }
                }
            },
        }
    }
}

/// Every position that is read has a full board and both hands.
pub proof fn law_read_positions_are_well_formed(s: Seq<char>)
    ensures
        sfen_position(s) matches Ok(pos) ==> pos.wf(),
{
    let words = text::words(s, 0);
    if words.len() > 1 {
        lemma_board_size(text::fields(words[0], '/', 0), 0, Seq::empty());
        lemma_hands_size(words[2], 0, 0, no_hands());
    }
}

/// Only the first three words of a text count.
pub proof fn law_only_three_words_count(s: Seq<char>, t: Seq<char>)
    requires
        text::words(s, 0).len() >= 3,
        text::words(t, 0).len() >= 3,
        text::words(s, 0)[0] == text::words(t, 0)[0],
        text::words(s, 0)[1] == text::words(t, 0)[1],
        text::words(s, 0)[2] == text::words(t, 0)[2],
    ensures
        sfen_position(s) == sfen_position(t),
{
}

} // verus!
