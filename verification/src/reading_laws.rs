//! How texts are read: words, ranks, hands and positions.

use crate::legality_laws;
use crate::sfen;
use crate::sfen_laws;
use crate::text;
use crate::types;
use crate::types::{Piece, PieceKind, Position, Side};
use vstd::prelude::*;

verus! {

// ---------------------------------------------------------------------------
// Words
// ---------------------------------------------------------------------------

/// The characters that count as white space are those of Unicode.
pub proof fn law_white_space(c: char)
    ensures
        text::blank(c) <==> {
            ||| 0x9 <= c as int <= 0xd
            ||| c as int == 0x20
            ||| c as int == 0x85
            ||| c as int == 0xa0
            ||| c as int == 0x1680
            ||| 0x2000 <= c as int <= 0x200a
            ||| c as int == 0x2028
            ||| c as int == 0x2029
            ||| c as int == 0x202f
            ||| c as int == 0x205f
            ||| c as int == 0x3000
        },
{
}

/// Whether a part of a text holds no white space.
pub open spec fn is_solid(s: Seq<char>, from: int, to: int) -> bool {
    forall|i: int| from <= i < to ==> !text::blank(#[trigger] s[i])
}

/// Whether a place of a text lies in one of these ranges.
pub open spec fn is_covered(places: Seq<(int, int)>, i: int) -> bool {
    exists|k: int| 0 <= k < places.len() && (#[trigger] places[k]).0 <= i < places[k].1
}

/// Whether these are the places where the words of a text from `from` on start and end: one behind
/// the other and apart, they hold no white space and all that is none.
pub open spec fn are_word_places(s: Seq<char>, from: int, places: Seq<(int, int)>) -> bool {
    &&& forall|k: int|
        0 <= k < places.len() ==> from <= (#[trigger] places[k]).0 < places[k].1 <= s.len()
            && is_solid(s, places[k].0, places[k].1)
    &&& forall|j: int, k: int|
        0 <= j < k < places.len() ==> (#[trigger] places[j]).1 < (#[trigger] places[k]).0
    &&& forall|i: int|
        from <= i < s.len() && !text::blank(#[trigger] s[i]) ==> is_covered(places, i)
}

proof fn lemma_word_start(s: Seq<char>, from: int)
    requires
        0 <= from <= s.len(),
    ensures
        from <= text::word_start(s, from) <= s.len(),
        forall|i: int| from <= i < text::word_start(s, from) ==> text::blank(#[trigger] s[i]),
        text::word_start(s, from) < s.len() ==> !text::blank(s[text::word_start(s, from)]),
    decreases s.len() - from,
{
    if from < s.len() && text::blank(s[from]) {
        lemma_word_start(s, from + 1);
    }
}

proof fn lemma_word_end(s: Seq<char>, from: int)
    requires
        0 <= from <= s.len(),
    ensures
        from <= text::word_end(s, from) <= s.len(),
        is_solid(s, from, text::word_end(s, from)),
        text::word_end(s, from) < s.len() ==> text::blank(s[text::word_end(s, from)]),
        from < s.len() && !text::blank(s[from]) ==> from < text::word_end(s, from),
    decreases s.len() - from,
{
    if from < s.len() && !text::blank(s[from]) {
        lemma_word_end(s, from + 1);
    }
}

proof fn lemma_words(s: Seq<char>, from: int) -> (places: Seq<(int, int)>)
    requires
        0 <= from <= s.len(),
    ensures
        are_word_places(s, from, places),
        text::words(s, from).len() == places.len(),
        forall|k: int|
            0 <= k < places.len() ==> #[trigger] text::words(s, from)[k] == s.subrange(
                places[k].0,
                places[k].1,
            ),
    decreases s.len() - from,
{
    let start = text::word_start(s, from);
    lemma_word_start(s, from);
    if start >= s.len() {
        assert(text::words(s, from) =~= Seq::<Seq<char>>::empty());
        Seq::empty()
    } else {
        lemma_word_end(s, start);
        let end = text::word_end(s, start);
        let rest = lemma_words(s, end);
        let places = seq![(start, end)] + rest;
        let words = text::words(s, from);
        assert(words =~= seq![s.subrange(start, end)] + text::words(s, end));
        assert forall|k: int| 0 <= k < places.len() implies from <= (#[trigger] places[k]).0
            < places[k].1 <= s.len() && is_solid(s, places[k].0, places[k].1) by {
            if k > 0 {
                assert(places[k] == rest[k - 1]);
            }
        }
        assert forall|j: int, k: int| 0 <= j < k < places.len() implies (#[trigger] places[j]).1 < (
        #[trigger] places[k]).0 by {
            assert(places[k] == rest[k - 1]);
            if j > 0 {
                assert(places[j] == rest[j - 1]);
            } else {
                assert(rest[k - 1].0 >= end);
                if rest[k - 1].0 == end {
                    assert(!text::blank(s[end]));
                }
            }
        }
        assert forall|i: int|
            from <= i < s.len() && !text::blank(#[trigger] s[i]) implies is_covered(places, i) by {
            if i < end {
                assert(places[0] == (start, end));
            } else {
                assert(is_covered(rest, i));
                let k = choose|k: int|
                    0 <= k < rest.len() && (#[trigger] rest[k]).0 <= i < rest[k].1;
                assert(places[k + 1] == rest[k]);
            }
        }
        assert forall|k: int| 0 <= k < places.len() implies #[trigger] words[k] == s.subrange(
            places[k].0,
            places[k].1,
        ) by {
            if k > 0 {
                assert(places[k] == rest[k - 1]);
                assert(words[k] == text::words(s, end)[k - 1]);
            }
        }
        places
    }
}

/// The words of a text are its longest parts without white space, in order.
pub proof fn law_words(s: Seq<char>) -> (places: Seq<(int, int)>)
    ensures
        are_word_places(s, 0, places),
        text::words(s, 0).len() == places.len(),
        forall|k: int|
            0 <= k < places.len() ==> #[trigger] text::words(s, 0)[k] == s.subrange(
                places[k].0,
                places[k].1,
            ),
{
    lemma_words(s, 0)
}

/// The parts into which a separator divides a text: put together with the separator between them
/// they are the text, none of them holds the separator, and there is one at least.
pub proof fn law_fields(s: Seq<char>, sep: char) -> (ends: Seq<int>)
    ensures
        text::fields(s, sep, 0).len() == ends.len(),
        ends.len() >= 1,
        ends.last() == s.len(),
        forall|k: int|
            0 <= k < ends.len() ==> {
                let from = if k == 0 {
                    0
                } else {
                    ends[k - 1] + 1
                };
                &&& 0 <= from <= (#[trigger] ends[k]) <= s.len()
                &&& text::fields(s, sep, 0)[k] == s.subrange(from, ends[k])
                &&& !text::fields(s, sep, 0)[k].contains(sep)
                &&& k < ends.len() - 1 ==> ends[k] < s.len() && s[ends[k]] == sep
            },
{
    lemma_fields(s, sep, 0)
}

proof fn lemma_field_end(s: Seq<char>, sep: char, from: int)
    requires
        0 <= from <= s.len(),
    ensures
        from <= text::field_end(s, sep, from) <= s.len(),
        !s.subrange(from, text::field_end(s, sep, from)).contains(sep),
        text::field_end(s, sep, from) < s.len() ==> s[text::field_end(s, sep, from)] == sep,
    decreases s.len() - from,
{
    if from < s.len() && s[from] != sep {
        lemma_field_end(s, sep, from + 1);
        let end = text::field_end(s, sep, from);
        let part = s.subrange(from, end);
        let rest = s.subrange(from + 1, end);
        if part.contains(sep) {
            let i = choose|i: int| 0 <= i < part.len() && part[i] == sep;
            assert(rest[i - 1] == sep);
        }
    }
}

proof fn lemma_fields(s: Seq<char>, sep: char, from: int) -> (ends: Seq<int>)
    requires
        0 <= from <= s.len(),
    ensures
        text::fields(s, sep, from).len() == ends.len(),
        ends.len() >= 1,
        ends.last() == s.len(),
        forall|k: int|
            0 <= k < ends.len() ==> {
                let start = if k == 0 {
                    from
                } else {
                    ends[k - 1] + 1
                };
                &&& from <= start <= (#[trigger] ends[k]) <= s.len()
                &&& text::fields(s, sep, from)[k] == s.subrange(start, ends[k])
                &&& !text::fields(s, sep, from)[k].contains(sep)
                &&& k < ends.len() - 1 ==> ends[k] < s.len() && s[ends[k]] == sep
            },
    decreases s.len() - from,
{
    lemma_field_end(s, sep, from);
    let end = text::field_end(s, sep, from);
    if end < s.len() {
        let rest = lemma_fields(s, sep, end + 1);
        let ends = seq![end] + rest;
        let parts = text::fields(s, sep, from);
        assert(parts =~= seq![s.subrange(from, end)] + text::fields(s, sep, end + 1));
        assert forall|k: int| 0 <= k < ends.len() implies {
            let start = if k == 0 {
                from
            } else {
                ends[k - 1] + 1
            };
            &&& from <= start <= (#[trigger] ends[k]) <= s.len()
            &&& parts[k] == s.subrange(start, ends[k])
            &&& !parts[k].contains(sep)
            &&& k < ends.len() - 1 ==> ends[k] < s.len() && s[ends[k]] == sep
        } by {
            if k > 0 {
                assert(ends[k] == rest[k - 1]);
                assert(parts[k] == text::fields(s, sep, end + 1)[k - 1]);
                if k > 1 {
                    assert(ends[k - 1] == rest[k - 2]);
                }
            }
        }
        ends
    } else {
        seq![s.len() as int]
    }
}

// ---------------------------------------------------------------------------
// Ranks
// ---------------------------------------------------------------------------

/// What a rank is written with: a digit for that many empty squares, or a piece.
pub enum Sign {
    Gap(nat),
    Man(Piece),
}

/// The letter of a piece: a capital for black.
pub open spec fn letter(side: Side, kind: PieceKind) -> char {
    match (kind, side) {
        (PieceKind::Pawn, Side::Black) => 'P',
        (PieceKind::Lance, Side::Black) => 'L',
        (PieceKind::Knight, Side::Black) => 'N',
        (PieceKind::Silver, Side::Black) => 'S',
        (PieceKind::Gold, Side::Black) => 'G',
        (PieceKind::Bishop, Side::Black) => 'B',
        (PieceKind::Rook, Side::Black) => 'R',
        (PieceKind::King, Side::Black) => 'K',
        (PieceKind::Pawn, Side::White) => 'p',
        (PieceKind::Lance, Side::White) => 'l',
        (PieceKind::Knight, Side::White) => 'n',
        (PieceKind::Silver, Side::White) => 's',
        (PieceKind::Gold, Side::White) => 'g',
        (PieceKind::Bishop, Side::White) => 'b',
        (PieceKind::Rook, Side::White) => 'r',
        (PieceKind::King, Side::White) => 'k',
    }
}

impl Sign {
    /// A digit below ten, or any piece.
    pub open spec fn valid(self) -> bool {
        self matches Sign::Gap(n) ==> n < 10
    }

    pub open spec fn text(self) -> Seq<char> {
        match self {
            Sign::Gap(n) => seq![(48 + n) as char],
            Sign::Man(piece) => if piece.promoted {
                seq!['+', letter(piece.side, piece.kind)]
            } else {
                seq![letter(piece.side, piece.kind)]
            },
        }
    }

    /// The squares that a sign stands for.
    pub open spec fn squares(self) -> Seq<Option<Piece>> {
        match self {
            Sign::Gap(n) => Seq::new(n, |i: int| None),
            Sign::Man(piece) => seq![Some(piece)],
        }
    }
}

/// Signs, one after the other.
pub open spec fn signs_text(signs: Seq<Sign>) -> Seq<char>
    decreases signs.len(),
{
    if signs.len() == 0 {
        Seq::empty()
    } else {
        signs_text(signs.drop_last()) + signs.last().text()
    }
}

/// The squares that signs stand for.
pub open spec fn signs_squares(signs: Seq<Sign>) -> Seq<Option<Piece>>
    decreases signs.len(),
{
    if signs.len() == 0 {
        Seq::empty()
    } else {
        signs_squares(signs.drop_last()) + signs.last().squares()
    }
}

/// Whether every piece of the signs finds one of the nine columns.
pub open spec fn all_find_room(signs: Seq<Sign>) -> bool {
    forall|j: int|
        0 <= j < signs.len() && #[trigger] signs[j] is Man ==> signs_squares(signs.take(j)).len()
            < 9
}

pub open spec fn all_signs_valid(signs: Seq<Sign>) -> bool {
    forall|j: int| 0 <= j < signs.len() ==> (#[trigger] signs[j]).valid()
}

proof fn lemma_letter(side: Side, kind: PieceKind)
    ensures
        types::kind_of_letter(letter(side, kind)) == Some(kind),
        sfen::letter_side(letter(side, kind)) == side,
        text::digit_value(letter(side, kind)) is None,
        letter(side, kind) != '+',
{
}

/// Reading a rank up to the end of its first signs has gathered their squares.
proof fn lemma_signs_are_read(rank: Seq<char>, signs: Seq<Sign>)
    requires
        all_signs_valid(signs),
        all_find_room(signs),
        signs_text(signs).len() <= rank.len(),
        rank.take(signs_text(signs).len() as int) == signs_text(signs),
    ensures
        sfen::rank_squares(rank, 0, Seq::empty()) == sfen::rank_squares(
            rank,
            signs_text(signs).len() as int,
            signs_squares(signs),
        ),
    decreases signs.len(),
{
    if signs.len() > 0 {
        let front = signs.drop_last();
        let last = signs.last();
        let k = signs_text(front).len() as int;
        assert forall|j: int|
            0 <= j < front.len() && #[trigger] front[j] is Man implies signs_squares(
            front.take(j),
        ).len() < 9 by {
            assert(signs[j] is Man);
            assert(front.take(j) =~= signs.take(j));
        }
        assert forall|j: int| 0 <= j < front.len() implies (#[trigger] front[j]).valid() by {
            assert(signs[j].valid());
        }
        let whole = signs_text(signs);
        assert(rank.take(k) =~= signs_text(front)) by {
            assert(whole.take(k) =~= signs_text(front));
            assert(rank.take(k) =~= rank.take(whole.len() as int).take(k));
        }
        lemma_signs_are_read(rank, front);
        assert(signs[signs.len() - 1].valid());
        assert forall|m: int| 0 <= m < last.text().len() implies rank[k + m]
            == #[trigger] last.text()[m] by {
            assert(whole[k + m] == last.text()[m]);
            assert(rank.take(whole.len() as int)[k + m] == rank[k + m]);
        }
        let squares = signs_squares(front);
        match last {
            Sign::Gap(n) => {
                assert(rank[k] == last.text()[0]);
                assert(text::digit_value(rank[k]) == Some(n));
                assert(sfen::empty_squares(n) =~= last.squares());
            },
            Sign::Man(piece) => {
                lemma_letter(piece.side, piece.kind);
                assert(signs[signs.len() - 1] is Man);
                assert(signs.take(signs.len() - 1) =~= front);
                assert(squares.push(Some(piece)) =~= squares + last.squares());
                assert(rank[k] == last.text()[0]);
                if piece.promoted {
                    assert(rank[k + 1] == last.text()[1]);
                }
            },
        }
    } else {
        assert(signs_text(signs) =~= Seq::<char>::empty());
        assert(signs_squares(signs) =~= Seq::<Option<Piece>>::empty());
    }
}

/// A rank written with these signs is read as their squares if they are nine, and else refused.
pub proof fn law_a_rank_is_read_sign_by_sign(signs: Seq<Sign>)
    requires
        all_signs_valid(signs),
        all_find_room(signs),
    ensures
        ({
            let read = sfen::rank_squares(signs_text(signs), 0, Seq::empty());
            if signs_squares(signs).len() == 9 {
                read == Ok::<Seq<Option<Piece>>, Seq<char>>(signs_squares(signs))
            } else {
                read == Err::<Seq<Option<Piece>>, Seq<char>>("rank width mismatch"@)
            }
        }),
{
    let rank = signs_text(signs);
    assert(rank.take(rank.len() as int) =~= rank);
    lemma_signs_are_read(rank, signs);
}

/// A rank is refused at its first piece without room, at its first character that stands for
/// nothing, and at a `+` that ends it, whatever follows.
pub proof fn law_a_rank_is_refused_where_it_goes_wrong(signs: Seq<Sign>, rest: Seq<char>, c: char)
    requires
        all_signs_valid(signs),
        all_find_room(signs),
    ensures
        ({
            let start = signs_text(signs);
            let full = signs_squares(signs).len() >= 9;
            let piece = exists|side: Side, kind: PieceKind| c == #[trigger] letter(side, kind);
            let digit = 48 <= c as int <= 57;
            &&& full && (piece || (c != '+' && !digit)) ==> sfen::rank_squares(
                start.push(c) + rest,
                0,
                Seq::empty(),
            ) == Err::<Seq<Option<Piece>>, Seq<char>>("column overflow"@)
            &&& !full && !piece && !digit && c != '+' ==> sfen::rank_squares(
                start.push(c) + rest,
                0,
                Seq::empty(),
            ) == Err::<Seq<Option<Piece>>, Seq<char>>("invalid piece"@)
            &&& !full && !piece ==> sfen::rank_squares(
                start.push('+').push(c) + rest,
                0,
                Seq::empty(),
            ) == Err::<Seq<Option<Piece>>, Seq<char>>("invalid piece"@)
            &&& sfen::rank_squares(start.push('+'), 0, Seq::empty()) == Err::<
                Seq<Option<Piece>>,
                Seq<char>,
            >("invalid promoted piece"@)
        }),
{
    let start = signs_text(signs);
    let k = start.len() as int;
    let one = start.push(c) + rest;
    let two = start.push('+').push(c) + rest;
    let end = start.push('+');
    assert(one.take(k) =~= start);
    assert(two.take(k) =~= start);
    assert(end.take(k) =~= start);
    lemma_signs_are_read(one, signs);
    lemma_signs_are_read(two, signs);
    lemma_signs_are_read(end, signs);
    assert(one[k] == c && two[k] == '+' && two[k + 1] == c && end[k] == '+');
    lemma_letters(c);
}

/// The letters that stand for a piece.
proof fn lemma_letters(c: char)
    ensures
        types::kind_of_letter(c) is Some <==> exists|side: Side, kind: PieceKind|
            c == #[trigger] letter(side, kind),
{
    if let Some(kind) = types::kind_of_letter(c) {
        assert(c == letter(sfen::letter_side(c), kind));
    }
    if exists|side: Side, kind: PieceKind| c == #[trigger] letter(side, kind) {
        let (side, kind): (Side, PieceKind) = choose|side: Side, kind: PieceKind|
            c == #[trigger] letter(side, kind);
        lemma_letter(side, kind);
    }
}

// ---------------------------------------------------------------------------
// Hands
// ---------------------------------------------------------------------------

/// A kind in a hand, after a number if there is one.
pub struct HandSign {
    pub number: Option<nat>,
    pub side: Side,
    pub kind: PieceKind,
}

impl HandSign {
    /// A kind that can be in hand, and a number of at most 32 bits.
    pub open spec fn valid(self) -> bool {
        &&& self.kind != PieceKind::King
        &&& self.number matches Some(n) ==> n < 0x1_0000_0000
    }

    pub open spec fn text(self) -> Seq<char> {
        match self.number {
            Some(n) => text::decimal(n).push(letter(self.side, self.kind)),
            None => seq![letter(self.side, self.kind)],
        }
    }

    /// How many pieces a sign stands for: its number, one if there is none or if it is zero. Of the
    /// number only the low eight bits count.
    pub open spec fn pieces(self) -> nat {
        match self.number {
            Some(n) => if n == 0 {
                1
            } else {
                n % 256
            },
            None => 1,
        }
    }
}

pub open spec fn all_hand_signs_valid(signs: Seq<HandSign>) -> bool {
    forall|j: int| 0 <= j < signs.len() ==> (#[trigger] signs[j]).valid()
}

/// Signs of hands, one after the other.
pub open spec fn hand_signs_text(signs: Seq<HandSign>) -> Seq<char>
    decreases signs.len(),
{
    if signs.len() == 0 {
        Seq::empty()
    } else {
        hand_signs_text(signs.drop_last()) + signs.last().text()
    }
}

/// How many pieces of a kind and side the signs stand for.
pub open spec fn hand_sum(signs: Seq<HandSign>, side: Side, kind: PieceKind) -> nat
    decreases signs.len(),
{
    if signs.len() == 0 {
        0
    } else {
        hand_sum(signs.drop_last(), side, kind) + (if signs.last().side == side
            && signs.last().kind == kind {
            signs.last().pieces()
        } else {
            0
        })
    }
}

/// Whether the hands hold the sum of the signs for each side and kind, as far as a counter goes.
pub open spec fn hands_hold(hands: Seq<Seq<u8>>, signs: Seq<HandSign>) -> bool {
    &&& hands.len() == 2
    &&& hands[0].len() == 7
    &&& hands[1].len() == 7
    &&& forall|side: Side, kind: PieceKind|
        kind != PieceKind::King ==> {
            let sum = #[trigger] hand_sum(signs, side, kind);
            hands[if side == Side::Black {
                0
            } else {
                1
            }][legality_laws::hand_number(kind)] == (if sum < 255 {
                sum as int
            } else {
                255
            })
        }
}

proof fn lemma_hand_sign_is_read(
    before: Seq<char>,
    sign: HandSign,
    after: Seq<char>,
    hands: Seq<Seq<u8>>,
)
    requires
        sign.valid(),
    ensures
        ({
            let s = before + sign.text() + after;
            let n: nat = match sign.number {
                Some(n) => if n == 0 {
                    1
                } else {
                    n
                },
                None => 1,
            };
            sfen::hand_counts(s, before.len() as int, 0, hands) == sfen::hand_counts(
                s,
                (before + sign.text()).len() as int,
                0,
                sfen::hand_with(hands, sign.side, legality_laws::hand_number(sign.kind), n),
            )
        }),
{
    let s = before + sign.text() + after;
    lemma_letter(sign.side, sign.kind);
    assert(types::hand_slot(sign.kind) == Some(legality_laws::hand_number(sign.kind) as usize));
    match sign.number {
        Some(n) => {
            let rest = seq![letter(sign.side, sign.kind)] + after;
            assert(s =~= before + text::decimal(n) + rest);
            sfen_laws::lemma_number_is_read(before, n, rest, hands);
            let k = (before + text::decimal(n)).len() as int;
            assert(s[k] == letter(sign.side, sign.kind));
        },
        None => {
            assert(s[before.len() as int] == letter(sign.side, sign.kind));
        },
    }
}

proof fn lemma_hand_signs_are_read(signs: Seq<HandSign>, after: Seq<char>) -> (hands: Seq<Seq<u8>>)
    requires
        all_hand_signs_valid(signs),
    ensures
        hands_hold(hands, signs),
        sfen::hand_counts(hand_signs_text(signs) + after, 0, 0, sfen::no_hands())
            == sfen::hand_counts(
            hand_signs_text(signs) + after,
            hand_signs_text(signs).len() as int,
            0,
            hands,
        ),
    decreases signs.len(),
{
    if signs.len() == 0 {
        assert forall|side: Side, kind: PieceKind| kind != PieceKind::King implies {
            let sum = #[trigger] hand_sum(signs, side, kind);
            sfen::no_hands()[if side == Side::Black {
                0
            } else {
                1
            }][legality_laws::hand_number(kind)] == (if sum < 255 {
                sum as int
            } else {
                255
            })
        } by {}
        sfen::no_hands()
    } else {
        let front = signs.drop_last();
        let last = signs.last();
        let before = hand_signs_text(front);
        assert(signs[signs.len() - 1].valid());
        assert forall|j: int| 0 <= j < front.len() implies (#[trigger] front[j]).valid() by {
            assert(signs[j].valid());
        }
        let hands = lemma_hand_signs_are_read(front, last.text() + after);
        assert(before + (last.text() + after) =~= hand_signs_text(signs) + after);
        lemma_hand_sign_is_read(before, last, after, hands);
        let n: nat = match last.number {
            Some(n) => if n == 0 {
                1
            } else {
                n
            },
            None => 1,
        };
        let more = sfen::hand_with(hands, last.side, legality_laws::hand_number(last.kind), n);
        assert(n % 256 == last.pieces());
        assert forall|side: Side, kind: PieceKind| kind != PieceKind::King implies {
            let sum = #[trigger] hand_sum(signs, side, kind);
            more[if side == Side::Black {
                0
            } else {
                1
            }][legality_laws::hand_number(kind)] == (if sum < 255 {
                sum as int
            } else {
                255
            })
        } by {
            assert(hand_sum(front, side, kind) >= 0);
        }
        more
    }
}

/// Hands written with these signs hold their sums; `-` stands for empty hands.
pub proof fn law_hands_are_read_sign_by_sign(signs: Seq<HandSign>)
    requires
        all_hand_signs_valid(signs),
    ensures
        sfen::sfen_hands(hand_signs_text(signs)) matches Ok(hands) && hands_hold(hands, signs),
        sfen::sfen_hands(seq!['-']) matches Ok(hands) && hands_hold(hands, Seq::empty()),
{
    let s = hand_signs_text(signs);
    reveal_strlit("-");
    assert("-"@ =~= seq!['-']);
    let hands = lemma_hand_signs_are_read(signs, Seq::empty());
    let none = lemma_hand_signs_are_read(Seq::empty(), Seq::empty());
    assert(s + Seq::<char>::empty() =~= s);
    if signs.len() > 0 {
        assert(signs[signs.len() - 1].valid());
        assert(s.last() == letter(signs.last().side, signs.last().kind));
        lemma_letter(signs.last().side, signs.last().kind);
        assert(s != "-"@);
    }
    assert(hand_signs_text(Seq::<HandSign>::empty()) + Seq::<char>::empty() =~= Seq::<
        char,
    >::empty());
    assert(sfen::hand_counts(Seq::empty(), 0, 0, sfen::no_hands()) == Ok::<
        Seq<Seq<u8>>,
        Seq<char>,
    >(sfen::no_hands()));
}

/// Hands are refused at the first king, and at the first character that stands for nothing.
pub proof fn law_hands_are_refused_where_they_go_wrong(
    signs: Seq<HandSign>,
    c: char,
    rest: Seq<char>,
)
    requires
        all_hand_signs_valid(signs),
        signs.len() > 0 || rest.len() > 0 || c != '-',
    ensures
        ({
            let s = hand_signs_text(signs).push(c) + rest;
            let piece = exists|side: Side, kind: PieceKind| c == #[trigger] letter(side, kind);
            &&& c == 'K' || c == 'k' ==> sfen::sfen_hands(s) == Err::<Seq<Seq<u8>>, Seq<char>>(
                "king cannot be in hand"@,
            )
            &&& !piece && !(48 <= c as int <= 57) ==> sfen::sfen_hands(s) == Err::<
                Seq<Seq<u8>>,
                Seq<char>,
            >("invalid hand piece"@)
        }),
{
    let start = hand_signs_text(signs);
    let s = start.push(c) + rest;
    let hands = lemma_hand_signs_are_read(signs, seq![c] + rest);
    assert(start + (seq![c] + rest) =~= s);
    assert(s[start.len() as int] == c);
    reveal_strlit("-");
    if signs.len() > 0 {
        assert(signs[signs.len() - 1].valid());
        lemma_letter(signs.last().side, signs.last().kind);
        assert(start.last() == letter(signs.last().side, signs.last().kind));
        assert(s[start.len() - 1] == start.last());
    }
    assert(s != "-"@) by {
        if s == "-"@ {
            assert(s.len() == 1);
            assert(s[0] == '-');
        }
    }
    lemma_letters(c);
    assert(letter(Side::Black, PieceKind::King) == 'K');
}

// ---------------------------------------------------------------------------
// Boards and positions
// ---------------------------------------------------------------------------

/// The squares of a rank, if it can be read.
pub open spec fn rank_of(rank: Seq<char>) -> Result<Seq<Option<Piece>>, Seq<char>> {
    sfen::rank_squares(rank, 0, Seq::empty())
}

/// Whether the first `n` ranks can all be read.
pub open spec fn all_read(ranks: Seq<Seq<char>>, n: int) -> bool {
    forall|r: int| 0 <= r < n ==> rank_of(#[trigger] ranks[r]) is Ok
}

proof fn lemma_board(ranks: Seq<Seq<char>>, r: int, squares: Seq<Option<Piece>>)
    requires
        0 <= r <= ranks.len(),
        r <= 9,
        squares.len() == 9 * r,
        all_read(ranks, r),
        forall|row: int, col: int|
            0 <= row < r && 0 <= col < 9 ==> #[trigger] squares[9 * row + col] == rank_of(
                ranks[row],
            )->Ok_0[col],
    ensures
        ({
            let read = sfen::board_squares(ranks, r, squares);
            &&& forall|bad: int|
                r <= bad < ranks.len() && bad < 9 && all_read(ranks, bad) && #[trigger] rank_of(
                    ranks[bad],
                ) is Err ==> read == Err::<Seq<Option<Piece>>, Seq<char>>(
                    rank_of(ranks[bad])->Err_0,
                )
            &&& ranks.len() > 9 && all_read(ranks, 9) ==> read == Err::<
                Seq<Option<Piece>>,
                Seq<char>,
            >("too many ranks"@)
            &&& ranks.len() <= 9 && all_read(ranks, ranks.len() as int) ==> {
                &&& read matches Ok(board)
                &&& board.len() == 81
                &&& forall|row: int, col: int|
                    0 <= row < 9 && 0 <= col < 9 ==> #[trigger] board[9 * row + col] == (if row
                        < ranks.len() {
                        rank_of(ranks[row])->Ok_0[col]
                    } else {
                        None
                    })
            }
        }),
    decreases ranks.len() - r,
{
    if r < ranks.len() && r < 9 {
        if rank_of(ranks[r]) is Ok {
            let rank = rank_of(ranks[r])->Ok_0;
            sfen::lemma_rank_width(ranks[r], 0, Seq::empty());
            let more = squares + rank;
            assert forall|row: int, col: int| 0 <= row < r + 1 && 0 <= col < 9 implies
                #[trigger] more[9 * row + col] == rank_of(ranks[row])->Ok_0[col] by {
                if row < r {
                    assert(more[9 * row + col] == squares[9 * row + col]);
                } else {
                    assert(more[9 * row + col] == rank[col]);
                }
            }
            assert(all_read(ranks, r + 1));
            lemma_board(ranks, r + 1, more);
        } else {
            assert forall|bad: int|
                r <= bad < ranks.len() && bad < 9 && all_read(ranks, bad) && #[trigger] rank_of(
                    ranks[bad],
                ) is Err implies bad == r by {
                if bad > r {
                    assert(rank_of(ranks[r]) is Ok);
                }
            }
            assert(ranks.len() > 9 ==> !all_read(ranks, 9));
        }
    } else if r >= ranks.len() {
        let board = squares + sfen::empty_squares((81 - squares.len()) as nat);
        assert forall|row: int, col: int| 0 <= row < 9 && 0 <= col < 9 implies #[trigger] board[9
            * row + col] == (if row < ranks.len() {
            rank_of(ranks[row])->Ok_0[col]
        } else {
            None
        }) by {
            if row < r {
                assert(board[9 * row + col] == squares[9 * row + col]);
            }
        }
    }
}

/// A board is read rank by rank: each rank gives a row, rows that are not given are empty, the
/// first rank that cannot be read is what is wrong, and more than nine are too many.
pub proof fn law_a_board_is_read_rank_by_rank(ranks: Seq<Seq<char>>)
    ensures
        ({
            let read = sfen::board_squares(ranks, 0, Seq::empty());
            &&& forall|bad: int|
                0 <= bad < ranks.len() && bad < 9 && all_read(ranks, bad) && #[trigger] rank_of(
                    ranks[bad],
                ) is Err ==> read == Err::<Seq<Option<Piece>>, Seq<char>>(
                    rank_of(ranks[bad])->Err_0,
                )
            &&& ranks.len() > 9 && all_read(ranks, 9) ==> read == Err::<
                Seq<Option<Piece>>,
                Seq<char>,
            >("too many ranks"@)
            &&& ranks.len() <= 9 && all_read(ranks, ranks.len() as int) ==> {
                &&& read matches Ok(board)
                &&& board.len() == 81
                &&& forall|row: int, col: int|
                    0 <= row < 9 && 0 <= col < 9 ==> #[trigger] board[9 * row + col] == (if row
                        < ranks.len() {
                        rank_of(ranks[row])->Ok_0[col]
                    } else {
                        None
                    })
            }
        }),
{
    lemma_board(ranks, 0, Seq::empty());
}

/// A position is read from the first three words of a text: the board, rank by rank between
/// slashes, the player to move, black for `b` and white for anything else, and the hands, empty if
/// the word is missing. What is wrong with the board comes before what is wrong with the hands.
pub proof fn law_a_position_is_read_word_by_word(s: Seq<char>)
    ensures
        ({
            let words = text::words(s, 0);
            let read = sfen::sfen_position(s);
            if words.len() == 0 {
                read == Err::<Position, Seq<char>>("missing board"@)
            } else if words.len() == 1 {
                read == Err::<Position, Seq<char>>("missing side"@)
            } else {
                let board = sfen::board_squares(
                    text::fields(words[0], '/', 0),
                    0,
                    Seq::empty(),
                );
                let hands = sfen::sfen_hands(
                    if words.len() == 2 {
                        seq!['-']
                    } else {
                        words[2]
                    },
                );
                if board is Err {
                    read == Err::<Position, Seq<char>>(board->Err_0)
                } else if hands is Err {
                    read == Err::<Position, Seq<char>>(hands->Err_0)
                } else {
                    read == Ok::<Position, Seq<char>>(
                        Position {
                            board: board->Ok_0,
                            side_to_move: if words[1] == seq!['b'] {
                                Side::Black
                            } else {
                                Side::White
                            },
                            hands: hands->Ok_0,
                        },
                    )
                }
            }
        }),
{
    reveal_strlit("b");
    reveal_strlit("-");
    assert("b"@ =~= seq!['b']);
    assert("-"@ =~= seq!['-']);
}

} // verus!
