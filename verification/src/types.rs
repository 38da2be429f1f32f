//! Pieces, positions and moves, with the tables that describe the pieces.

use crate::skills::{SkillRuntime, SkillRuntimeView};
use vstd::hash_map::StringHashMap;
use vstd::prelude::*;

verus! {

/// A move as it is exchanged with the caller: board coordinates and piece codes.
#[derive(Debug)]
pub struct EngineMove {
    pub from_row: Option<i32>,
    pub from_col: Option<i32>,
    pub to_row: i32,
    pub to_col: i32,
    pub piece_code: String,
    pub promote: bool,
    pub drop_piece_code: Option<String>,
    pub captured_piece_code: Option<String>,
    pub notation: Option<String>,
}

/// The mathematical reading of an [`EngineMove`].
pub struct EngineMoveView {
    pub from_row: Option<i32>,
    pub from_col: Option<i32>,
    pub to_row: i32,
    pub to_col: i32,
    pub piece_code: Seq<char>,
    pub promote: bool,
    pub drop_piece_code: Option<Seq<char>>,
    pub captured_piece_code: Option<Seq<char>>,
    pub notation: Option<Seq<char>>,
}

/// The characters of an optional text.
pub open spec fn text_of(text: Option<String>) -> Option<Seq<char>> {
    match text {
        Some(s) => Some(s@),
        None => None,
    }
}

impl View for EngineMove {
    type V = EngineMoveView;

    open spec fn view(&self) -> EngineMoveView {
        EngineMoveView {
            from_row: self.from_row,
            from_col: self.from_col,
            to_row: self.to_row,
            to_col: self.to_col,
            piece_code: self.piece_code@,
            promote: self.promote,
            drop_piece_code: text_of(self.drop_piece_code),
            captured_piece_code: text_of(self.captured_piece_code),
            notation: text_of(self.notation),
        }
    }
}

/// Copies an optional text.
pub fn copy_text(text: &Option<String>) -> (copy: Option<String>)
    ensures
        text_of(copy) == text_of(*text),
{
    match text {
        Some(s) => Some(s.clone()),
        None => None,
    }
}

impl Clone for EngineMove {
    fn clone(&self) -> (copy: Self)
        ensures
            copy@ == self@,
    {
        EngineMove {
            from_row: self.from_row,
            from_col: self.from_col,
            to_row: self.to_row,
            to_col: self.to_col,
            piece_code: self.piece_code.clone(),
            promote: self.promote,
            drop_piece_code: copy_text(&self.drop_piece_code),
            captured_piece_code: copy_text(&self.captured_piece_code),
            notation: copy_text(&self.notation),
        }
    }
}

/// The two players. Black moves towards row 0.
#[derive(Debug, Clone, Copy, PartialEq, Eq, Structural)]
pub enum Side {
    Black,
    White,
}

impl Side {
    /// The other player.
    pub open spec fn other(self) -> Side {
        match self {
            Side::Black => Side::White,
            Side::White => Side::Black,
        }
    }

    pub fn opposite(self) -> (side: Self)
        ensures
            side == self.other(),
    {
        match self {
            Self::Black => Self::White,
            Self::White => Self::Black,
        }
    }
}

#[derive(Debug, Clone, Copy, PartialEq, Eq, Structural)]
pub enum PieceKind {
    Pawn,
    Lance,
    Knight,
    Silver,
    Gold,
    Bishop,
    Rook,
    King,
}

#[derive(Debug, Clone, Copy, PartialEq, Eq, Structural)]
pub struct Piece {
    pub side: Side,
    pub kind: PieceKind,
    pub promoted: bool,
}

/// A position: the board in row-major order, the player to move, and the pieces in hand
/// (black's first), indexed as [`hand_index`] says.
#[derive(Debug, Clone, Copy)]
pub struct SearchState {
    pub board: [Option<Piece>; 81],
    pub side_to_move: Side,
    pub hands: [[u8; 7]; 2],
}

/// The mathematical reading of a [`SearchState`].
#[verifier::ext_equal]
pub struct Position {
    pub board: Seq<Option<Piece>>,
    pub side_to_move: Side,
    pub hands: Seq<Seq<u8>>,
}

impl Position {
    /// A board of nine rows and nine columns, and seven kinds in each of two hands.
    pub open spec fn wf(self) -> bool {
        &&& self.board.len() == 81
        &&& self.hands.len() == 2
        &&& self.hands[0].len() == 7
        &&& self.hands[1].len() == 7
    }

    /// What stands at `row`, `col`.
    pub open spec fn at(self, row: int, col: int) -> Option<Piece> {
        self.board[row * 9 + col]
    }
}

impl View for SearchState {
    type V = Position;

    open spec fn view(&self) -> Position {
        Position {
            board: self.board@,
            side_to_move: self.side_to_move,
            hands: seq![self.hands@[0]@, self.hands@[1]@],
        }
    }
}

/// A generated move. `from` is absent for a drop, `drop` for a move on the board.
#[derive(Debug, Clone, Copy)]
pub struct GenMove {
    pub from: Option<(usize, usize)>,
    pub to: (usize, usize),
    pub piece: Piece,
    pub promote: bool,
    pub capture: Option<Piece>,
    pub drop: Option<PieceKind>,
}

/// A direction of movement: one step, or any number of steps.
#[derive(Debug, Clone, Copy, PartialEq, Eq, Structural)]
pub struct VectorRule {
    pub dr: i32,
    pub dc: i32,
    pub slide: bool,
}

/// Adjustments to the rules that come with a request, by piece code.
pub struct RuntimeRules {
    pub extra_vectors_by_piece: StringHashMap<Vec<VectorRule>>,
    pub eval_bonus_by_piece: StringHashMap<i32>,
    pub skill_runtime: SkillRuntime,
}

/// The adjustments to movement and worth of [`RuntimeRules`].
#[verifier::ext_equal]
pub struct RulesView {
    pub vectors: Map<Seq<char>, Seq<VectorRule>>,
    pub bonus: Map<Seq<char>, i32>,
}

impl View for RuntimeRules {
    type V = RulesView;

    open spec fn view(&self) -> RulesView {
        RulesView {
            vectors: self.extra_vectors_by_piece@.map_values(|v: Vec<VectorRule>| v@),
            bonus: self.eval_bonus_by_piece@,
        }
    }
}

impl RulesView {
    /// Rules without adjustments.
    pub open spec fn plain() -> RulesView {
        RulesView { vectors: Map::empty(), bonus: Map::empty() }
    }
}

impl Default for RuntimeRules {
    fn default() -> (rules: Self)
        ensures
            rules@ == RulesView::plain(),
            rules.skill_runtime@ == SkillRuntimeView::none(),
    {
        let rules = RuntimeRules {
            extra_vectors_by_piece: StringHashMap::new(),
            eval_bonus_by_piece: StringHashMap::new(),
            skill_runtime: SkillRuntime::default(),
        };
        assert(rules@ =~= RulesView::plain());
        rules
    }
}

/// The upper-case form of an ASCII letter; any other character is kept.
pub open spec fn ascii_upper(ch: char) -> char {
    if 'a' <= ch <= 'z' {
        ((ch as int) - 32) as char
    } else {
        ch
    }
}

/// The kind that a letter stands for, in either case.
pub open spec fn kind_of_letter(ch: char) -> Option<PieceKind> {
    if ch == 'P' || ch == 'p' {
        Some(PieceKind::Pawn)
    } else if ch == 'L' || ch == 'l' {
        Some(PieceKind::Lance)
    } else if ch == 'N' || ch == 'n' {
        Some(PieceKind::Knight)
    } else if ch == 'S' || ch == 's' {
        Some(PieceKind::Silver)
    } else if ch == 'G' || ch == 'g' {
        Some(PieceKind::Gold)
    } else if ch == 'B' || ch == 'b' {
        Some(PieceKind::Bishop)
    } else if ch == 'R' || ch == 'r' {
        Some(PieceKind::Rook)
    } else if ch == 'K' || ch == 'k' {
        Some(PieceKind::King)
    } else {
        None
    }
}

pub fn piece_kind_from_char(ch: char) -> (kind: Option<PieceKind>)
    ensures
        kind == kind_of_letter(ch),
{
    match ch {
        'P' | 'p' => Some(PieceKind::Pawn),
        'L' | 'l' => Some(PieceKind::Lance),
        'N' | 'n' => Some(PieceKind::Knight),
        'S' | 's' => Some(PieceKind::Silver),
        'G' | 'g' => Some(PieceKind::Gold),
        'B' | 'b' => Some(PieceKind::Bishop),
        'R' | 'r' => Some(PieceKind::Rook),
        'K' | 'k' => Some(PieceKind::King),
        _ => None,
    }
}

/// The two-letter code of a kind.
pub open spec fn kind_code(kind: PieceKind) -> Seq<char> {
    match kind {
        PieceKind::Pawn => "FU"@,
        PieceKind::Lance => "KY"@,
        PieceKind::Knight => "KE"@,
        PieceKind::Silver => "GI"@,
        PieceKind::Gold => "KI"@,
        PieceKind::Bishop => "KA"@,
        PieceKind::Rook => "HI"@,
        PieceKind::King => "OU"@,
    }
}

pub fn piece_code(kind: PieceKind) -> (code: &'static str)
    ensures
        code@ == kind_code(kind),
{
    match kind {
        PieceKind::Pawn => "FU",
        PieceKind::Lance => "KY",
        PieceKind::Knight => "KE",
        PieceKind::Silver => "GI",
        PieceKind::Gold => "KI",
        PieceKind::Bishop => "KA",
        PieceKind::Rook => "HI",
        PieceKind::King => "OU",
    }
}

/// The worth of an unpromoted piece, in centipawns.
pub open spec fn kind_value(kind: PieceKind) -> int {
    match kind {
        PieceKind::Pawn => 100,
        PieceKind::Lance => 300,
        PieceKind::Knight => 320,
        PieceKind::Silver => 500,
        PieceKind::Gold => 600,
        PieceKind::Bishop => 900,
        PieceKind::Rook => 1000,
        PieceKind::King => 10000,
    }
}

pub fn piece_base_value(kind: PieceKind) -> (value: i32)
    ensures
        value == kind_value(kind),
{
    match kind {
        PieceKind::Pawn => 100,
        PieceKind::Lance => 300,
        PieceKind::Knight => 320,
        PieceKind::Silver => 500,
        PieceKind::Gold => 600,
        PieceKind::Bishop => 900,
        PieceKind::Rook => 1000,
        PieceKind::King => 10000,
    }
}

/// Golds and kings have no promoted side.
pub open spec fn promotable(kind: PieceKind) -> bool {
    kind != PieceKind::Gold && kind != PieceKind::King
}

pub fn piece_promotable(kind: PieceKind) -> (result: bool)
    ensures
        result == promotable(kind),
{
    !matches!(kind, PieceKind::Gold | PieceKind::King)
}

/// The three rows farthest from the player.
pub open spec fn promotion_zone(side: Side, row: int) -> bool {
    match side {
        Side::Black => row <= 2,
        Side::White => row >= 6,
    }
}

pub fn is_promotion_zone(side: Side, row: usize) -> (result: bool)
    ensures
        result == promotion_zone(side, row as int),
{
    match side {
        Side::Black => row <= 2,
        Side::White => row >= 6,
    }
}

/// Whether an unpromoted piece of this side and kind would never move again from `row`.
pub open spec fn dead_end(side: Side, kind: PieceKind, row: int) -> bool {
    match kind {
        PieceKind::Pawn | PieceKind::Lance => if side == Side::Black {
            row == 0
        } else {
            row == 8
        },
        PieceKind::Knight => if side == Side::Black {
            row <= 1
        } else {
            row >= 7
        },
        _ => false,
    }
}

pub fn must_promote(piece: Piece, to_row: usize) -> (result: bool)
    ensures
        result == dead_end(piece.side, piece.kind, to_row as int),
{
    match (piece.side, piece.kind) {
        (Side::Black, PieceKind::Pawn | PieceKind::Lance) => to_row == 0,
        (Side::White, PieceKind::Pawn | PieceKind::Lance) => to_row == 8,
        (Side::Black, PieceKind::Knight) => to_row <= 1,
        (Side::White, PieceKind::Knight) => to_row >= 7,
        _ => false,
    }
}

/// Where a player's hand stands among the hands.
pub open spec fn hand_of(side: Side) -> int {
    match side {
        Side::Black => 0,
        Side::White => 1,
    }
}

pub fn side_index(side: Side) -> (index: usize)
    ensures
        index == hand_of(side),
{
    match side {
        Side::Black => 0,
        Side::White => 1,
    }
}

/// Where a kind is counted in a hand. A king is never in hand.
pub open spec fn hand_slot(kind: PieceKind) -> Option<usize> {
    match kind {
        PieceKind::Pawn => Some(0),
        PieceKind::Lance => Some(1),
        PieceKind::Knight => Some(2),
        PieceKind::Silver => Some(3),
        PieceKind::Gold => Some(4),
        PieceKind::Bishop => Some(5),
        PieceKind::Rook => Some(6),
        PieceKind::King => None,
    }
}

pub fn hand_index(kind: PieceKind) -> (index: Option<usize>)
    ensures
        index == hand_slot(kind),
{
    match kind {
        PieceKind::Pawn => Some(0),
        PieceKind::Lance => Some(1),
        PieceKind::Knight => Some(2),
        PieceKind::Silver => Some(3),
        PieceKind::Gold => Some(4),
        PieceKind::Bishop => Some(5),
        PieceKind::Rook => Some(6),
        PieceKind::King => None,
    }
}

} // verus!
