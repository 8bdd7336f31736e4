//! The game state: colors, tile occupants, the board and its invariant.

use vstd::prelude::*;

verus! {

/// The number of pieces each color owns.
pub const PIECES_PER_COLOR: u8 = 6;

/// One of the two players.
#[derive(Clone, Copy, PartialEq, Eq, Structural, Debug)]
pub enum GameColor {
    Black,
    White,
}

impl GameColor {
    pub open spec fn spec_other(self) -> GameColor {
        match self {
            GameColor::Black => GameColor::White,
            GameColor::White => GameColor::Black,
        }
    }

    /// The opposing color.
    pub fn other(self) -> (r: GameColor)
        ensures
            r == self.spec_other(),
    {
        match self {
            GameColor::Black => GameColor::White,
            GameColor::White => GameColor::Black,
        }
    }
}

/// The occupant of a tile: its controlling piece, the direction that piece
/// travels, and how many pieces of each color lie trapped beneath it.
#[derive(Clone, Copy, PartialEq, Eq, Structural, Debug)]
pub struct GamePiece {
    pub color: GameColor,
    pub tile_ind: u8,
    pub moving_backward: bool,
    pub black_under: u8,
    pub white_under: u8,
}

/// The whole game state.
#[derive(Clone, Copy, PartialEq, Eq, Debug)]
pub struct GameBoard {
    pub tiles: [Option<GamePiece>; 11],
    pub white_in_base: u8,
    pub black_in_base: u8,
    pub removed_white: u8,
    pub removed_black: u8,
    pub current_player: GameColor,
}

// ---------------------------------------------------------------------------
// Counting pieces

/// How many pieces of color `c` a tile holds, on top or trapped.
pub open spec fn tile_count(t: Option<GamePiece>, c: GameColor) -> int {
    match t {
        None => 0,
        Some(p) => (if p.color == c { 1int } else { 0int }) + under_count(p, c),
    }
}

/// How many pieces of color `c` are trapped beneath `p`.
pub open spec fn under_count(p: GamePiece, c: GameColor) -> int {
    match c {
        GameColor::Black => p.black_under as int,
        GameColor::White => p.white_under as int,
    }
}

/// How many pieces of color `c` the tiles hold.
pub open spec fn track_count(s: Seq<Option<GamePiece>>, c: GameColor) -> int
    decreases s.len(),
{
    if s.len() == 0 {
        0
    } else {
        track_count(s.drop_last(), c) + tile_count(s.last(), c)
    }
}

impl GameBoard {
    pub open spec fn spec_base(&self, c: GameColor) -> int {
        match c {
            GameColor::Black => self.black_in_base as int,
            GameColor::White => self.white_in_base as int,
        }
    }

    pub open spec fn spec_removed(&self, c: GameColor) -> int {
        match c {
            GameColor::Black => self.removed_black as int,
            GameColor::White => self.removed_white as int,
        }
    }

    /// Every piece of color `c` is in base, on the track or removed.
    pub open spec fn population(&self, c: GameColor) -> int {
        self.spec_base(c) + track_count(self.tiles@, c) + self.spec_removed(c)
    }

    /// The board's invariant: each occupant knows its tile, and no piece is
    /// lost or made.
    pub open spec fn wf(&self) -> bool {
        &&& forall|i: int|
            0 <= i < 11 && (#[trigger] self.tiles@[i]) is Some ==> self.tiles@[i]->0.tile_ind == i
        &&& self.population(GameColor::Black) == PIECES_PER_COLOR
        &&& self.population(GameColor::White) == PIECES_PER_COLOR
    }
}

/// The board a game starts from: all pieces in base, White to move.
pub open spec fn fresh(b: GameBoard) -> bool {
    &&& forall|i: int| 0 <= i < 11 ==> (#[trigger] b.tiles@[i]) is None
    &&& b.white_in_base == PIECES_PER_COLOR && b.black_in_base == PIECES_PER_COLOR
    &&& b.removed_white == 0 && b.removed_black == 0
    &&& b.current_player == GameColor::White
}

impl GameBoard {
    /// A fresh board: every piece in base, White to move.
    pub fn new() -> (r: Self)
        ensures
            r.wf(),
            fresh(r),
    {
        let r = GameBoard {
            tiles: [None, None, None, None, None, None, None, None, None, None, None],
            white_in_base: 6,
            black_in_base: 6,
            removed_white: 0,
            removed_black: 0,
            current_player: GameColor::White,
        };
        proof {
            lemma_empty_track(r.tiles@, GameColor::Black);
            lemma_empty_track(r.tiles@, GameColor::White);
        }
        r
    }

    /// The number of pieces of color `c` still in base.
    pub fn base_count(&self, c: GameColor) -> (r: u8)
        ensures
            r as int == self.spec_base(c),
    {
        match c {
            GameColor::Black => self.black_in_base,
            GameColor::White => self.white_in_base,
        }
    }

    /// The number of pieces of color `c` that have left the track.
    pub fn removed_count(&self, c: GameColor) -> (r: u8)
        ensures
            r as int == self.spec_removed(c),
    {
        match c {
            GameColor::Black => self.removed_black,
            GameColor::White => self.removed_white,
        }
    }

    /// The occupant of tile `i`; `None` for an empty tile or one past the end.
    pub fn tile_at(&self, i: u8) -> (r: Option<GamePiece>)
        ensures
            i < 11 ==> r == self.tiles@[i as int],
            i >= 11 ==> r is None,
    {
        if i < 11 {
            self.tiles[i as usize]
        } else {
            None
        }
    }

    /// The color whose turn it is.
    pub fn current_player(&self) -> (r: GameColor)
        ensures
            r == self.current_player,
    {
        self.current_player
    }
}

pub(crate) proof fn lemma_track_nonneg(s: Seq<Option<GamePiece>>, c: GameColor)
    ensures
        track_count(s, c) >= 0,
    decreases s.len(),
{
    if s.len() > 0 {
        lemma_track_nonneg(s.drop_last(), c);
    }
}

/// One tile holds no more pieces of a color than the whole track.
pub(crate) proof fn lemma_tile_le_track(s: Seq<Option<GamePiece>>, i: int, c: GameColor)
    requires
        0 <= i < s.len(),
    ensures
        0 <= tile_count(s[i], c) <= track_count(s, c),
    decreases s.len(),
{
    lemma_track_nonneg(s.drop_last(), c);
    if i < s.len() - 1 {
        lemma_tile_le_track(s.drop_last(), i, c);
        assert(s.drop_last()[i] == s[i]);
    }
}

/// Replacing one tile changes the count by the difference of the two tiles.
pub(crate) proof fn lemma_track_update(s: Seq<Option<GamePiece>>, i: int, v: Option<GamePiece>, c: GameColor)
    requires
        0 <= i < s.len(),
    ensures
        track_count(s.update(i, v), c) == track_count(s, c) - tile_count(s[i], c) + tile_count(
            v,
            c,
        ),
    decreases s.len(),
{
    let t = s.update(i, v);
    if i == s.len() - 1 {
        assert(t.drop_last() == s.drop_last());
    } else {
        assert(t.drop_last() == s.drop_last().update(i, v));
        lemma_track_update(s.drop_last(), i, v, c);
    }
}

/// A track with no occupant holds no piece of any color.
pub(crate) proof fn lemma_empty_track(s: Seq<Option<GamePiece>>, c: GameColor)
    requires
        forall|i: int| 0 <= i < s.len() ==> (#[trigger] s[i]) is None,
    ensures
        track_count(s, c) == 0,
    decreases s.len(),
{
    if s.len() > 0 {
        lemma_empty_track(s.drop_last(), c);
    }
}

} // verus!
