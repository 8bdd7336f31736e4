//! The movement rules: which moves a player may make, and what a move does
//! to the board.

use crate::board::{
    fresh, lemma_empty_track, lemma_tile_le_track, lemma_track_nonneg, lemma_track_update,
    tile_count, track_count, under_count, GameBoard, GameColor, GamePiece, PIECES_PER_COLOR,
};
use vstd::prelude::*;

verus! {

/// A move of `player` with a roll of `distance`: from a tile, or from base
/// when `from` is `None`, to a tile, or off the track when `to` is `None`.
#[derive(Clone, Copy, PartialEq, Eq, Structural, Debug)]
pub struct PulucMove {
    pub player: GameColor,
    pub from: Option<u8>,
    pub to: Option<u8>,
    pub distance: u8,
}

/// What applying a move did.
#[derive(Clone, Copy, PartialEq, Eq, Structural, Debug)]
pub struct ApplyEffects {
    /// The mover landed on an opposing piece and trapped it.
    pub captured: bool,
    /// The mover came from base.
    pub entered: bool,
    /// The mover left the track for good.
    pub removed: bool,
    /// The mover keeps the turn.
    pub bonus_turn: bool,
    /// The mover now has all its pieces removed.
    pub game_over: bool,
}

/// Why no moves could be generated.
#[derive(Clone, Copy, PartialEq, Eq, Structural, Debug)]
pub enum RuleError {
    /// The roll lies outside 1..=5.
    InvalidDistance,
}

/// A move that is not among the legal moves of the board it was applied to.
#[derive(Clone, Copy, PartialEq, Eq, Structural, Debug)]
pub struct IllegalMoveError {}

/// `boards` is a game played with `moves`: each board follows from the one
/// before it by a move its player was allowed to make.
pub open spec fn is_play(boards: Seq<GameBoard>, moves: Seq<PulucMove>) -> bool {
    &&& boards.len() == moves.len() + 1
    &&& forall|i: int|
        0 <= i < moves.len() ==> allowed(#[trigger] boards[i], moves[i], moves[i].player)
            && successor(boards[i], moves[i], boards[i + 1])
}

// ---------------------------------------------------------------------------
// Movement rules

/// Where a piece at `t` ends after `d` steps, and whether it then travels
/// backward: a forward piece that reaches the far end turns back, and a
/// backward piece that passes tile 0 leaves the track (`None`).
pub open spec fn advance(t: int, backward: bool, d: int) -> (Option<int>, bool) {
    if backward {
        if t - d >= 0 {
            (Some(t - d), true)
        } else {
            (None, true)
        }
    } else if t + d >= 10 {
        (Some(20 - t - d), true)
    } else {
        (Some(t + d), false)
    }
}

/// The occupant left behind when the top piece `p` departs: a trapped piece
/// of the departing color surfaces first, else one of the other color, with
/// the departing piece's direction; with nothing trapped the tile empties.
pub open spec fn vacate(p: GamePiece) -> Option<GamePiece> {
    let own = under_count(p, p.color);
    let oth = under_count(p, p.color.spec_other());
    if own > 0 {
        Some(with_under(p, p.color, own - 1))
    } else if oth > 0 {
        Some(with_under(GamePiece { color: p.color.spec_other(), ..p }, p.color.spec_other(), oth - 1))
    } else {
        None
    }
}

/// `p` with its count of trapped pieces of color `c` set to `n`.
pub open spec fn with_under(p: GamePiece, c: GameColor, n: int) -> GamePiece {
    match c {
        GameColor::Black => GamePiece { black_under: n as u8, ..p },
        GameColor::White => GamePiece { white_under: n as u8, ..p },
    }
}

/// The occupant after a piece of color `c` lands on tile `t` holding `dest`:
/// whatever was there becomes trapped beneath it.
pub open spec fn land(dest: Option<GamePiece>, c: GameColor, backward: bool, t: int) -> GamePiece {
    match dest {
        None => GamePiece {
            color: c,
            tile_ind: t as u8,
            moving_backward: backward,
            black_under: 0,
            white_under: 0,
        },
        Some(_) => GamePiece {
            color: c,
            tile_ind: t as u8,
            moving_backward: backward,
            black_under: (tile_count(dest, GameColor::Black)) as u8,
            white_under: (tile_count(dest, GameColor::White)) as u8,
        },
    }
}

/// A piece of color `c` may land on a tile that is empty or held by the
/// other color, never on one its own color controls.
pub open spec fn open_to(dest: Option<GamePiece>, c: GameColor) -> bool {
    dest is None || dest->0.color != c
}

/// The move that `c` makes with a roll of `d` from `from` (base when
/// `None`), if it is legal.
pub open spec fn candidate(b: GameBoard, c: GameColor, from: Option<u8>, d: u8) -> Option<
    PulucMove,
> {
    match from {
        None => {
            if b.spec_base(c) > 0 && open_to(b.tiles@[d - 1], c) {
                Some(PulucMove { player: c, from: None, to: Some((d - 1) as u8), distance: d })
            } else {
                None
            }
        },
        Some(t) => {
            if t < 11 && b.tiles@[t as int] is Some && b.tiles@[t as int]->0.color == c {
                let p = b.tiles@[t as int]->0;
                match advance(t as int, p.moving_backward, d as int).0 {
                    None => Some(PulucMove { player: c, from, to: None, distance: d }),
                    Some(u) => {
                        let dest = if u == t { vacate(p) } else { b.tiles@[u] };
                        if open_to(dest, c) {
                            Some(PulucMove { player: c, from, to: Some(u as u8), distance: d })
                        } else {
                            None
                        }
                    },
                }
            } else {
                None
            }
        },
    }
}

pub open spec fn opt_seq(m: Option<PulucMove>) -> Seq<PulucMove> {
    match m {
        None => Seq::empty(),
        Some(x) => seq![x],
    }
}

/// The legal moves from the first `n` tiles, in tile order.
pub open spec fn tile_moves(b: GameBoard, c: GameColor, d: u8, n: nat) -> Seq<PulucMove>
    decreases n,
{
    if n == 0 {
        Seq::empty()
    } else {
        tile_moves(b, c, d, (n - 1) as nat) + opt_seq(candidate(b, c, Some((n - 1) as u8), d))
    }
}

/// All legal moves of `c` with a roll of `d`: the entry from base first,
/// then one for each tile that `c` controls, in tile order.
pub open spec fn legal_moves(b: GameBoard, c: GameColor, d: u8) -> Seq<PulucMove> {
    opt_seq(candidate(b, c, None, d)) + tile_moves(b, c, d, 11)
}

/// Whether the piece that makes `m` travels backward once it has moved.
pub open spec fn moved_backward(b: GameBoard, m: PulucMove) -> bool {
    match m.from {
        None => false,
        Some(t) => advance(t as int, b.tiles@[t as int]->0.moving_backward, m.distance as int).1,
    }
}

/// The tiles once the moving piece has left its origin.
pub open spec fn departed_tiles(b: GameBoard, m: PulucMove) -> Seq<Option<GamePiece>> {
    match m.from {
        None => b.tiles@,
        Some(t) => b.tiles@.update(t as int, vacate(b.tiles@[t as int]->0)),
    }
}

/// The tiles after `m`: the origin vacated, then the piece landed.
pub open spec fn applied_tiles(b: GameBoard, m: PulucMove) -> Seq<Option<GamePiece>> {
    let s = departed_tiles(b, m);
    match m.to {
        None => s,
        Some(u) => s.update(
            u as int,
            Some(land(s[u as int], m.player, moved_backward(b, m), u as int)),
        ),
    }
}

/// A piece leaves the track with exactly the roll it needed: its player
/// rolls again.
pub open spec fn bonus(m: PulucMove) -> bool {
    m.to is None && m.from is Some && m.distance as int == m.from->0 as int + 1
}

/// `m` is a move that `player` may make on `b`: it is that player's turn,
/// the roll is a possible one, and `m` is among the legal moves for it.
pub open spec fn allowed(b: GameBoard, m: PulucMove, player: GameColor) -> bool {
    &&& player == b.current_player
    &&& m.player == player
    &&& 1 <= m.distance <= 5
    &&& legal_moves(b, player, m.distance).contains(m)
}

/// `nb` is the board after `m` was made on `b`.
pub open spec fn successor(b: GameBoard, m: PulucMove, nb: GameBoard) -> bool {
    &&& nb.tiles@ == applied_tiles(b, m)
    &&& forall|x: GameColor|
        #![trigger nb.spec_base(x)]
        nb.spec_base(x) == b.spec_base(x) - (if x == m.player && m.from is None {
            1int
        } else {
            0int
        })
    &&& forall|x: GameColor|
        #![trigger nb.spec_removed(x)]
        nb.spec_removed(x) == b.spec_removed(x) + (if x == m.player && m.to is None {
            1int
        } else {
            0int
        })
    &&& nb.current_player == if bonus(m) {
        m.player
    } else {
        m.player.spec_other()
    }
}

/// What `m` does on `b`, given the board `nb` it leads to.
pub open spec fn effects(b: GameBoard, m: PulucMove, nb: GameBoard) -> ApplyEffects {
    ApplyEffects {
        captured: m.to is Some && departed_tiles(b, m)[m.to->0 as int] is Some,
        entered: m.from is None,
        removed: m.to is None,
        bonus_turn: bonus(m),
        game_over: nb.spec_removed(m.player) == PIECES_PER_COLOR,
    }
}

/// Every move that `legal_moves` lists is the candidate of its own origin.
proof fn lemma_tile_moves_are_candidates(b: GameBoard, c: GameColor, d: u8, n: nat)
    requires
        n <= 11,
    ensures
        forall|k: int|
            0 <= k < tile_moves(b, c, d, n).len() ==> {
                let m = #[trigger] tile_moves(b, c, d, n)[k];
                &&& m.from is Some
                &&& m.from->0 < n
                &&& candidate(b, c, m.from, d) == Some(m)
            },
    decreases n,
{
    if n > 0 {
        lemma_tile_moves_are_candidates(b, c, d, (n - 1) as nat);
        let prev = tile_moves(b, c, d, (n - 1) as nat);
        let last = opt_seq(candidate(b, c, Some((n - 1) as u8), d));
        assert forall|k: int| 0 <= k < tile_moves(b, c, d, n).len() implies {
            let m = #[trigger] tile_moves(b, c, d, n)[k];
            &&& m.from is Some
            &&& m.from->0 < n
            &&& candidate(b, c, m.from, d) == Some(m)
        } by {
            if k < prev.len() {
                assert(tile_moves(b, c, d, n)[k] == prev[k]);
            } else {
                assert(tile_moves(b, c, d, n)[k] == last[k - prev.len()]);
            }
        }
    }
}

/// Every listed move is the candidate of its origin.
pub proof fn lemma_legal_moves_are_candidates(b: GameBoard, c: GameColor, d: u8)
    ensures
        forall|k: int|
            0 <= k < legal_moves(b, c, d).len() ==> candidate(b, c, (#[trigger] legal_moves(b, c, d)[k]).from, d)
                == Some(legal_moves(b, c, d)[k]),
{
    lemma_tile_moves_are_candidates(b, c, d, 11);
    let first = opt_seq(candidate(b, c, None, d));
    let rest = tile_moves(b, c, d, 11);
    assert forall|k: int| 0 <= k < legal_moves(b, c, d).len() implies candidate(
        b,
        c,
        (#[trigger] legal_moves(b, c, d)[k]).from,
        d,
    ) == Some(legal_moves(b, c, d)[k]) by {
        if k < first.len() {
            assert(legal_moves(b, c, d)[k] == first[k]);
        } else {
            assert(legal_moves(b, c, d)[k] == rest[k - first.len()]);
        }
    }
}

/// The moves from the tiles come in increasing order of origin.
proof fn lemma_tile_moves_ordered(b: GameBoard, c: GameColor, d: u8, n: nat)
    requires
        n <= 11,
    ensures
        forall|i: int, j: int|
            0 <= i < j < tile_moves(b, c, d, n).len() ==> (#[trigger] tile_moves(b, c, d, n)[i]).from->0
                < (#[trigger] tile_moves(b, c, d, n)[j]).from->0,
    decreases n,
{
    if n > 0 {
        lemma_tile_moves_ordered(b, c, d, (n - 1) as nat);
        lemma_tile_moves_are_candidates(b, c, d, (n - 1) as nat);
        let prev = tile_moves(b, c, d, (n - 1) as nat);
        let cur = tile_moves(b, c, d, n);
        assert forall|i: int, j: int| 0 <= i < j < cur.len() implies (#[trigger] cur[i]).from->0
            < (#[trigger] cur[j]).from->0 by {
            assert(cur[i] == prev[i]);
            if j < prev.len() {
                assert(cur[j] == prev[j]);
            } else {
                assert(cur[j] == candidate(b, c, Some((n - 1) as u8), d)->0);
            }
        }
    }
}

/// No two listed moves start from the same place.
pub proof fn lemma_legal_moves_distinct_origins(b: GameBoard, c: GameColor, d: u8)
    ensures
        forall|i: int, j: int|
            0 <= i < j < legal_moves(b, c, d).len() ==> (#[trigger] legal_moves(b, c, d)[i]).from
                != (#[trigger] legal_moves(b, c, d)[j]).from,
{
    lemma_tile_moves_ordered(b, c, d, 11);
    lemma_tile_moves_are_candidates(b, c, d, 11);
    let first = opt_seq(candidate(b, c, None, d));
    let rest = tile_moves(b, c, d, 11);
    let all = legal_moves(b, c, d);
    assert forall|i: int, j: int| 0 <= i < j < all.len() implies (#[trigger] all[i]).from
        != (#[trigger] all[j]).from by {
        assert(all[j] == rest[j - first.len()]);
        if i < first.len() {
            assert(all[i] == first[i]);
        } else {
            assert(all[i] == rest[i - first.len()]);
        }
    }
}

/// A legal candidate from a tile is listed among the moves from the tiles
/// before `n`.
proof fn lemma_candidate_in_tile_moves(b: GameBoard, c: GameColor, d: u8, n: nat, t: u8)
    requires
        t < n <= 11,
        candidate(b, c, Some(t), d) is Some,
    ensures
        tile_moves(b, c, d, n).contains(candidate(b, c, Some(t), d)->0),
    decreases n,
{
    let m = candidate(b, c, Some(t), d)->0;
    let prev = tile_moves(b, c, d, (n - 1) as nat);
    let last = opt_seq(candidate(b, c, Some((n - 1) as u8), d));
    if t < n - 1 {
        lemma_candidate_in_tile_moves(b, c, d, (n - 1) as nat, t);
        let k = choose|k: int| 0 <= k < prev.len() && prev[k] == m;
        assert(tile_moves(b, c, d, n)[k] == m);
    } else {
        assert(tile_moves(b, c, d, n)[prev.len() as int] == m);
    }
}

/// A move is listed exactly when it is the legal candidate of its origin.
pub proof fn lemma_listed_iff_candidate(b: GameBoard, c: GameColor, d: u8, m: PulucMove)
    ensures
        legal_moves(b, c, d).contains(m) <==> candidate(b, c, m.from, d) == Some(m),
{
    lemma_legal_moves_are_candidates(b, c, d);
    if candidate(b, c, m.from, d) == Some(m) {
        let first = opt_seq(candidate(b, c, None, d));
        match m.from {
            None => {
                assert(legal_moves(b, c, d)[0] == m);
            },
            Some(t) => {
                lemma_candidate_in_tile_moves(b, c, d, 11, t);
                let rest = tile_moves(b, c, d, 11);
                let k = choose|k: int| 0 <= k < rest.len() && rest[k] == m;
                assert(legal_moves(b, c, d)[first.len() + k] == m);
            },
        }
    }
}

// ---------------------------------------------------------------------------
// Executable rules

fn under_of(p: GamePiece, c: GameColor) -> (r: u8)
    ensures
        r as int == under_count(p, c),
{
    match c {
        GameColor::Black => p.black_under,
        GameColor::White => p.white_under,
    }
}

fn set_under(p: GamePiece, c: GameColor, n: u8) -> (r: GamePiece)
    ensures
        r == with_under(p, c, n as int),
{
    match c {
        GameColor::Black => GamePiece { black_under: n, ..p },
        GameColor::White => GamePiece { white_under: n, ..p },
    }
}

fn vacate_tile(p: GamePiece) -> (r: Option<GamePiece>)
    ensures
        r == vacate(p),
{
    let own = under_of(p, p.color);
    let other = p.color.other();
    let oth = under_of(p, other);
    if own > 0 {
        Some(set_under(p, p.color, own - 1))
    } else if oth > 0 {
        Some(set_under(GamePiece { color: other, ..p }, other, oth - 1))
    } else {
        None
    }
}

fn is_open_to(dest: Option<GamePiece>, c: GameColor) -> (r: bool)
    ensures
        r == open_to(dest, c),
{
    match dest {
        None => true,
        Some(q) => q.color != c,
    }
}

fn advance_piece(t: u8, backward: bool, d: u8) -> (r: (Option<u8>, bool))
    requires
        t < 11,
        1 <= d <= 5,
    ensures
        r.1 == advance(t as int, backward, d as int).1,
        r.0 is Some <==> advance(t as int, backward, d as int).0 is Some,
        r.0 is Some ==> r.0->0 as int == advance(t as int, backward, d as int).0->0,
        r.0 is Some ==> r.0->0 < 11,
{
    if backward {
        if t >= d {
            (Some(t - d), true)
        } else {
            (None, true)
        }
    } else if t + d >= 10 {
        (Some(20 - t - d), true)
    } else {
        (Some(t + d), false)
    }
}

fn candidate_of(b: &GameBoard, c: GameColor, from: Option<u8>, d: u8) -> (r: Option<PulucMove>)
    requires
        1 <= d <= 5,
    ensures
        r == candidate(*b, c, from, d),
{
    match from {
        None => {
            if b.base_count(c) > 0 && is_open_to(b.tiles[(d - 1) as usize], c) {
                Some(PulucMove { player: c, from: None, to: Some(d - 1), distance: d })
            } else {
                None
            }
        },
        Some(t) => {
            if t >= 11 {
                return None;
            }
            match b.tiles[t as usize] {
                None => None,
                Some(p) => {
                    if p.color != c {
                        return None;
                    }
                    let (to, _) = advance_piece(t, p.moving_backward, d);
                    match to {
                        None => Some(PulucMove { player: c, from, to: None, distance: d }),
                        Some(u) => {
                            let dest = if u == t {
                                vacate_tile(p)
                            } else {
                                b.tiles[u as usize]
                            };
                            if is_open_to(dest, c) {
                                Some(PulucMove { player: c, from, to: Some(u), distance: d })
                            } else {
                                None
                            }
                        },
                    }
                },
            }
        },
    }
}

/// The legal moves of `player` with a roll of `roll`: an error for a roll
/// outside 1..=5, otherwise every legal move, the entry from base first and
/// then one per tile that `player` controls, in tile order. An empty list
/// means that the player passes.
pub fn generate_legal_moves(board: GameBoard, player: GameColor, roll: u8) -> (r: Result<
    Vec<PulucMove>,
    RuleError,
>)
    ensures
        r is Err <==> (roll < 1 || roll > 5),
        r is Err ==> r == Err::<Vec<PulucMove>, RuleError>(RuleError::InvalidDistance),
        r is Ok ==> r->Ok_0@ == legal_moves(board, player, roll),
        r is Ok ==> forall|i: int, j: int|
            0 <= i < j < r->Ok_0@.len() ==> (#[trigger] r->Ok_0@[i]).from != (#[trigger] r->Ok_0@[j]).from,
        r is Ok ==> forall|k: int|
            0 <= k < r->Ok_0@.len() ==> {
                let m = #[trigger] r->Ok_0@[k];
                &&& m.player == player
                &&& m.distance == roll
                &&& m.to is Some ==> open_to(departed_tiles(board, m)[m.to->0 as int], player)
            },
{
    if roll < 1 || roll > 5 {
        return Err(RuleError::InvalidDistance);
    }
    let mut moves: Vec<PulucMove> = Vec::new();
    if let Some(m) = candidate_of(&board, player, None, roll) {
        moves.push(m);
    }
    let mut t: u8 = 0;
    while t < 11
        invariant
            0 <= t <= 11,
            1 <= roll <= 5,
            moves@ == opt_seq(candidate(board, player, None, roll)) + tile_moves(
                board,
                player,
                roll,
                t as nat,
            ),
        decreases 11 - t,
    {
        let ghost before = moves@;
        if let Some(m) = candidate_of(&board, player, Some(t), roll) {
            moves.push(m);
        }
        assert(moves@ == before + opt_seq(candidate(board, player, Some(t), roll)));
        t = t + 1;
    }
    proof {
        lemma_legal_moves_are_candidates(board, player, roll);
        lemma_legal_moves_distinct_origins(board, player, roll);
    }
    Ok(moves)
}

/// Vacating a tile takes away exactly the departing piece.
proof fn lemma_vacate_count(p: GamePiece, c: GameColor)
    ensures
        tile_count(vacate(p), c) == tile_count(Some(p), c) - (if c == p.color {
            1int
        } else {
            0int
        }),
        vacate(p) is Some ==> vacate(p)->0.tile_ind == p.tile_ind,
{
}

/// Landing adds exactly the arriving piece.
proof fn lemma_land_count(dest: Option<GamePiece>, c: GameColor, backward: bool, t: int, x: GameColor)
    requires
        0 <= tile_count(dest, GameColor::Black) < 255,
        0 <= tile_count(dest, GameColor::White) < 255,
    ensures
        tile_count(Some(land(dest, c, backward, t)), x) == tile_count(dest, x) + (if x == c {
            1int
        } else {
            0int
        }),
{
}

fn land_piece(dest: Option<GamePiece>, c: GameColor, backward: bool, t: u8) -> (r: GamePiece)
    requires
        0 <= tile_count(dest, GameColor::Black) <= PIECES_PER_COLOR,
        0 <= tile_count(dest, GameColor::White) <= PIECES_PER_COLOR,
    ensures
        r == land(dest, c, backward, t as int),
{
    match dest {
        None => GamePiece {
            color: c,
            tile_ind: t,
            moving_backward: backward,
            black_under: 0,
            white_under: 0,
        },
        Some(q) => {
            let black: u8 = if q.color == GameColor::Black {
                q.black_under + 1
            } else {
                q.black_under
            };
            let white: u8 = if q.color == GameColor::White {
                q.white_under + 1
            } else {
                q.white_under
            };
            GamePiece {
                color: c,
                tile_ind: t,
                moving_backward: backward,
                black_under: black,
                white_under: white,
            }
        },
    }
}

impl GameBoard {
    /// Makes the move `mv` for `player`, returning the new board and what
    /// the move did. Fails, leaving the board as it is, unless it is
    /// `player`'s turn and `mv` is one of `player`'s legal moves for its roll.
    /// The turn passes to the other color unless the move earned a bonus.
    pub fn apply(&self, mv: PulucMove, player: GameColor) -> (r: Result<
        (GameBoard, ApplyEffects),
        IllegalMoveError,
    >)
        requires
            self.wf(),
        ensures
            r is Ok <==> allowed(*self, mv, player),
            r is Err ==> r == Err::<(GameBoard, ApplyEffects), IllegalMoveError>(
                IllegalMoveError {},
            ),
            r is Ok ==> successor(*self, mv, r->Ok_0.0),
            r is Ok ==> r->Ok_0.0.wf(),
            r is Ok ==> r->Ok_0.1 == effects(*self, mv, r->Ok_0.0),
    {
        if player != self.current_player || mv.player != player || mv.distance < 1
            || mv.distance > 5 {
            return Err(IllegalMoveError {});
        }
        proof {
            lemma_listed_iff_candidate(*self, player, mv.distance, mv);
        }
        match candidate_of(self, player, mv.from, mv.distance) {
            None => {
                return Err(IllegalMoveError {});
            },
            Some(c) => {
                if c != mv {
                    return Err(IllegalMoveError {});
                }
            },
        }
        proof {
            lemma_step_counts(*self, mv, GameColor::Black);
            lemma_step_counts(*self, mv, GameColor::White);
        }
        let mut nb = *self;
        let backward = match mv.from {
            None => {
                match player {
                    GameColor::Black => nb.black_in_base = nb.black_in_base - 1,
                    GameColor::White => nb.white_in_base = nb.white_in_base - 1,
                }
                false
            },
            Some(t) => {
                let p = self.tiles[t as usize].unwrap();
                let (_, bw) = advance_piece(t, p.moving_backward, mv.distance);
                nb.tiles[t as usize] = vacate_tile(p);
                bw
            },
        };
        assert(nb.tiles@ == departed_tiles(*self, mv));
        let mut captured = false;
        match mv.to {
            None => {
                match player {
                    GameColor::Black => nb.removed_black = nb.removed_black + 1,
                    GameColor::White => nb.removed_white = nb.removed_white + 1,
                }
            },
            Some(u) => {
                let dest = nb.tiles[u as usize];
                captured = dest.is_some();
                nb.tiles[u as usize] = Some(land_piece(dest, player, backward, u));
            },
        }
        let bonus_turn = mv.to.is_none() && match mv.from {
            Some(t) => mv.distance == t + 1,
            None => false,
        };
        nb.current_player = if bonus_turn {
            player
        } else {
            player.other()
        };
        let game_over = nb.removed_count(player) == PIECES_PER_COLOR;
        let effects = ApplyEffects {
            captured,
            entered: mv.from.is_none(),
            removed: mv.to.is_none(),
            bonus_turn,
            game_over,
        };
        assert(nb.wf());
        Ok((nb, effects))
    }
}

/// How an allowed move changes the pieces on the track: the mover's color
/// gains one when entering and loses one when leaving; every occupant stays
/// on the tile it names; and the tile it lands on holds few enough pieces.
proof fn lemma_step_counts(b: GameBoard, m: PulucMove, x: GameColor)
    requires
        b.wf(),
        allowed(b, m, m.player),
    ensures
        applied_tiles(b, m).len() == 11,
        track_count(applied_tiles(b, m), x) == track_count(b.tiles@, x) + (if x == m.player
            && m.from is None {
            1int
        } else {
            0int
        }) - (if x == m.player && m.to is None {
            1int
        } else {
            0int
        }),
        forall|i: int|
            0 <= i < 11 && (#[trigger] applied_tiles(b, m)[i]) is Some ==> applied_tiles(
                b,
                m,
            )[i]->0.tile_ind == i,
        m.to is Some ==> 0 <= tile_count(departed_tiles(b, m)[m.to->0 as int], x)
            <= PIECES_PER_COLOR,
        0 <= track_count(b.tiles@, x) <= PIECES_PER_COLOR,
{
    lemma_listed_iff_candidate(b, m.player, m.distance, m);
    let c = m.player;
    let s0 = b.tiles@;
    let s1 = departed_tiles(b, m);
    let s2 = applied_tiles(b, m);
    lemma_track_nonneg(s0, x);
    lemma_track_nonneg(s0, x.spec_other());
    match m.from {
        None => {},
        Some(t) => {
            let p = s0[t as int]->0;
            lemma_track_update(s0, t as int, vacate(p), x);
            lemma_vacate_count(p, x);
            lemma_vacate_count(p, GameColor::Black);
            lemma_vacate_count(p, GameColor::White);
        },
    }
    assert(track_count(s1, x) == track_count(s0, x) - (if x == c && m.from is Some {
        1int
    } else {
        0int
    }));
    assert(forall|i: int| 0 <= i < 11 && (#[trigger] s1[i]) is Some ==> s1[i]->0.tile_ind == i);
    match m.to {
        None => {},
        Some(u) => {
            lemma_track_nonneg(s1, x);
            lemma_tile_le_track(s1, u as int, GameColor::Black);
            lemma_tile_le_track(s1, u as int, GameColor::White);
            lemma_tile_le_track(s1, u as int, x);
            if m.from is Some {
                let t = m.from->0;
                let p = s0[t as int]->0;
                lemma_track_update(s0, t as int, vacate(p), GameColor::Black);
                lemma_track_update(s0, t as int, vacate(p), GameColor::White);
                lemma_vacate_count(p, GameColor::Black);
                lemma_vacate_count(p, GameColor::White);
            }
            let v = Some(land(s1[u as int], c, moved_backward(b, m), u as int));
            lemma_land_count(s1[u as int], c, moved_backward(b, m), u as int, x);
            lemma_track_update(s1, u as int, v, x);
        },
    }
}

/// An allowed move leads to a well-formed board.
pub proof fn lemma_successor_wf(b: GameBoard, m: PulucMove, nb: GameBoard)
    requires
        b.wf(),
        allowed(b, m, m.player),
        successor(b, m, nb),
    ensures
        nb.wf(),
{
    lemma_step_counts(b, m, GameColor::Black);
    lemma_step_counts(b, m, GameColor::White);
    assert(nb.spec_base(GameColor::Black) == nb.black_in_base);
    assert(nb.spec_base(GameColor::White) == nb.white_in_base);
    assert(nb.spec_removed(GameColor::Black) == nb.removed_black);
    assert(nb.spec_removed(GameColor::White) == nb.removed_white);
}

/// In every game played from a fresh board, each color has six pieces at
/// every moment: in base, on the track (on top or trapped) or removed.
pub proof fn lemma_population_conserved(boards: Seq<GameBoard>, moves: Seq<PulucMove>)
    requires
        is_play(boards, moves),
        fresh(boards[0]),
    ensures
        forall|i: int|
            0 <= i < boards.len() ==> (#[trigger] boards[i]).population(GameColor::Black)
                == PIECES_PER_COLOR && boards[i].population(GameColor::White) == PIECES_PER_COLOR,
{
    assert forall|i: int| 0 <= i < boards.len() implies (#[trigger] boards[i]).population(
        GameColor::Black,
    ) == PIECES_PER_COLOR && boards[i].population(GameColor::White) == PIECES_PER_COLOR by {
        lemma_wf_along_play(boards, moves, i);
    }
}

/// Every board of a game played from a fresh board is well formed.
proof fn lemma_wf_along_play(boards: Seq<GameBoard>, moves: Seq<PulucMove>, k: int)
    requires
        is_play(boards, moves),
        fresh(boards[0]),
        0 <= k < boards.len(),
    ensures
        boards[k].wf(),
    decreases k,
{
    if k == 0 {
        lemma_empty_track(boards[0].tiles@, GameColor::Black);
        lemma_empty_track(boards[0].tiles@, GameColor::White);
    } else {
        lemma_wf_along_play(boards, moves, k - 1);
        lemma_successor_wf(boards[k - 1], moves[k - 1], boards[k]);
    }
}

/// A piece that has turned back lands still moving backward, and a forward
/// piece that reaches the far end turns back: once reversed, a piece never
/// travels forward again.
pub proof fn lemma_backward_is_final(b: GameBoard, m: PulucMove, nb: GameBoard)
    requires
        b.wf(),
        allowed(b, m, m.player),
        successor(b, m, nb),
        m.from is Some,
        m.to is Some,
        b.tiles@[m.from->0 as int]->0.moving_backward || m.from->0 + m.distance >= 10,
    ensures
        nb.tiles@[m.to->0 as int] is Some,
        nb.tiles@[m.to->0 as int]->0.moving_backward,
        nb.tiles@[m.to->0 as int]->0.color == m.player,
{
    lemma_listed_iff_candidate(b, m.player, m.distance, m);
}

/// A color with all six pieces removed has no legal move left.
pub proof fn lemma_finished_color_has_no_moves(b: GameBoard, c: GameColor, d: u8)
    requires
        b.wf(),
        b.spec_removed(c) == PIECES_PER_COLOR,
        1 <= d <= 5,
    ensures
        legal_moves(b, c, d).len() == 0,
{
    lemma_track_nonneg(b.tiles@, c);
    assert forall|t: int| 0 <= t < 11 implies !((#[trigger] b.tiles@[t]) is Some
        && b.tiles@[t]->0.color == c) by {
        lemma_tile_le_track(b.tiles@, t, c);
    }
    lemma_no_tile_moves(b, c, d, 11);
}

proof fn lemma_no_tile_moves(b: GameBoard, c: GameColor, d: u8, n: nat)
    requires
        n <= 11,
        forall|t: int| 0 <= t < 11 ==> !((#[trigger] b.tiles@[t]) is Some && b.tiles@[t]->0.color == c),
    ensures
        tile_moves(b, c, d, n).len() == 0,
    decreases n,
{
    if n > 0 {
        lemma_no_tile_moves(b, c, d, (n - 1) as nat);
        assert(candidate(b, c, Some((n - 1) as u8), d) is None);
    }
}

} // verus!
