//! The board as text, one line per tile between the two base rows.

use crate::board::{GameBoard, GameColor, GamePiece};
use crate::text::{decimal, push_char, push_decimal, push_text};
use vstd::prelude::*;

verus! {

/// A base row: seven cells, cell `k` showing `ch` when `k <= n`, then a newline.
pub open spec fn base_row(n: u8, ch: char) -> Seq<char> {
    Seq::new(7, |k: int| if k <= n { ch } else { '_' }).push('\n')
}

/// The arrow that shows which way a piece travels on screen: Black's
/// forward is down, White's is up.
pub open spec fn arrow(p: GamePiece) -> char {
    match p.color {
        GameColor::Black => if p.moving_backward { '^' } else { 'v' },
        GameColor::White => if p.moving_backward { 'v' } else { '^' },
    }
}

pub open spec fn letter(c: GameColor) -> char {
    match c {
        GameColor::Black => 'B',
        GameColor::White => 'W',
    }
}

/// One line of the track: `_` for an empty tile, else arrow and letter,
/// followed by the trapped counts when there are any.
pub open spec fn tile_line(t: Option<GamePiece>) -> Seq<char> {
    match t {
        None => seq!['_', '\n'],
        Some(p) => {
            let head = seq![arrow(p), letter(p.color)];
            let under = if p.white_under > 0 || p.black_under > 0 {
                "(under: "@ + decimal(p.white_under as nat) + "w, "@ + decimal(
                    p.black_under as nat,
                ) + "b)"@
            } else {
                Seq::empty()
            };
            head + under + seq!['\n']
        },
    }
}

pub open spec fn track_text(s: Seq<Option<GamePiece>>) -> Seq<char>
    decreases s.len(),
{
    if s.len() == 0 {
        Seq::empty()
    } else {
        track_text(s.drop_last()) + tile_line(s.last())
    }
}

/// The board as text: Black's base, the track from tile 0 down, White's base.
pub open spec fn board_text(b: GameBoard) -> Seq<char> {
    base_row(b.black_in_base, 'B') + track_text(b.tiles@) + base_row(b.white_in_base, 'W')
}

fn push_base_row(s: &mut String, n: u8, ch: char)
    ensures
        final(s)@ == old(s)@ + base_row(n, ch),
{
    let ghost row = Seq::new(7, |k: int| if k <= n { ch } else { '_' });
    let mut k: u8 = 0;
    while k < 7
        invariant
            0 <= k <= 7,
            row == Seq::new(7, |k: int| if k <= n { ch } else { '_' }),
            s@ == old(s)@ + row.subrange(0, k as int),
        decreases 7 - k,
    {
        if k <= n {
            push_char(s, ch);
        } else {
            push_char(s, '_');
        }
        assert(row.subrange(0, k as int + 1) == row.subrange(0, k as int).push(row[k as int]));
        k = k + 1;
    }
    assert(row.subrange(0, 7) == row);
    push_char(s, '\n');
}

fn push_tile_line(s: &mut String, t: Option<GamePiece>)
    ensures
        final(s)@ == old(s)@ + tile_line(t),
{
    match t {
        None => {
            push_char(s, '_');
        },
        Some(p) => {
            match p.color {
                GameColor::Black => {
                    if p.moving_backward {
                        push_char(s, '^');
                    } else {
                        push_char(s, 'v');
                    }
                    push_char(s, 'B');
                },
                GameColor::White => {
                    if p.moving_backward {
                        push_char(s, 'v');
                    } else {
                        push_char(s, '^');
                    }
                    push_char(s, 'W');
                },
            }
            if p.white_under > 0 || p.black_under > 0 {
                push_text(s, "(under: ");
                push_decimal(s, p.white_under);
                push_text(s, "w, ");
                push_decimal(s, p.black_under);
                push_text(s, "b)");
                proof {
                    reveal_strlit("(under: ");
                    reveal_strlit("w, ");
                    reveal_strlit("b)");
                }
            }
        },
    }
    push_char(s, '\n');
}

impl GameBoard {
    /// The board as text: Black's base row, one line per tile, White's base row.
    pub fn to_string(&self) -> (r: String)
        ensures
            r@ == board_text(*self),
    {
        let mut s = String::new();
        push_base_row(&mut s, self.black_in_base, 'B');
        let ghost start = s@;
        let mut i: usize = 0;
        while i < 11
            invariant
                0 <= i <= 11,
                s@ == start + track_text(self.tiles@.subrange(0, i as int)),
            decreases 11 - i,
        {
            push_tile_line(&mut s, self.tiles[i]);
            assert(self.tiles@.subrange(0, i as int + 1).drop_last() == self.tiles@.subrange(
                0,
                i as int,
            ));
            i = i + 1;
        }
        assert(self.tiles@.subrange(0, 11) == self.tiles@);
        push_base_row(&mut s, self.white_in_base, 'W');
        s
    }
}

} // verus!
