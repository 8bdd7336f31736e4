use puluc::{
    generate_legal_moves, ApplyEffects, GameBoard, GameColor, GamePiece, IllegalMoveError,
    PulucMove, RuleError,
};

fn piece(color: GameColor, tile: u8, backward: bool, black: u8, white: u8) -> GamePiece {
    GamePiece {
        color,
        tile_ind: tile,
        moving_backward: backward,
        black_under: black,
        white_under: white,
    }
}

fn count(board: &GameBoard, color: GameColor) -> u32 {
    let mut n = board.base_count(color) as u32 + board.removed_count(color) as u32;
    for i in 0..11u8 {
        if let Some(p) = board.tile_at(i) {
            if p.color == color {
                n += 1;
            }
            n += match color {
                GameColor::Black => p.black_under as u32,
                GameColor::White => p.white_under as u32,
            };
        }
    }
    n
}

/// A board whose only occupants are the given pieces, with base counts set
/// so that each color has six pieces.
fn board_with(pieces: &[GamePiece], removed_white: u8, removed_black: u8, to_move: GameColor) -> GameBoard {
    let mut b = GameBoard::new();
    for p in pieces {
        b.tiles[p.tile_ind as usize] = Some(*p);
    }
    b.removed_white = removed_white;
    b.removed_black = removed_black;
    b.current_player = to_move;
    let on_track = |c: GameColor| {
        let mut n = 0u8;
        for p in pieces {
            if p.color == c {
                n += 1;
            }
            n += match c {
                GameColor::Black => p.black_under,
                GameColor::White => p.white_under,
            };
        }
        n
    };
    b.white_in_base = 6 - removed_white - on_track(GameColor::White);
    b.black_in_base = 6 - removed_black - on_track(GameColor::Black);
    b
}

fn mv(player: GameColor, from: Option<u8>, to: Option<u8>, distance: u8) -> PulucMove {
    PulucMove { player, from, to, distance }
}

#[test]
fn new_board_is_empty() {
    let b = GameBoard::new();
    for i in 0..11 {
        assert!(b.tile_at(i).is_none());
    }
    assert!(b.tile_at(11).is_none());
    assert_eq!(b.base_count(GameColor::White), 6);
    assert_eq!(b.base_count(GameColor::Black), 6);
    assert_eq!(b.removed_count(GameColor::White), 0);
    assert_eq!(b.removed_count(GameColor::Black), 0);
    assert_eq!(b.current_player(), GameColor::White);
}

#[test]
fn fresh_board_distance_three_enters_at_tile_two() {
    let b = GameBoard::new();
    let moves = generate_legal_moves(b, GameColor::White, 3).unwrap();
    assert_eq!(moves, vec![mv(GameColor::White, None, Some(2), 3)]);
}

#[test]
fn fresh_board_entry_tile_follows_distance() {
    let b = GameBoard::new();
    for d in 1..=5u8 {
        let moves = generate_legal_moves(b, GameColor::Black, d).unwrap();
        assert_eq!(moves, vec![mv(GameColor::Black, None, Some(d - 1), d)]);
    }
}

#[test]
fn distance_out_of_range_is_rejected() {
    let b = GameBoard::new();
    assert_eq!(generate_legal_moves(b, GameColor::White, 6), Err(RuleError::InvalidDistance));
    assert_eq!(generate_legal_moves(b, GameColor::White, 255), Err(RuleError::InvalidDistance));
    assert_eq!(generate_legal_moves(b, GameColor::White, 0), Err(RuleError::InvalidDistance));
    for d in 1..=5u8 {
        assert!(generate_legal_moves(b, GameColor::White, d).is_ok());
    }
}

#[test]
fn distance_in_range_succeeds_on_a_crowded_board() {
    let b = board_with(
        &[
            piece(GameColor::White, 0, false, 1, 0),
            piece(GameColor::Black, 1, false, 0, 0),
            piece(GameColor::White, 4, true, 0, 1),
            piece(GameColor::Black, 9, true, 2, 0),
            piece(GameColor::White, 10, true, 0, 0),
        ],
        1,
        0,
        GameColor::White,
    );
    for d in 1..=5u8 {
        assert!(generate_legal_moves(b, GameColor::White, d).is_ok());
        assert!(generate_legal_moves(b, GameColor::Black, d).is_ok());
    }
}

#[test]
fn capture_traps_the_white_piece() {
    let b = GameBoard::new();
    let (b, e) = b.apply(mv(GameColor::White, None, Some(2), 3), GameColor::White).unwrap();
    assert!(e.entered && !e.captured && !e.removed && !e.bonus_turn && !e.game_over);
    assert_eq!(b.current_player(), GameColor::Black);
    assert_eq!(b.tile_at(2), Some(piece(GameColor::White, 2, false, 0, 0)));

    let moves = generate_legal_moves(b, GameColor::Black, 3).unwrap();
    assert_eq!(moves, vec![mv(GameColor::Black, None, Some(2), 3)]);
    let (b, e) = b.apply(moves[0], GameColor::Black).unwrap();
    assert_eq!(
        e,
        ApplyEffects { captured: true, entered: true, removed: false, bonus_turn: false, game_over: false }
    );
    assert_eq!(b.tile_at(2), Some(piece(GameColor::Black, 2, false, 0, 1)));
    assert_eq!(b.base_count(GameColor::White), 5);
    assert_eq!(b.base_count(GameColor::Black), 5);
    assert_eq!(count(&b, GameColor::White), 6);
    assert_eq!(count(&b, GameColor::Black), 6);
}

#[test]
fn no_landing_on_own_piece() {
    let b = board_with(&[piece(GameColor::White, 2, false, 0, 0)], 0, 0, GameColor::White);
    let moves = generate_legal_moves(b, GameColor::White, 3).unwrap();
    // the base entry would land on the own piece at 2; the piece at 2 moves to 5
    assert_eq!(moves, vec![mv(GameColor::White, Some(2), Some(5), 3)]);
    for d in 1..=5u8 {
        for m in generate_legal_moves(b, GameColor::White, d).unwrap() {
            assert_ne!(m.to, Some(2));
        }
    }
}

#[test]
fn two_moves_may_reach_the_same_empty_tile() {
    let b = board_with(&[piece(GameColor::White, 4, true, 0, 0)], 0, 0, GameColor::White);
    let moves = generate_legal_moves(b, GameColor::White, 3).unwrap();
    assert_eq!(
        moves,
        vec![mv(GameColor::White, None, Some(2), 3), mv(GameColor::White, Some(4), Some(1), 3)]
    );
}

#[test]
fn reaching_the_far_end_turns_back() {
    let b = board_with(&[piece(GameColor::White, 7, false, 0, 0)], 0, 0, GameColor::White);
    let moves = generate_legal_moves(b, GameColor::White, 3).unwrap();
    assert!(moves.contains(&mv(GameColor::White, Some(7), Some(10), 3)));
    let (b, _) = b.apply(mv(GameColor::White, Some(7), Some(10), 3), GameColor::White).unwrap();
    assert_eq!(b.tile_at(10), Some(piece(GameColor::White, 10, true, 0, 0)));
    assert!(b.tile_at(7).is_none());

    let mut b = b;
    b.current_player = GameColor::White;
    let (b, _) = b.apply(mv(GameColor::White, Some(10), Some(8), 2), GameColor::White).unwrap();
    assert_eq!(b.tile_at(8), Some(piece(GameColor::White, 8, true, 0, 0)));
}

#[test]
fn overshoot_reflects_from_the_far_end() {
    let b = board_with(&[piece(GameColor::Black, 8, false, 0, 0)], 0, 0, GameColor::Black);
    let moves = generate_legal_moves(b, GameColor::Black, 5).unwrap();
    assert!(moves.contains(&mv(GameColor::Black, Some(8), Some(7), 5)));
    let (b, _) = b.apply(mv(GameColor::Black, Some(8), Some(7), 5), GameColor::Black).unwrap();
    assert_eq!(b.tile_at(7), Some(piece(GameColor::Black, 7, true, 0, 0)));
}

#[test]
fn reflection_back_onto_its_own_tile() {
    let b = board_with(&[piece(GameColor::White, 8, false, 0, 0)], 0, 0, GameColor::White);
    let moves = generate_legal_moves(b, GameColor::White, 4).unwrap();
    assert!(moves.contains(&mv(GameColor::White, Some(8), Some(8), 4)));
    let (b, _) = b.apply(mv(GameColor::White, Some(8), Some(8), 4), GameColor::White).unwrap();
    assert_eq!(b.tile_at(8), Some(piece(GameColor::White, 8, true, 0, 0)));
}

#[test]
fn exact_exit_earns_a_bonus_turn() {
    let b = board_with(&[piece(GameColor::White, 1, true, 0, 0)], 0, 0, GameColor::White);
    let moves = generate_legal_moves(b, GameColor::White, 2).unwrap();
    assert!(moves.contains(&mv(GameColor::White, Some(1), None, 2)));
    let (nb, e) = b.apply(mv(GameColor::White, Some(1), None, 2), GameColor::White).unwrap();
    assert!(e.removed && e.bonus_turn && !e.game_over && !e.entered && !e.captured);
    assert_eq!(nb.current_player(), GameColor::White);
    assert_eq!(nb.removed_count(GameColor::White), 1);
    assert!(nb.tile_at(1).is_none());

    let (nb, e) = b.apply(mv(GameColor::White, Some(1), None, 4), GameColor::White).unwrap();
    assert!(e.removed && !e.bonus_turn);
    assert_eq!(nb.current_player(), GameColor::Black);
}

#[test]
fn last_piece_out_ends_the_game() {
    let b = board_with(&[piece(GameColor::Black, 0, true, 0, 0)], 0, 5, GameColor::Black);
    assert_eq!(b.base_count(GameColor::Black), 0);
    let (nb, e) = b.apply(mv(GameColor::Black, Some(0), None, 1), GameColor::Black).unwrap();
    assert!(e.game_over && e.removed && e.bonus_turn);
    assert_eq!(nb.removed_count(GameColor::Black), 6);
    for d in 1..=5u8 {
        assert!(generate_legal_moves(nb, GameColor::Black, d).unwrap().is_empty());
    }
}

#[test]
fn trapped_piece_surfaces_when_captor_leaves() {
    // Black holds tile 3 with one White piece trapped beneath it.
    let b = board_with(&[piece(GameColor::Black, 3, false, 0, 1)], 0, 0, GameColor::Black);
    let (nb, _) = b.apply(mv(GameColor::Black, Some(3), Some(5), 2), GameColor::Black).unwrap();
    assert_eq!(nb.tile_at(5), Some(piece(GameColor::Black, 5, false, 0, 0)));
    assert_eq!(nb.tile_at(3), Some(piece(GameColor::White, 3, false, 0, 0)));
    assert_eq!(count(&nb, GameColor::White), 6);
}

#[test]
fn own_trapped_piece_surfaces_first() {
    let b = board_with(&[piece(GameColor::White, 3, true, 1, 1)], 0, 0, GameColor::White);
    let (nb, _) = b.apply(mv(GameColor::White, Some(3), Some(1), 2), GameColor::White).unwrap();
    assert_eq!(nb.tile_at(3), Some(piece(GameColor::White, 3, true, 1, 0)));
    assert_eq!(nb.tile_at(1), Some(piece(GameColor::White, 1, true, 0, 0)));
}

#[test]
fn capture_gathers_the_whole_stack() {
    let b = board_with(
        &[piece(GameColor::Black, 4, false, 1, 2), piece(GameColor::White, 2, false, 0, 0)],
        0,
        0,
        GameColor::White,
    );
    let (nb, e) = b.apply(mv(GameColor::White, Some(2), Some(4), 2), GameColor::White).unwrap();
    assert!(e.captured);
    assert_eq!(nb.tile_at(4), Some(piece(GameColor::White, 4, false, 2, 2)));
    assert!(nb.tile_at(2).is_none());
}

#[test]
fn illegal_moves_are_refused() {
    let b = GameBoard::new();
    // not Black's turn
    assert_eq!(b.apply(mv(GameColor::Black, None, Some(2), 3), GameColor::Black), Err(IllegalMoveError {}));
    // the move's player differs from the one applying it
    assert_eq!(b.apply(mv(GameColor::Black, None, Some(2), 3), GameColor::White), Err(IllegalMoveError {}));
    // wrong destination for the roll
    assert_eq!(b.apply(mv(GameColor::White, None, Some(3), 3), GameColor::White), Err(IllegalMoveError {}));
    // no piece on the tile
    assert_eq!(b.apply(mv(GameColor::White, Some(0), Some(3), 3), GameColor::White), Err(IllegalMoveError {}));
    // impossible roll
    assert_eq!(b.apply(mv(GameColor::White, None, Some(5), 6), GameColor::White), Err(IllegalMoveError {}));
}

#[test]
fn population_is_kept_through_a_game() {
    let mut b = GameBoard::new();
    let rolls = [3u8, 3, 5, 2, 4, 1, 5, 5, 3, 2, 1, 4, 5, 5, 5, 4, 3, 2, 1, 5, 4, 4, 3, 3, 2, 2, 1, 1];
    let mut applied = 0;
    for (k, &d) in rolls.iter().enumerate() {
        let player = b.current_player();
        let moves = generate_legal_moves(b, player, d).unwrap();
        if moves.is_empty() {
            b.current_player = player.other();
            continue;
        }
        let m = moves[k % moves.len()];
        let (nb, _) = b.apply(m, player).unwrap();
        b = nb;
        applied += 1;
        assert_eq!(count(&b, GameColor::White), 6);
        assert_eq!(count(&b, GameColor::Black), 6);
        for i in 0..11u8 {
            if let Some(p) = b.tile_at(i) {
                assert_eq!(p.tile_ind, i);
            }
        }
    }
    assert!(applied > 10);
}

#[test]
fn board_text_of_fresh_board() {
    let b = GameBoard::new();
    let mut expected = String::from("BBBBBBB\n");
    for _ in 0..11 {
        expected.push_str("_\n");
    }
    expected.push_str("WWWWWWW\n");
    assert_eq!(b.to_string(), expected);
}

#[test]
fn board_text_with_pieces() {
    let b = board_with(
        &[piece(GameColor::Black, 0, false, 0, 1), piece(GameColor::White, 1, true, 0, 0)],
        0,
        0,
        GameColor::White,
    );
    let text = b.to_string();
    let lines: Vec<&str> = text.lines().collect();
    assert_eq!(lines.len(), 13);
    assert_eq!(lines[0], "BBBBBB_");
    assert_eq!(lines[1], "vB(under: 1w, 0b)");
    assert_eq!(lines[2], "vW");
    assert_eq!(lines[3], "_");
    assert_eq!(lines[12], "WWWWW__");
}

#[test]
fn other_color() {
    assert_eq!(GameColor::White.other(), GameColor::Black);
    assert_eq!(GameColor::Black.other(), GameColor::White);
}
