use rusty_othello_ai::othello::{
    caculate_win, parse_state, play_choice, render_state, score_for, simulate_game, to_record,
    Action, Board, Color, Direction, Position, Row, State, StateRecord,
};

fn discs(board: &Board) -> (isize, isize) {
    let mut white = 0;
    let mut black = 0;
    for row in board.rows.iter() {
        let (w, b) = row.count_colors();
        white += w;
        black += b;
    }
    (white, black)
}

fn at(x: usize, y: usize) -> Position {
    Position::new(x, y).unwrap()
}

#[test]
fn test_board_empty_spaces() {
    let board = Board::new();
    assert_eq!(board.get_empty_positions().len(), 60);
}

#[test]
fn test_row_get_pos() {
    let board = Board::new();
    assert_eq!(board.rows[3].get_pos(3), Some(Color::WHITE));
    assert_eq!(board.rows[3].get_pos(4), Some(Color::BLACK));
    assert_eq!(board.rows[4].get_pos(4), Some(Color::WHITE));
    assert_eq!(board.rows[4].get_pos(3), Some(Color::BLACK));
    assert_eq!(board.rows[1].get_pos(3), None);
    assert_eq!(board.rows[2].get_pos(2), None);
    assert_eq!(board.rows[2].get_pos(4), None);
}

#[test]
fn test_row_set_pos() {
    let board = Board::new();
    assert!(board.rows[3].set_pos(Color::BLACK, 4).is_err());
    assert!(board.rows[3].set_pos(Color::WHITE, 3).is_err());
}

#[test]
fn row_set_pos_places_on_empty_cell() {
    let row = Row::new(0);
    let set = row.set_pos(Color::BLACK, 5).unwrap();
    assert_eq!(set.get_pos(5), Some(Color::BLACK));
    assert_eq!(set.get_pos(4), None);
    assert_eq!(set.bits(), 0b10 << 10);
    let both = set.set_pos(Color::WHITE, 0).unwrap();
    assert_eq!(both.get_pos(0), Some(Color::WHITE));
    assert_eq!(both.get_pos(5), Some(Color::BLACK));
    assert_eq!(both.bits(), (0b10 << 10) | 0b01);
}

#[test]
fn row_flip_pos_turns_a_disc_over() {
    let row = Row::new(0b1001 << 6);
    let flipped = row.flip_pos(3).unwrap();
    assert_eq!(flipped.get_pos(3), Some(Color::BLACK));
    assert_eq!(flipped.get_pos(4), Some(Color::BLACK));
    let back = flipped.flip_pos(3).unwrap();
    assert_eq!(back, row);
    assert!(row.flip_pos(0).is_err());
}

#[test]
fn row_count_colors_counts_each_colour() {
    assert_eq!(Row::new(0).count_colors(), (0, 0));
    assert_eq!(Row::new(0b1001 << 6).count_colors(), (1, 1));
    assert_eq!(Row::new(0b0101_0101_0101_0101).count_colors(), (8, 0));
    assert_eq!(Row::new(0b1010_1010_0000_0001).count_colors(), (1, 4));
}

#[test]
fn color_bitmask_tells_the_colours_apart() {
    assert_eq!(Color::BLACK.bitmask(), 0b10);
    assert_eq!(Color::WHITE.bitmask(), 0b01);
}

#[test]
fn position_new_rejects_cells_off_the_board() {
    assert_eq!(Position::new(0, 0), Some(Position { x: 0, y: 0 }));
    assert_eq!(Position::new(7, 7), Some(Position { x: 7, y: 7 }));
    assert_eq!(Position::new(8, 0), None);
    assert_eq!(Position::new(0, 8), None);
    assert_eq!(Position::new(usize::MAX, 3), None);
}

#[test]
fn position_shift_steps_in_each_direction() {
    let p = at(3, 4);
    assert_eq!(p.shift(Direction::Left), Some(at(2, 4)));
    assert_eq!(p.shift(Direction::Right), Some(at(4, 4)));
    assert_eq!(p.shift(Direction::Up), Some(at(3, 3)));
    assert_eq!(p.shift(Direction::Down), Some(at(3, 5)));
    assert_eq!(p.shift(Direction::UpLeft), Some(at(2, 3)));
    assert_eq!(p.shift(Direction::UpRight), Some(at(4, 3)));
    assert_eq!(p.shift(Direction::DownLeft), Some(at(2, 5)));
    assert_eq!(p.shift(Direction::DownRight), Some(at(4, 5)));
}

#[test]
fn position_shift_stops_at_the_edges() {
    assert_eq!(at(0, 0).shift(Direction::Left), None);
    assert_eq!(at(0, 0).shift(Direction::Up), None);
    assert_eq!(at(0, 0).shift(Direction::UpLeft), None);
    assert_eq!(at(0, 0).shift(Direction::UpRight), None);
    assert_eq!(at(0, 0).shift(Direction::DownLeft), None);
    assert_eq!(at(7, 7).shift(Direction::Right), None);
    assert_eq!(at(7, 7).shift(Direction::Down), None);
    assert_eq!(at(7, 7).shift(Direction::DownRight), None);
    assert_eq!(at(7, 7).shift(Direction::UpRight), None);
    assert_eq!(at(7, 0).shift(Direction::DownRight), None);
    assert_eq!(at(7, 7).shift(Direction::UpLeft), Some(at(6, 6)));
    let outside = Position { x: 8, y: 2 };
    assert_eq!(outside.shift(Direction::Left), Some(at(7, 2)));
    assert_eq!(outside.shift(Direction::Down), None);
    let far = Position { x: usize::MAX, y: usize::MAX };
    assert_eq!(far.shift(Direction::DownRight), None);
    assert_eq!(far.shift(Direction::UpLeft), None);
}

#[test]
fn direction_values_lists_all_eight() {
    let all = Direction::values();
    assert_eq!(all.len(), 8);
    assert_eq!(all[0], Direction::Left);
    assert_eq!(all[7], Direction::DownRight);
    for i in 0..8 {
        for j in 0..8 {
            assert_eq!(all[i] == all[j], i == j);
        }
    }
}

#[test]
fn blank_board_has_no_disc() {
    let board = Board::blank();
    assert_eq!(board.get_empty_positions().len(), 64);
    assert_eq!(discs(&board), (0, 0));
}

#[test]
fn empty_positions_come_row_by_row() {
    let cells = Board::new().get_empty_positions();
    assert_eq!(cells[0], at(0, 0));
    assert_eq!(cells[1], at(1, 0));
    assert_eq!(cells[8], at(0, 1));
    assert_eq!(cells[26], at(2, 3));
    assert_eq!(cells[27], at(5, 3));
    assert_eq!(cells[59], at(7, 7));
}

#[test]
fn would_flip_pieces_sees_a_bounded_run() {
    let board = Board::new();
    let action = Action::new(Color::BLACK, at(2, 3));
    assert!(board.would_flip_pieces(action, at(2, 3), Direction::Right));
    assert!(!board.would_flip_pieces(action, at(2, 3), Direction::Left));
    assert!(!board.would_flip_pieces(action, at(2, 3), Direction::Down));
    let white = Action::new(Color::WHITE, at(2, 3));
    assert!(!board.would_flip_pieces(white, at(2, 3), Direction::Right));
    let edge = Action::new(Color::BLACK, at(0, 0));
    assert!(!board.would_flip_pieces(edge, at(0, 0), Direction::UpLeft));
    assert!(!board.would_flip_pieces(edge, at(0, 0), Direction::DownRight));
}

#[test]
fn flip_pieces_turns_the_run_over() {
    let board = Board::new();
    let action = Action::new(Color::BLACK, at(2, 3));
    let flipped = board.flip_pieces(action, at(2, 3), Direction::Right).unwrap();
    assert_eq!(flipped.rows[3].get_pos(3), Some(Color::BLACK));
    assert_eq!(flipped.rows[3].get_pos(4), Some(Color::BLACK));
    assert_eq!(flipped.rows[3].get_pos(2), None);
    assert_eq!(flipped.rows[4], board.rows[4]);
    assert_eq!(board.flip_pieces(action, at(2, 3), Direction::Up), None);
}

#[test]
fn initial_state_is_the_standard_opening() {
    let state = State::new();
    assert_eq!(state.next_turn, Color::BLACK);
    assert_eq!(state.remaining_moves, 60);
    assert!(!state.prev_player_skipped);
    assert_eq!(state.board, Board::new());
    assert_eq!(discs(&state.board), (2, 2));
}

#[test]
fn initial_state_has_four_distinct_moves_of_black() {
    let actions = State::new().get_actions();
    assert_eq!(
        actions,
        vec![
            Action::new(Color::BLACK, at(3, 2)),
            Action::new(Color::BLACK, at(2, 3)),
            Action::new(Color::BLACK, at(5, 4)),
            Action::new(Color::BLACK, at(4, 5)),
        ]
    );
    for i in 0..actions.len() {
        assert_eq!(actions[i].color, Color::BLACK);
        for j in 0..i {
            assert_ne!(actions[i], actions[j]);
        }
    }
}

#[test]
fn is_valid_action_checks_every_direction() {
    let state = State::new();
    assert!(state.is_valid_action(Action::new(Color::BLACK, at(4, 5))));
    assert!(!state.is_valid_action(Action::new(Color::BLACK, at(5, 5))));
    assert!(!state.is_valid_action(Action::new(Color::BLACK, at(0, 0))));
    assert!(state.is_valid_action(Action::new(Color::WHITE, at(4, 2))));
}

#[test]
fn opening_move_flips_one_disc() {
    let state = State::new();
    let next = state.do_action(Some(Action::new(Color::BLACK, at(3, 2))));
    assert_eq!(discs(&next.board), (1, 4));
    assert_eq!(next.next_turn, Color::WHITE);
    assert_eq!(next.remaining_moves, 59);
    assert!(!next.prev_player_skipped);
    assert_eq!(next.board.rows[2].get_pos(3), Some(Color::BLACK));
    assert_eq!(next.board.rows[3].get_pos(3), Some(Color::BLACK));
    assert_eq!(next.board.rows[3].get_pos(4), Some(Color::BLACK));
    assert_eq!(next.board.rows[4].get_pos(3), Some(Color::BLACK));
    assert_eq!(next.board.rows[4].get_pos(4), Some(Color::WHITE));
    // The caller's state is left as it was.
    assert_eq!(state, State::new());
}

#[test]
fn a_move_flips_runs_in_several_directions() {
    // Black on (0, 0) closes a run to the right and a run downwards.
    let mut board = Board::blank();
    board.rows[0] = Row::new(0b10_01_01_00);
    board.rows[1] = Row::new(0b01);
    board.rows[2] = Row::new(0b10);
    let state = State {
        board,
        next_turn: Color::BLACK,
        remaining_moves: 59,
        prev_player_skipped: true,
    };
    assert_eq!(state.get_actions(), vec![Action::new(Color::BLACK, at(0, 0))]);
    let next = state.do_action(Some(Action::new(Color::BLACK, at(0, 0))));
    assert_eq!(next.board.rows[0], Row::new(0b10_10_10_10));
    assert_eq!(next.board.rows[1], Row::new(0b10));
    assert_eq!(next.board.rows[2], Row::new(0b10));
    assert_eq!(next.remaining_moves, 58);
    assert_eq!(next.next_turn, Color::WHITE);
    assert!(!next.prev_player_skipped);
}

#[test]
fn a_run_that_ends_on_an_empty_cell_is_left_alone() {
    // Right of (0, 0): white, white, empty. Below: white, black.
    let mut board = Board::blank();
    board.rows[0] = Row::new(0b00_01_01_00);
    board.rows[1] = Row::new(0b01);
    board.rows[2] = Row::new(0b10);
    let mut state = State {
        board,
        next_turn: Color::BLACK,
        remaining_moves: 60,
        prev_player_skipped: false,
    };
    assert!(state.flip_directions(Action::new(Color::BLACK, at(0, 0))));
    assert_eq!(state.board.rows[0], Row::new(0b00_01_01_10));
    assert_eq!(state.board.rows[1], Row::new(0b10));
    assert_eq!(state.remaining_moves, 60);
}

#[test]
fn flip_directions_refuses_what_captures_nothing() {
    let mut state = State::new();
    assert!(!state.flip_directions(Action::new(Color::BLACK, at(0, 0))));
    assert_eq!(state, State::new());
    assert!(!state.flip_directions(Action::new(Color::BLACK, at(3, 3))));
    assert_eq!(state, State::new());
}

#[test]
fn a_pass_keeps_the_board_and_hands_the_turn_over() {
    let state = State::new();
    let next = state.do_action(None);
    assert_eq!(next.board, state.board);
    assert_eq!(discs(&next.board), discs(&state.board));
    assert_eq!(next.next_turn, Color::WHITE);
    assert_eq!(next.remaining_moves, 60);
    assert!(next.prev_player_skipped);
}

#[test]
fn two_passes_in_a_row_end_the_game() {
    let once = State::new().do_action(None);
    assert_eq!(once.remaining_moves, 60);
    let twice = once.do_action(None);
    assert_eq!(twice.remaining_moves, 0);
    assert!(twice.prev_player_skipped);
    assert_eq!(twice.next_turn, Color::BLACK);
}

#[test]
fn a_pass_after_a_move_does_not_end_the_game() {
    let moved = State::new().do_action(Some(Action::new(Color::BLACK, at(3, 2))));
    let passed = moved.do_action(None);
    assert_eq!(passed.remaining_moves, 59);
    assert!(passed.prev_player_skipped);
}

#[test]
fn caculate_win_counts_discs() {
    assert_eq!(caculate_win(State::new()), None);
    let black_ahead = State::new().do_action(Some(Action::new(Color::BLACK, at(3, 2))));
    assert_eq!(caculate_win(black_ahead), Some(Color::BLACK));
    let mut board = Board::blank();
    board.rows[6] = Row::new(0b01_01);
    board.rows[7] = Row::new(0b10);
    let white_ahead = State {
        board,
        next_turn: Color::BLACK,
        remaining_moves: 0,
        prev_player_skipped: true,
    };
    assert_eq!(caculate_win(white_ahead), Some(Color::WHITE));
    assert_eq!(score_for(white_ahead, Color::WHITE), 1);
    assert_eq!(score_for(white_ahead, Color::BLACK), -1);
    assert_eq!(score_for(State::new(), Color::BLACK), 0);
}

#[test]
fn play_choice_passes_without_a_move() {
    let state = State {
        board: Board::blank(),
        next_turn: Color::WHITE,
        remaining_moves: 64,
        prev_player_skipped: false,
    };
    let actions = state.get_actions();
    assert!(actions.is_empty());
    assert_eq!(play_choice(&state, &actions, 0), state.do_action(None));
    let start = State::new();
    let moves = start.get_actions();
    assert_eq!(play_choice(&start, &moves, 2), start.do_action(Some(moves[2])));
}

#[test]
fn simulate_game_returns_a_sign() {
    for _ in 0..50 {
        let r = simulate_game(&State::new());
        assert!(r == -1 || r == 0 || r == 1);
    }
}

#[test]
fn simulate_game_scores_a_finished_game_for_the_mover() {
    let mut board = Board::blank();
    board.rows[0] = Row::new(0b01_01_10);
    let over = State {
        board,
        next_turn: Color::WHITE,
        remaining_moves: 0,
        prev_player_skipped: true,
    };
    assert_eq!(simulate_game(&over), 1);
    let for_black = State { next_turn: Color::BLACK, ..over };
    assert_eq!(simulate_game(&for_black), -1);
}

#[test]
fn simulate_game_plays_forced_lines_to_the_end() {
    // One move for black, which takes the only white disc; then nobody can move.
    let mut board = Board::blank();
    board.rows[0] = Row::new(0b00_01_10);
    let state = State {
        board,
        next_turn: Color::BLACK,
        remaining_moves: 62,
        prev_player_skipped: false,
    };
    assert_eq!(simulate_game(&state), 1);
    let as_white = State { next_turn: Color::WHITE, ..state };
    // White has no move and passes; black then takes the disc.
    assert_eq!(simulate_game(&as_white), -1);
}

fn full_column(mark: i64) -> Option<Vec<Option<i64>>> {
    Some(vec![Some(mark); 8])
}

#[test]
fn parse_state_reads_markers_and_turn() {
    let mut columns = vec![full_column(-1); 8];
    columns[2] = Some(vec![Some(-1), Some(1), Some(0), Some(-1), Some(-1), Some(7), None, Some(1)]);
    let record = StateRecord { board: Some(columns), turn: Some(true) };
    let state = parse_state(record);
    assert_eq!(state.next_turn, Color::BLACK);
    assert!(!state.prev_player_skipped);
    assert_eq!(state.board.rows[1].get_pos(2), Some(Color::WHITE));
    assert_eq!(state.board.rows[2].get_pos(2), Some(Color::BLACK));
    assert_eq!(state.board.rows[7].get_pos(2), Some(Color::WHITE));
    assert_eq!(state.board.rows[5].get_pos(2), None);
    assert_eq!(state.board.rows[6].get_pos(2), None);
    assert_eq!(discs(&state.board), (2, 1));
    assert_eq!(state.remaining_moves, 61);
}

#[test]
fn parse_state_tolerates_missing_parts() {
    let nothing = parse_state(StateRecord { board: None, turn: None });
    assert_eq!(nothing.board, Board::blank());
    assert_eq!(nothing.next_turn, Color::WHITE);
    assert_eq!(nothing.remaining_moves, 64);
    assert!(!nothing.prev_player_skipped);

    let ragged = StateRecord {
        board: Some(vec![Some(vec![Some(1)]), None, Some(vec![]), Some(vec![Some(0), Some(0)])]),
        turn: Some(false),
    };
    let state = parse_state(ragged);
    assert_eq!(state.next_turn, Color::WHITE);
    assert_eq!(state.board.rows[0].get_pos(0), Some(Color::WHITE));
    assert_eq!(state.board.rows[0].get_pos(3), Some(Color::BLACK));
    assert_eq!(state.board.rows[1].get_pos(3), Some(Color::BLACK));
    assert_eq!(discs(&state.board), (1, 2));
    assert_eq!(state.remaining_moves, 61);
}

#[test]
fn parse_state_ignores_what_lies_beyond_the_board() {
    let mut columns = vec![Some(vec![Some(-1); 12]); 11];
    columns[9] = Some(vec![Some(1); 12]);
    columns[0] = Some(vec![Some(0); 12]);
    let state = parse_state(StateRecord { board: Some(columns), turn: Some(true) });
    assert_eq!(discs(&state.board), (0, 8));
    assert_eq!(state.remaining_moves, 56);
    for y in 0..8 {
        assert_eq!(state.board.rows[y].get_pos(0), Some(Color::BLACK));
    }
}

#[test]
fn a_record_read_back_gives_the_same_board_and_mover() {
    let mut state = State::new();
    for _ in 0..6 {
        let record = to_record(&state);
        let back = parse_state(record);
        assert_eq!(back.board, state.board);
        assert_eq!(back.next_turn, state.next_turn);
        assert_eq!(back.remaining_moves as usize, state.board.get_empty_positions().len());
        let moves = state.get_actions();
        state = state.do_action(moves.first().copied());
    }
}

#[test]
fn to_record_writes_columns_of_markers() {
    let record = to_record(&State::new());
    assert_eq!(record.turn, Some(true));
    let columns = record.board.unwrap();
    assert_eq!(columns.len(), 8);
    let third = columns[3].clone().unwrap();
    assert_eq!(
        third,
        vec![Some(-1), Some(-1), Some(-1), Some(1), Some(0), Some(-1), Some(-1), Some(-1)]
    );
    let fourth = columns[4].clone().unwrap();
    assert_eq!(
        fourth,
        vec![Some(-1), Some(-1), Some(-1), Some(0), Some(1), Some(-1), Some(-1), Some(-1)]
    );
}

#[test]
fn render_state_draws_the_board() {
    let text = render_state(&State::new());
    let expected = "   0 1 2 3 4 5 6 7\n\
                    0 |_|_|_|_|_|_|_|_|\n\
                    1 |_|_|_|_|_|_|_|_|\n\
                    2 |_|_|_|_|_|_|_|_|\n\
                    3 |_|_|_|W|B|_|_|_|\n\
                    4 |_|_|_|B|W|_|_|_|\n\
                    5 |_|_|_|_|_|_|_|_|\n\
                    6 |_|_|_|_|_|_|_|_|\n\
                    7 |_|_|_|_|_|_|_|_|\n\
                    Next: Black\n";
    assert_eq!(text, expected);
    let passed = render_state(&State::new().do_action(None));
    assert!(passed.ends_with("Next: White\n"));
}
