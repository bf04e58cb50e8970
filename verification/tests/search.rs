use rusty_othello_ai::mcts::key::state_key;
use rusty_othello_ai::mcts::{Node, MCTS};
use rusty_othello_ai::othello::{
    caculate_win, Action, Board, Color, Position, Row, State,
};
use std::cell::RefCell;

/// The usual rating: the mean score plus a bonus for rarely visited
/// children, as a number that orders like the float.
fn ucb(explore: f32) -> impl Fn(isize, usize, usize) -> i64 {
    move |score: isize, visits: usize, parent_visits: usize| {
        let value = (score as f32 / visits as f32)
            + explore * (2.0 * (parent_visits as f32).ln() / visits as f32).sqrt();
        if value.is_nan() {
            i64::MIN
        } else {
            (value as f64 * 1_000_000.0) as i64
        }
    }
}

fn quiet(_done: usize, _total: usize, _color: &Color) {}

fn at(x: usize, y: usize) -> Position {
    Position::new(x, y).unwrap()
}

fn stuck_state() -> State {
    // A single white disc: neither colour can capture anything.
    let mut board = Board::blank();
    board.rows[0] = Row::new(0b01);
    State { board, next_turn: Color::BLACK, remaining_moves: 63, prev_player_skipped: false }
}

#[test]
fn node_new_starts_without_visits() {
    let state = State::new();
    let node = Node::new(state, None, state.get_actions());
    assert_eq!(node.state, state);
    assert_eq!(node.action, None);
    assert_eq!(node.untried_actions, state.get_actions());
    assert_eq!(node.visits, 0);
    assert_eq!(node.score, 0);
}

#[test]
fn update_node_signs_the_result_by_the_mover() {
    let state = State::new();
    let mut node = Node::new(state, None, Vec::new());
    node.update_node((Color::BLACK, 1));
    assert_eq!((node.visits, node.score), (1, 1));
    node.update_node((Color::WHITE, 1));
    assert_eq!((node.visits, node.score), (2, 0));
    node.update_node((Color::WHITE, -1));
    assert_eq!((node.visits, node.score), (3, 1));
    node.update_node((Color::BLACK, 0));
    assert_eq!((node.visits, node.score), (4, 1));
    node.update_node((Color::BLACK, -1));
    assert_eq!((node.visits, node.score), (5, 0));
}

#[test]
fn a_new_tree_is_empty() {
    let mcts = MCTS::new("true", ucb(1.0));
    assert_eq!(mcts.size, 0);
}

#[test]
fn search_without_iterations_recommends_nothing() {
    let mut mcts = MCTS::new("true", ucb(1.0));
    assert_eq!(mcts.search(State::new(), 0, quiet), Err(()));
    assert_eq!(mcts.size, 1);
    assert_eq!(mcts.node(0).state, State::new());
    assert_eq!(mcts.node(0).visits, 0);
    assert_eq!(mcts.parent(0), None);
    assert!(mcts.children(0).is_empty());
    assert_eq!(mcts.node(0).untried_actions, State::new().get_actions());
}

#[test]
fn search_from_the_initial_state_recommends_a_legal_move() {
    let legal = State::new().get_actions();
    for iterations in [1usize, 2, 3, 4, 5, 17, 200] {
        let mut mcts = MCTS::new("false", ucb(1.0));
        let action = mcts.search(State::new(), iterations, quiet).unwrap();
        assert!(legal.contains(&action));
        assert_eq!(action.color, Color::BLACK);
    }
}

#[test]
fn search_adds_one_node_in_each_iteration() {
    let mut mcts = MCTS::new("true", ucb(1.4));
    mcts.search(State::new(), 25, quiet).unwrap();
    assert_eq!(mcts.size, 26);
    assert_eq!(mcts.node(0).visits, 25);
    // The same state again: the tree goes on from its node.
    mcts.search(State::new(), 10, quiet).unwrap();
    assert_eq!(mcts.size, 36);
    assert_eq!(mcts.node(0).visits, 35);
    // Without iterations the tree still recommends what it has found.
    let again = mcts.search(State::new(), 0, quiet);
    assert!(again.is_ok());
    assert_eq!(mcts.size, 36);
}

#[test]
fn search_goes_on_from_a_state_that_the_tree_holds() {
    let mut mcts = MCTS::new("true", ucb(1.0));
    let start = State::new();
    let first = mcts.search(start, 40, quiet).unwrap();
    let next = start.do_action(Some(first));
    let before = mcts.size;
    let reply = mcts.search(next, 15, quiet).unwrap();
    // The state after the recommended move was a child of the root: no new root.
    assert_eq!(mcts.size, before + 15);
    assert!(next.get_actions().contains(&reply));
    // A state that the tree has never seen gets a root of its own.
    let other = stuck_state();
    assert_eq!(mcts.search(other, 3, quiet), Err(()));
    assert_eq!(mcts.size, before + 15 + 1 + 3);
}

#[test]
fn the_tree_keeps_its_books() {
    let mut mcts = MCTS::new("true", ucb(1.0));
    mcts.search(State::new(), 300, quiet).unwrap();
    assert_eq!(mcts.size, 301);
    for index in 0..mcts.size {
        let node = mcts.node(index);
        let children = mcts.children(index);
        // One visit for the playout of the node itself, one for each below it.
        let below: usize = children.iter().map(|c| mcts.node(*c).visits).sum();
        let own = if index == 0 { 0 } else { 1 };
        assert_eq!(node.visits, below + own);
        assert!(node.score.unsigned_abs() <= node.visits);
        for child in children {
            assert!(*child > index);
            assert_eq!(mcts.parent(*child), Some(index));
            let made = mcts.node(*child);
            assert_eq!(made.state, node.state.do_action(made.action));
            if let Some(action) = made.action {
                assert!(node.state.get_actions().contains(&action));
                assert!(!node.untried_actions.contains(&action));
            } else {
                assert!(node.state.get_actions().is_empty() || node.state.remaining_moves == 0);
            }
        }
        if let Some(parent) = mcts.parent(index) {
            assert!(mcts.children(parent).contains(&index));
        } else {
            assert_eq!(index, 0);
        }
        // Tried and untried moves together are the legal moves, each once.
        let legal = node.state.get_actions();
        if !children.is_empty() && node.state.remaining_moves > 0 {
            assert_eq!(children.len() + node.untried_actions.len(), legal.len().max(1));
        }
    }
}

#[test]
fn search_recommends_the_child_with_the_most_visits() {
    let mut mcts = MCTS::new("true", ucb(1.0));
    let action = mcts.search(State::new(), 150, quiet).unwrap();
    let children = mcts.children(0);
    assert_eq!(children.len(), 4);
    let most = children.iter().map(|c| mcts.node(*c).visits).max().unwrap();
    let first = children.iter().find(|c| mcts.node(**c).visits == most).unwrap();
    assert_eq!(mcts.node(*first).action, Some(action));
}

#[test]
fn the_descent_follows_the_rating() {
    // A rating that likes many visits sends every descent into the child
    // that was made first, once all moves of the root are tried.
    let mut mcts = MCTS::new("true", |_score: isize, visits: usize, _parent: usize| visits as i64);
    mcts.search(State::new(), 60, quiet).unwrap();
    let children = mcts.children(0).clone();
    assert_eq!(children, vec![1, 2, 3, 4]);
    assert_eq!(mcts.node(1).visits, 57);
    assert_eq!(mcts.node(2).visits, 1);
    assert_eq!(mcts.node(3).visits, 1);
    assert_eq!(mcts.node(4).visits, 1);
    // With equal ratings the child that was made first is taken as well.
    let mut flat = MCTS::new("true", |_score: isize, _visits: usize, _parent: usize| 0i64);
    flat.search(State::new(), 60, quiet).unwrap();
    assert_eq!(flat.node(1).visits, 57);
    // A rating that likes few visits spreads them.
    let mut wide = MCTS::new("true", |_score: isize, visits: usize, _parent: usize| {
        -(visits as i64)
    });
    wide.search(State::new(), 60, quiet).unwrap();
    for child in 1..5 {
        assert_eq!(wide.node(child).visits, 15);
    }
}

#[test]
fn search_passes_where_no_move_is_legal() {
    let mut mcts = MCTS::new("false", ucb(1.0));
    let state = stuck_state();
    assert_eq!(mcts.search(state, 5, quiet), Err(()));
    assert_eq!(mcts.size, 6);
    // A chain of passes: each node has the one before it as its parent.
    for index in 1..6 {
        assert_eq!(mcts.parent(index), Some(index - 1));
        assert_eq!(mcts.node(index).action, None);
    }
    assert_eq!(mcts.node(1).state, state.do_action(None));
    assert_eq!(mcts.node(2).state.remaining_moves, 0);
}

#[test]
fn search_offers_no_move_once_the_game_is_over() {
    let over = State::new().do_action(None).do_action(None);
    assert_eq!(over.remaining_moves, 0);
    assert!(!over.get_actions().is_empty());
    let mut mcts = MCTS::new("true", ucb(1.0));
    assert_eq!(mcts.search(over, 4, quiet), Err(()));
    assert!(mcts.node(0).untried_actions.is_empty());
}

#[test]
fn search_reports_its_progress() {
    let calls: RefCell<Vec<(usize, usize, Color)>> = RefCell::new(Vec::new());
    let mut mcts = MCTS::new("false", ucb(1.0));
    mcts.search(State::new(), 2001, |done: usize, total: usize, color: &Color| {
        calls.borrow_mut().push((done, total, *color));
    })
    .unwrap();
    assert_eq!(
        *calls.borrow(),
        vec![(0, 2001, Color::BLACK), (1000, 2001, Color::BLACK), (2000, 2001, Color::BLACK)]
    );
    let mut white = MCTS::new("anything", ucb(1.0));
    calls.borrow_mut().clear();
    white
        .search(State::new(), 1, |done: usize, total: usize, color: &Color| {
            calls.borrow_mut().push((done, total, *color));
        })
        .unwrap();
    assert_eq!(*calls.borrow(), vec![(0, 1, Color::WHITE)]);
}

#[test]
fn two_engines_play_a_game_to_its_end() {
    let mut black = MCTS::new("false", ucb(1.0));
    let mut white = MCTS::new("true", ucb(2.0));
    let mut state = State::new();
    let mut plies = 0;
    while state.remaining_moves > 0 {
        assert!(plies < 200, "the game does not end");
        let engine = if state.next_turn == Color::BLACK { &mut black } else { &mut white };
        let choice = engine.search(state, 30, quiet);
        match choice {
            Ok(action) => {
                assert!(state.get_actions().contains(&action));
                state = state.do_action(Some(action));
            }
            Err(()) => {
                assert!(state.get_actions().is_empty());
                state = state.do_action(None);
            }
        }
        plies += 1;
    }
    assert!(plies >= 9);
    let empty = state.board.get_empty_positions().len();
    let (mut w, mut b) = (0, 0);
    for row in state.board.rows.iter() {
        let (rw, rb) = row.count_colors();
        w += rw;
        b += rb;
    }
    assert_eq!(w as usize + b as usize + empty, 64);
    let expected = if w > b {
        Some(Color::WHITE)
    } else if b > w {
        Some(Color::BLACK)
    } else {
        None
    };
    assert_eq!(caculate_win(state), expected);
}

#[test]
fn search_takes_an_immediate_capture_into_account() {
    // Black has exactly one move; the search must recommend it.
    let mut board = Board::blank();
    board.rows[0] = Row::new(0b00_01_10);
    let state =
        State { board, next_turn: Color::BLACK, remaining_moves: 62, prev_player_skipped: false };
    let mut mcts = MCTS::new("false", ucb(1.0));
    assert_eq!(mcts.search(state, 10, quiet), Ok(Action::new(Color::BLACK, at(2, 0))));
}

#[test]
fn state_key_packs_the_board_and_the_flags() {
    let start = State::new();
    let board = (576u128 << 64) + (384u128 << 48);
    assert_eq!(state_key(&start), (board, 240));
    let passed = start.do_action(None);
    assert_eq!(state_key(&passed), (board, 243));
    let mut rows = Board::blank();
    rows.rows[0] = Row::new(1);
    rows.rows[7] = Row::new(2);
    let state =
        State { board: rows, next_turn: Color::WHITE, remaining_moves: 255, prev_player_skipped: false };
    assert_eq!(state_key(&state), ((1u128 << 112) + 2, 1022));
}

#[test]
fn states_that_differ_have_keys_that_differ() {
    let start = State::new();
    let mut seen = vec![state_key(&start)];
    let mut state = start;
    for _ in 0..8 {
        let moves = state.get_actions();
        state = state.do_action(moves.last().copied());
        let key = state_key(&state);
        assert!(!seen.contains(&key));
        seen.push(key);
    }
    let turned = State { next_turn: Color::WHITE, ..start };
    assert_ne!(state_key(&turned), state_key(&start));
    let flagged = State { prev_player_skipped: true, ..start };
    assert_ne!(state_key(&flagged), state_key(&start));
    let shorter = State { remaining_moves: 59, ..start };
    assert_ne!(state_key(&shorter), state_key(&start));
}
