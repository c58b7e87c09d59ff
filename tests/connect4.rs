use connect4::board::{Connect4, Connect4Error};
use connect4::grid::Status;
use connect4::player::Player;
use connect4::random_play::random_order;
use connect4::search::next_move;

const H: Player = Player::Human;
const C: Player = Player::Computer;

fn cells_of(b: &Connect4) -> Vec<Vec<Option<Player>>> {
    b.board.clone()
}

/// Fills a 6x7 board, bottom up, with a pattern holding no four in a row,
/// leaving the top-right cell empty.
fn nearly_full_board() -> Connect4 {
    let mut b = Connect4::new(6, 7);
    for c in 0..7usize {
        for r in (0..6usize).rev() {
            if r == 0 && c == 6 {
                continue;
            }
            let p = if (r / 2 + c) % 2 == 0 { H } else { C };
            assert!(b.drop_piece(p, c).is_ok());
        }
    }
    b
}

#[test]
fn test_this() {}

#[test]
fn new_board_is_empty() {
    let b = Connect4::new(6, 7);
    assert_eq!(b.rows, 6);
    assert_eq!(b.cols, 7);
    for r in 0..6 {
        for c in 0..7 {
            assert_eq!(b.cell(r, c), None);
        }
    }
    assert_eq!(b.get_count(), 0);
}

#[test]
fn drop_lands_on_lowest_empty_cell() {
    let mut b = Connect4::new(6, 7);
    assert_eq!(b.drop_piece(H, 3).ok(), Some(5));
    assert_eq!(b.drop_piece(C, 3).ok(), Some(4));
    assert_eq!(b.drop_piece(H, 0).ok(), Some(5));
    assert_eq!(b.cell(5, 3), Some(H));
    assert_eq!(b.cell(4, 3), Some(C));
    assert_eq!(b.cell(5, 0), Some(H));
    assert_eq!(b.cell(3, 3), None);
}

#[test]
fn place_then_retract_restores_board() {
    let mut b = Connect4::new(6, 7);
    b.drop_piece(H, 2).ok();
    b.drop_piece(C, 2).ok();
    let before = cells_of(&b);
    let row = b.drop_piece(H, 2).ok().unwrap();
    assert_eq!(row, 3);
    assert_ne!(cells_of(&b), before);
    b.retract(row, 2);
    assert_eq!(cells_of(&b), before);
}

#[test]
fn full_column_is_refused_without_change() {
    let mut b = Connect4::new(6, 7);
    for i in 0..6 {
        let p = if i % 2 == 0 { H } else { C };
        assert!(b.drop_piece(p, 4).is_ok());
    }
    let before = cells_of(&b);
    assert!(matches!(b.drop_piece(H, 4), Err(Connect4Error::InvalidMove)));
    assert_eq!(cells_of(&b), before);
    assert!(b.drop_piece(H, 5).is_ok());
}

#[test]
fn window_scores_follow_the_table() {
    let b = Connect4::new(1, 4);
    assert_eq!(b.score(&[Some(H), Some(H), Some(H), Some(H)]), -100);
    assert_eq!(b.score(&[Some(H), None, Some(H), Some(H)]), -50);
    assert_eq!(b.score(&[Some(H), None, None, Some(H)]), -20);
    assert_eq!(b.score(&[None, None, None, Some(H)]), -10);
    assert_eq!(b.score(&[Some(C), Some(C), Some(C), Some(C)]), 100);
    assert_eq!(b.score(&[Some(C), Some(C), None, Some(C)]), 50);
    assert_eq!(b.score(&[None, Some(C), Some(C), None]), 20);
    assert_eq!(b.score(&[Some(C), None, None, None]), 10);
    assert_eq!(b.score(&[None, None, None, None]), 0);
    assert_eq!(b.score(&[Some(C), Some(H), None, None]), 0);
    assert_eq!(b.score(&[Some(C), Some(H), Some(C), Some(C)]), 0);
}

#[test]
fn heuristic_of_empty_board_is_zero() {
    let b = Connect4::new(6, 7);
    assert_eq!(b.score_based_current_state(), (0, true));
}

#[test]
fn heuristic_counts_every_window_through_a_piece() {
    let mut b = Connect4::new(6, 7);
    b.drop_piece(H, 0).ok();
    // a row, a column and a down-left diagonal window hold the piece
    assert_eq!(b.score_based_current_state(), (-30, true));
    b.drop_piece(C, 1).ok();
    // windows with both pieces score nothing; the others count
    let (score, empty) = b.score_based_current_state();
    assert!(empty);
    assert_eq!(score, -10 - 10 + 10 + 10 + 10 + 0);
}

#[test]
fn heuristic_is_zero_when_every_window_is_mixed_or_empty() {
    let mut b = Connect4::new(1, 4);
    b.drop_piece(H, 0).ok();
    b.drop_piece(C, 3).ok();
    assert_eq!(b.score_based_current_state(), (0, true));
}

#[test]
fn empty_board_is_running() {
    let b = Connect4::new(6, 7);
    let (cells, (status, score)) = b.check_winner();
    assert!(cells.is_empty());
    assert_eq!(status, Status::Running);
    assert_eq!(score, 0);
}

#[test]
fn vertical_four_wins() {
    let mut b = Connect4::new(6, 7);
    b.drop_piece(H, 3).ok();
    b.drop_piece(C, 0).ok();
    b.drop_piece(H, 3).ok();
    b.drop_piece(C, 1).ok();
    b.drop_piece(H, 3).ok();
    b.drop_piece(C, 2).ok();
    assert_eq!(b.check_winner().1 .0, Status::Running);
    let (cells, (status, _)) = b.move_and_check(H, 3).ok().unwrap();
    assert_eq!(status, Status::WonBy(H));
    assert_eq!(cells, vec![(2, 3), (3, 3), (4, 3), (5, 3)]);
}

#[test]
fn horizontal_four_wins() {
    let mut b = Connect4::new(6, 7);
    for c in 1..4 {
        b.drop_piece(C, c).ok();
        b.drop_piece(H, c).ok();
    }
    let (cells, (status, _)) = b.move_and_check(C, 4).ok().unwrap();
    assert_eq!(status, Status::WonBy(C));
    assert_eq!(cells, vec![(5, 1), (5, 2), (5, 3), (5, 4)]);
}

#[test]
fn diagonal_four_wins() {
    let mut b = Connect4::new(6, 7);
    // down-left diagonal of Human from (2, 3) to (5, 0)
    b.drop_piece(H, 0).ok();
    b.drop_piece(C, 1).ok();
    b.drop_piece(H, 1).ok();
    b.drop_piece(C, 2).ok();
    b.drop_piece(C, 2).ok();
    b.drop_piece(H, 2).ok();
    b.drop_piece(C, 3).ok();
    b.drop_piece(C, 3).ok();
    b.drop_piece(C, 3).ok();
    let (cells, (status, _)) = b.move_and_check(H, 3).ok().unwrap();
    assert_eq!(status, Status::WonBy(H));
    assert_eq!(cells, vec![(2, 3), (3, 2), (4, 1), (5, 0)]);
}

#[test]
fn full_board_without_line_is_a_tie() {
    let mut b = nearly_full_board();
    let (cells, (status, _)) = b.check_winner();
    assert!(cells.is_empty());
    assert_eq!(status, Status::Running);
    let (cells, (status, _)) = b.move_and_check(C, 6).ok().unwrap();
    assert!(cells.is_empty());
    assert_eq!(status, Status::Tie);
    assert!(!b.score_based_current_state().1);
}

#[test]
fn search_on_full_board_fails() {
    let mut b = nearly_full_board();
    b.drop_piece(C, 6).ok();
    assert!(matches!(b.smart_move(H), Err(Connect4Error::InvalidMove)));
    assert_eq!(b.best_column(C), None);
}

#[test]
fn search_from_empty_board_plays_a_legal_column() {
    let mut b = Connect4::new(6, 7);
    let (cells, (status, _)) = b.smart_move(H).ok().unwrap();
    assert!(cells.is_empty());
    assert_eq!(status, Status::Running);
    let bottom: Vec<usize> = (0..7).filter(|&c| b.cell(5, c) == Some(H)).collect();
    assert_eq!(bottom.len(), 1);
    assert!(bottom[0] < 7);
    let nodes = b.get_count();
    assert!(nodes > 0);
    // at most every node of a full tree of branching 7 and depth 6 under each root move
    let mut tree: u64 = 0;
    let mut level: u64 = 1;
    for _ in 0..7 {
        tree += level;
        level *= 7;
    }
    assert!(nodes <= 7 * tree);
}

#[test]
fn search_never_picks_a_full_column() {
    let mut b = Connect4::new(6, 7);
    for i in 0..6 {
        let p = if i % 2 == 0 { H } else { C };
        b.drop_piece(p, 0).ok();
    }
    let before = cells_of(&b);
    let col = b.best_column(C).unwrap();
    assert_ne!(col, 0);
    assert!(col < 7);
    assert_eq!(cells_of(&b), before);
}

#[test]
fn search_leaves_only_one_column_choice() {
    let mut b = Connect4::new(2, 3);
    b.drop_piece(H, 0).ok();
    b.drop_piece(C, 0).ok();
    b.drop_piece(H, 2).ok();
    b.drop_piece(C, 2).ok();
    assert_eq!(b.best_column(H), Some(1));
    let state = next_move(C, &mut b).ok().unwrap();
    assert_eq!(state.1 .0, Status::Running);
    assert_eq!(b.cell(1, 1), Some(C));
}

#[test]
fn minimax_at_depth_limit_returns_heuristic() {
    let mut b = Connect4::new(6, 7);
    b.drop_piece(H, 0).ok();
    assert_eq!(b.minimax(C, true, i32::MIN, i32::MAX, 6), -30);
    assert_eq!(b.cell(5, 0), Some(H));
    assert_eq!(b.cell(4, 0), None);
}

#[test]
fn minimax_on_one_cell_board() {
    // one open cell: the only move by Computer fills it
    let mut b = Connect4::new(1, 4);
    b.drop_piece(C, 0).ok();
    b.drop_piece(C, 1).ok();
    b.drop_piece(C, 2).ok();
    assert_eq!(b.minimax(C, true, i32::MIN, i32::MAX, 0), 100);
    assert_eq!(b.minimax(H, false, i32::MIN, i32::MAX, 0), 0);
    assert_eq!(b.cell(0, 3), None);
}

#[test]
fn random_move_takes_the_only_open_column() {
    let mut b = Connect4::new(2, 3);
    b.drop_piece(H, 0).ok();
    b.drop_piece(C, 0).ok();
    b.drop_piece(H, 1).ok();
    b.drop_piece(C, 1).ok();
    let (_, (status, _)) = b.random_move(H).ok().unwrap();
    assert_eq!(status, Status::Running);
    assert_eq!(b.cell(1, 2), Some(H));
    b.drop_piece(C, 2).ok();
    assert!(matches!(b.random_move(H), Err(Connect4Error::InvalidMove)));
}

#[test]
fn random_order_is_a_permutation() {
    for n in 0..10usize {
        let mut order = random_order(n);
        order.sort();
        assert_eq!(order, (0..n).collect::<Vec<usize>>());
    }
}

#[test]
fn players_alternate() {
    assert_eq!(H.other(), C);
    assert_eq!(C.other(), H);
    assert_eq!(H.piece(), '\u{1F534}');
    assert_eq!(C.piece(), '\u{1F7E1}');
}

#[test]
fn play_first_open_follows_the_order() {
    let mut b = Connect4::new(2, 3);
    b.drop_piece(H, 2).ok();
    b.drop_piece(C, 2).ok();
    let order = vec![2, 0, 1];
    let (_, (status, score)) = b.play_first_open(C, &order).ok().unwrap();
    assert_eq!(status, Status::Running);
    assert_eq!(score, 0);
    assert_eq!(b.cell(1, 0), Some(C));
    assert_eq!(b.cell(1, 1), None);
    let order = vec![2, 1, 0];
    b.play_first_open(H, &order).ok();
    assert_eq!(b.cell(1, 1), Some(H));
}

#[test]
fn play_first_open_fails_when_none_is_open() {
    let mut b = Connect4::new(1, 3);
    b.drop_piece(H, 0).ok();
    b.drop_piece(C, 1).ok();
    let before = cells_of(&b);
    let order = vec![0, 1];
    assert!(matches!(b.play_first_open(H, &order), Err(Connect4Error::InvalidMove)));
    assert_eq!(cells_of(&b), before);
}

#[test]
fn minimax_counts_each_visited_position() {
    let mut b = Connect4::new(1, 4);
    b.drop_piece(C, 0).ok();
    b.drop_piece(C, 1).ok();
    b.drop_piece(C, 2).ok();
    b.clear_count();
    b.minimax(C, true, i32::MIN, i32::MAX, 0);
    // the position itself and its single child
    assert_eq!(b.get_count(), 2);
    b.minimax(C, true, i32::MIN, i32::MAX, 6);
    assert_eq!(b.get_count(), 3);
}

#[test]
fn smart_move_resets_the_counter() {
    let mut b = Connect4::new(1, 4);
    b.drop_piece(C, 0).ok();
    b.drop_piece(C, 1).ok();
    b.drop_piece(C, 2).ok();
    b.nodes = 1000;
    let (cells, (status, _)) = b.smart_move(C).ok().unwrap();
    assert_eq!(status, Status::WonBy(C));
    assert_eq!(cells, vec![(0, 0), (0, 1), (0, 2), (0, 3)]);
    // one root move, whose reply sits on a full board
    assert_eq!(b.get_count(), 1);
}
