use tictactoe::game::{Game, Player, Tile};
use tictactoe::search::{best_move, find_best_move};

// o x x
// x x o
// o x x  <- after X takes the winning cell
#[test]
fn best_move_one_before_win() {
    let mut game = Game::new();
    game.board[0] = Tile::O;
    game.board[1] = Tile::X;
    game.board[2] = Tile::X;
    game.board[3] = Tile::X;
    game.board[4] = Tile::X;
    game.board[5] = Tile::O;
    game.board[6] = Tile::O;
    game.active_player = Player::X;
    let player = game.active_player.clone();
    let val = find_best_move(&game, player);
    assert_eq!(val, 100);
}

#[test]
fn empty_board_is_a_draw_for_either_maximizer() {
    let game = Game::new();
    assert_eq!(find_best_move(&game, Player::X), 0);
    assert_eq!(find_best_move(&game, Player::O), 0);
}

#[test]
fn evaluator_is_pure() {
    let mut game = Game::new();
    game.board[0] = Tile::X;
    game.board[4] = Tile::O;
    game.active_player = Player::X;
    assert_eq!(
        find_best_move(&game, Player::X),
        find_best_move(&game, Player::X)
    );
    assert_eq!(
        find_best_move(&game, Player::O),
        find_best_move(&game, Player::O)
    );
}

#[test]
fn immediate_winning_cell_scores_a_win() {
    // x x _ / o o x / x o o: X completes the top row at the only open cell.
    let mut game = Game::new();
    game.board[0] = Tile::X;
    game.board[1] = Tile::X;
    game.board[3] = Tile::O;
    game.board[4] = Tile::O;
    game.board[5] = Tile::X;
    game.board[6] = Tile::X;
    game.board[7] = Tile::O;
    game.board[8] = Tile::O;
    game.active_player = Player::X;
    assert_eq!(find_best_move(&game, Player::X), 100);
    assert_eq!(find_best_move(&game, Player::O), -100);
    assert_eq!(best_move(&game), Some(2));
}

#[test]
fn forced_move_into_full_board_is_a_draw() {
    // o x x / x x o / o o _: the one open cell completes no triple for X.
    let mut game = Game::new();
    game.board[0] = Tile::O;
    game.board[1] = Tile::X;
    game.board[2] = Tile::X;
    game.board[3] = Tile::X;
    game.board[4] = Tile::X;
    game.board[5] = Tile::O;
    game.board[6] = Tile::O;
    game.board[7] = Tile::O;
    game.active_player = Player::X;
    assert_eq!(find_best_move(&game, Player::X), 0);
    assert_eq!(find_best_move(&game, Player::O), 0);
    assert_eq!(best_move(&game), Some(8));
}

#[test]
fn double_threat_defeats_the_defender() {
    // x x _ / x _ _ / _ _ o: X threatens both the top row and the left
    // column; O to move can only block one of them.
    let mut game = Game::new();
    game.board[0] = Tile::X;
    game.board[1] = Tile::X;
    game.board[3] = Tile::X;
    game.board[8] = Tile::O;
    game.active_player = Player::O;
    assert_eq!(find_best_move(&game, Player::O), -100);
    assert_eq!(find_best_move(&game, Player::X), 100);
}

#[test]
fn won_position_scores_for_its_owner() {
    let mut game = Game::new();
    game.board[0] = Tile::O;
    game.board[4] = Tile::O;
    game.board[8] = Tile::O;
    game.board[1] = Tile::X;
    game.board[2] = Tile::X;
    game.board[3] = Tile::X;
    game.active_player = Player::X;
    assert_eq!(find_best_move(&game, Player::O), 100);
    assert_eq!(find_best_move(&game, Player::X), -100);
}

#[test]
fn best_move_breaks_ties_by_lowest_index() {
    // From the empty board every opening move leads to a draw under optimal
    // play, so the recommended move is the lowest-index cell.
    let game = Game::new();
    assert_eq!(best_move(&game), Some(0));
}

#[test]
fn best_move_on_ended_game_is_none() {
    let mut game = Game::new();
    game.board[0] = Tile::X;
    game.board[1] = Tile::X;
    game.board[2] = Tile::X;
    game.board[4] = Tile::O;
    game.board[5] = Tile::O;
    assert_eq!(best_move(&game), None);
}

#[test]
fn best_move_blocks_or_wins() {
    // _ _ _ / o o _ / x x _: X to move wins at once at cell 8 rather than
    // blocking O's row.
    let mut game = Game::new();
    game.board[3] = Tile::O;
    game.board[4] = Tile::O;
    game.board[6] = Tile::X;
    game.board[7] = Tile::X;
    game.active_player = Player::X;
    assert_eq!(best_move(&game), Some(8));
    assert_eq!(find_best_move(&game, Player::X), 100);
}
