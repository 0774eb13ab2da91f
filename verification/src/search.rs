//! The minimax evaluator: an exhaustive recursive search over the game tree
//! that computes the exact outcome value of a position under optimal play by
//! both sides, and the move achieving it.

use vstd::prelude::*;
use crate::game::{
    Game, Player, Tile, empty_count, lemma_count_pos_has_cell, lemma_count_upto_nonneg,
    lemma_empty_count_update, mark_of, opponent, state_of, wins, GameState,
};

verus! {

/// Leaf value of a position won by the maximizing player.
pub const WIN_VALUE: isize = 100;

/// Leaf value of a position won by the maximizing player's opponent.
pub const LOSS_VALUE: isize = -100;

/// Leaf value of a drawn position.
pub const DRAW_VALUE: isize = 0;

/// A position where the game has ended: a decided winner, or no cell left.
pub open spec fn is_terminal(b: Seq<Tile>) -> bool {
    wins(b, Tile::X) || wins(b, Tile::O) || empty_count(b) == 0
}

/// The value of an ended game from the maximizing player's perspective.
pub open spec fn leaf_value(b: Seq<Tile>, maximizer: Player) -> int {
    if wins(b, mark_of(maximizer)) {
        WIN_VALUE as int
    } else if wins(b, mark_of(opponent(maximizer))) {
        LOSS_VALUE as int
    } else {
        DRAW_VALUE as int
    }
}

/// The exact game value of the position `b` with `active` to move, from the
/// perspective of `maximizer`: the leaf value if the game has ended, else the
/// maximum (when the maximizer moves) or minimum (when the opponent moves)
/// over all continuations.
pub open spec fn game_value(b: Seq<Tile>, active: Player, maximizer: Player) -> int
    decreases empty_count(b), 10int,
        when b.len() == 9
{
    if is_terminal(b) {
        leaf_value(b, maximizer)
    } else if active == maximizer {
        max_value_upto(b, active, maximizer, 9)
    } else {
        min_value_upto(b, active, maximizer, 9)
    }
}

/// The largest value among the continuations that mark a cell with index
/// below `n`, seeded with a sentinel smaller than every leaf value.
pub open spec fn max_value_upto(b: Seq<Tile>, active: Player, maximizer: Player, n: int) -> int
    decreases empty_count(b), n,
        when 0 <= n <= 9 && b.len() == 9
{
    if n <= 0 {
        -1000
    } else {
        let rest = max_value_upto(b, active, maximizer, n - 1);
        if b[n - 1] == Tile::EMPTY {
            proof {
                lemma_empty_count_update(b, n - 1, mark_of(active));
            }
            let child = game_value(b.update(n - 1, mark_of(active)), opponent(active), maximizer);
            if child > rest {
                child
            } else {
                rest
            }
        } else {
            rest
        }
    }
}

/// The smallest value among the continuations that mark a cell with index
/// below `n`, seeded with a sentinel larger than every leaf value.
pub open spec fn min_value_upto(b: Seq<Tile>, active: Player, maximizer: Player, n: int) -> int
    decreases empty_count(b), n,
        when 0 <= n <= 9 && b.len() == 9
{
    if n <= 0 {
        1000
    } else {
        let rest = min_value_upto(b, active, maximizer, n - 1);
        if b[n - 1] == Tile::EMPTY {
            proof {
                lemma_empty_count_update(b, n - 1, mark_of(active));
            }
            let child = game_value(b.update(n - 1, mark_of(active)), opponent(active), maximizer);
            if child < rest {
                child
            } else {
                rest
            }
        } else {
            rest
        }
    }
}

proof fn lemma_max_upto_in_scale(b: Seq<Tile>, active: Player, maximizer: Player, n: int)
    requires
        b.len() == 9,
        0 <= n <= 9,
    ensures
        (exists|j: int| 0 <= j < n && b[j] == Tile::EMPTY) ==> LOSS_VALUE as int <= max_value_upto(
            b,
            active,
            maximizer,
            n,
        ) <= WIN_VALUE as int,
        !(exists|j: int| 0 <= j < n && b[j] == Tile::EMPTY) ==> max_value_upto(
            b,
            active,
            maximizer,
            n,
        ) == -1000,
    decreases empty_count(b), n,
{
    if n > 0 {
        lemma_max_upto_in_scale(b, active, maximizer, n - 1);
        if b[n - 1] == Tile::EMPTY {
            lemma_empty_count_update(b, n - 1, mark_of(active));
            lemma_value_in_scale(b.update(n - 1, mark_of(active)), opponent(active), maximizer);
        } else {
            if exists|j: int| 0 <= j < n && b[j] == Tile::EMPTY {
                let j = choose|j: int| 0 <= j < n && b[j] == Tile::EMPTY;
                assert(0 <= j < n - 1 && b[j] == Tile::EMPTY);
            }
        }
    }
}

proof fn lemma_min_upto_in_scale(b: Seq<Tile>, active: Player, maximizer: Player, n: int)
    requires
        b.len() == 9,
        0 <= n <= 9,
    ensures
        (exists|j: int| 0 <= j < n && b[j] == Tile::EMPTY) ==> LOSS_VALUE as int <= min_value_upto(
            b,
            active,
            maximizer,
            n,
        ) <= WIN_VALUE as int,
        !(exists|j: int| 0 <= j < n && b[j] == Tile::EMPTY) ==> min_value_upto(
            b,
            active,
            maximizer,
            n,
        ) == 1000,
    decreases empty_count(b), n,
{
    if n > 0 {
        lemma_min_upto_in_scale(b, active, maximizer, n - 1);
        if b[n - 1] == Tile::EMPTY {
            lemma_empty_count_update(b, n - 1, mark_of(active));
            lemma_value_in_scale(b.update(n - 1, mark_of(active)), opponent(active), maximizer);
        } else {
            if exists|j: int| 0 <= j < n && b[j] == Tile::EMPTY {
                let j = choose|j: int| 0 <= j < n && b[j] == Tile::EMPTY;
                assert(0 <= j < n - 1 && b[j] == Tile::EMPTY);
            }
        }
    }
}

/// Every game value lies on the three-point outcome scale: at least the loss
/// value and at most the win value, whatever the position and the players.
pub proof fn lemma_value_in_scale(b: Seq<Tile>, active: Player, maximizer: Player)
    requires
        b.len() == 9,
    ensures
        LOSS_VALUE as int <= game_value(b, active, maximizer) <= WIN_VALUE as int,
    decreases empty_count(b), 10int,
{
    if !is_terminal(b) {
        lemma_count_upto_nonneg(b, Tile::EMPTY, 9);
        lemma_count_pos_has_cell(b, Tile::EMPTY, 9);
        if active == maximizer {
            lemma_max_upto_in_scale(b, active, maximizer, 9);
        } else {
            lemma_min_upto_in_scale(b, active, maximizer, 9);
        }
    }
}

/// The evaluator is a pure function of the position and the maximizing
/// player: `find_best_move` pins its result to `game_value`, so two
/// evaluations of the same position for the same player are equal.
pub proof fn lemma_evaluator_deterministic(
    b: Seq<Tile>,
    active: Player,
    maximizer: Player,
    v1: int,
    v2: int,
)
    requires
        v1 == game_value(b, active, maximizer),
        v2 == game_value(b, active, maximizer),
    ensures
        v1 == v2,
{
}

/// The exact game value of `game` from the perspective of `player`, the
/// maximizing player, under optimal play by both sides: `WIN_VALUE` when the
/// position is a forced win for `player`, `LOSS_VALUE` when it is a forced
/// win for the opponent, `DRAW_VALUE` otherwise.
#[verifier::loop_isolation(false)]
pub fn find_best_move(game: &Game, player: Player) -> (value: isize)
    ensures
        value as int == game_value(game.board@, game.active_player, player),
    decreases empty_count(game.board@),
{
    if game.is_over() {
        let maximizer_wins = match player {
            Player::X => game.is_win_x(),
            Player::O => game.is_win_o(),
        };
        let opponent_wins = match player {
            Player::X => game.is_win_o(),
            Player::O => game.is_win_x(),
        };
        if maximizer_wins {
            WIN_VALUE
        } else if opponent_wins {
            LOSS_VALUE
        } else {
            DRAW_VALUE
        }
    } else {
        let tile = match game.active_player {
            Player::X => Tile::X,
            Player::O => Tile::O,
        };
        let next = match game.active_player {
            Player::X => Player::O,
            Player::O => Player::X,
        };
        if game.active_player == player {
            let mut value: isize = -1000;
            let mut i: usize = 0;
            while i < 9
                invariant
                    i <= 9,
                    value as int == max_value_upto(game.board@, game.active_player, player, i as int),
                decreases 9 - i,
            {
                if game.board[i] == Tile::EMPTY {
                    let mut child = *game;
                    child.board[i] = tile;
                    child.active_player = next;
                    proof {
                        lemma_empty_count_update(game.board@, i as int, mark_of(game.active_player));
                    }
                    let child_value = find_best_move(&child, player);
                    if child_value > value {
                        value = child_value;
                    }
                }
                i = i + 1;
            }
            value
        } else {
            let mut value: isize = 1000;
            let mut i: usize = 0;
            while i < 9
                invariant
                    i <= 9,
                    value as int == min_value_upto(game.board@, game.active_player, player, i as int),
                decreases 9 - i,
            {
                if game.board[i] == Tile::EMPTY {
                    let mut child = *game;
                    child.board[i] = tile;
                    child.active_player = next;
                    proof {
                        lemma_empty_count_update(game.board@, i as int, mark_of(game.active_player));
                    }
                    let child_value = find_best_move(&child, player);
                    if child_value < value {
                        value = child_value;
                    }
                }
                i = i + 1;
            }
            value
        }
    }
}

/// The move the active player should play: the legal move achieving the
/// active player's optimal value, and among equally good moves the one with
/// the lowest cell index, so that move selection is deterministic. Returns
/// `None` exactly when the game has ended.
#[verifier::loop_isolation(false)]
pub fn best_move(game: &Game) -> (r: Option<usize>)
    ensures
        r is Some <==> state_of(game.board@) == GameState::Ongoing,
        r matches Some(m) ==> m < 9 && game.board@[m as int] == Tile::EMPTY,
        r matches Some(m) ==> game_value(
            game.board@.update(m as int, mark_of(game.active_player)),
            opponent(game.active_player),
            game.active_player,
        ) == game_value(game.board@, game.active_player, game.active_player),
        r matches Some(m) ==> forall|j: int|
            0 <= j < m && game.board@[j] == Tile::EMPTY ==> game_value(
                game.board@.update(j, mark_of(game.active_player)),
                opponent(game.active_player),
                game.active_player,
            ) < game_value(game.board@, game.active_player, game.active_player),
{
    if game.is_over() {
        return None;
    }
    let me = game.active_player;
    let tile = match me {
        Player::X => Tile::X,
        Player::O => Tile::O,
    };
    let next = match me {
        Player::X => Player::O,
        Player::O => Player::X,
    };
    let mut best: Option<usize> = None;
    let mut value: isize = -1000;
    let mut i: usize = 0;
    while i < 9
        invariant
            i <= 9,
            value as int == max_value_upto(game.board@, me, me, i as int),
            best is None ==> forall|j: int| 0 <= j < i ==> game.board@[j] != Tile::EMPTY,
            best matches Some(m) ==> m < i && game.board@[m as int] == Tile::EMPTY,
            best matches Some(m) ==> value as int == game_value(
                game.board@.update(m as int, mark_of(me)),
                opponent(me),
                me,
            ),
            best matches Some(m) ==> forall|j: int|
                0 <= j < m && game.board@[j] == Tile::EMPTY ==> game_value(
                    game.board@.update(j, mark_of(me)),
                    opponent(me),
                    me,
                ) < value as int,
            best matches Some(m) ==> forall|j: int|
                0 <= j < i && game.board@[j] == Tile::EMPTY ==> game_value(
                    game.board@.update(j, mark_of(me)),
                    opponent(me),
                    me,
                ) <= value as int,
        decreases 9 - i,
    {
        if game.board[i] == Tile::EMPTY {
            let mut child = *game;
            child.board[i] = tile;
            child.active_player = next;
            proof {
                lemma_empty_count_update(game.board@, i as int, mark_of(me));
                lemma_value_in_scale(child.board@, next, me);
                lemma_max_upto_in_scale(game.board@, me, me, i as int);
            }
            let child_value = find_best_move(&child, me);
            if best.is_none() || child_value > value {
                best = Some(i);
                value = child_value;
            }
        }
        i = i + 1;
    }
    proof {
        lemma_count_upto_nonneg(game.board@, Tile::EMPTY, 9);
        lemma_count_pos_has_cell(game.board@, Tile::EMPTY, 9);
    }
    best
}

} // verus!
