//! The position model: a 3x3 board, the player to move, and constant-time
//! queries about the position (winning triples, draw, legal moves).

use vstd::prelude::*;

verus! {

/// The contents of one cell of the board.
#[derive(Clone, Copy, PartialEq, Eq, Structural, Debug)]
pub enum Tile {
    X,
    O,
    EMPTY,
}

/// One of the two players. `X` moves first in a fresh game.
#[derive(Clone, Copy, PartialEq, Eq, Structural, Debug)]
pub enum Player {
    X,
    O,
}

/// The state of a board, derived from its cells alone.
#[derive(Clone, Copy, PartialEq, Eq, Structural, Debug)]
pub enum GameState {
    Ongoing,
    Draw,
    WinX,
    WinO,
}

/// Error for a move aimed outside the board or at a cell already marked.
#[derive(Clone, Copy, PartialEq, Eq, Structural, Debug)]
pub struct InvalidMove;

/// A position: the nine cells in row-major order (index 0 is the top-left
/// corner, index 8 the bottom-right) plus the player whose turn it is.
#[derive(Clone, Copy, Debug)]
pub struct Game {
    pub board: [Tile; 9],
    pub active_player: Player,
}

/// The mark a player places on the board.
pub open spec fn mark_of(p: Player) -> Tile {
    match p {
        Player::X => Tile::X,
        Player::O => Tile::O,
    }
}

/// The other player.
pub open spec fn opponent(p: Player) -> Player {
    match p {
        Player::X => Player::O,
        Player::O => Player::X,
    }
}

/// Cells `i`, `j`, `k` all hold the tile `t`.
pub open spec fn triple_is(b: Seq<Tile>, i: int, j: int, k: int, t: Tile) -> bool {
    b[i] == t && b[j] == t && b[k] == t
}

/// The tile `t` fully owns one of the eight winning triples:
/// three rows, three columns, two diagonals.
pub open spec fn wins(b: Seq<Tile>, t: Tile) -> bool {
    ||| triple_is(b, 0, 1, 2, t)
    ||| triple_is(b, 3, 4, 5, t)
    ||| triple_is(b, 6, 7, 8, t)
    ||| triple_is(b, 0, 3, 6, t)
    ||| triple_is(b, 1, 4, 7, t)
    ||| triple_is(b, 2, 5, 8, t)
    ||| triple_is(b, 0, 4, 8, t)
    ||| triple_is(b, 2, 4, 6, t)
}

/// How many of the first `n` cells hold the tile `t`.
pub open spec fn count_upto(b: Seq<Tile>, t: Tile, n: int) -> int
    decreases n,
{
    if n <= 0 {
        0
    } else {
        count_upto(b, t, n - 1) + (if b[n - 1] == t { 1int } else { 0int })
    }
}

/// How many cells of the whole board hold the tile `t`.
pub open spec fn mark_count(b: Seq<Tile>, t: Tile) -> int {
    count_upto(b, t, 9)
}

/// How many cells of the whole board are empty.
pub open spec fn empty_count(b: Seq<Tile>) -> int {
    mark_count(b, Tile::EMPTY)
}

/// The state a board is in. The win checks strictly precede the draw check:
/// a full board that holds a winning triple is that player's win, not a draw.
pub open spec fn state_of(b: Seq<Tile>) -> GameState {
    if wins(b, Tile::X) {
        GameState::WinX
    } else if wins(b, Tile::O) {
        GameState::WinO
    } else if empty_count(b) == 0 {
        GameState::Draw
    } else {
        GameState::Ongoing
    }
}

/// The player owning a winning triple, if any.
pub open spec fn winner_of(b: Seq<Tile>) -> Option<Player> {
    if wins(b, Tile::X) {
        Some(Player::X)
    } else if wins(b, Tile::O) {
        Some(Player::O)
    } else {
        None
    }
}

pub proof fn lemma_count_upto_nonneg(b: Seq<Tile>, t: Tile, n: int)
    ensures
        count_upto(b, t, n) >= 0,
    decreases n,
{
    if n > 0 {
        lemma_count_upto_nonneg(b, t, n - 1);
    }
}

proof fn lemma_count_upto_agree(b1: Seq<Tile>, b2: Seq<Tile>, t: Tile, n: int)
    requires
        forall|j: int| 0 <= j < n ==> b1[j] == b2[j],
    ensures
        count_upto(b1, t, n) == count_upto(b2, t, n),
    decreases n,
{
    if n > 0 {
        lemma_count_upto_agree(b1, b2, t, n - 1);
    }
}

proof fn lemma_count_upto_update(b: Seq<Tile>, t: Tile, i: int, m: Tile, n: int)
    requires
        b.len() == 9,
        0 <= i < n <= 9,
    ensures
        count_upto(b.update(i, m), t, n) == count_upto(b, t, n) - (
        if b[i] == t {
            1int
        } else {
            0int
        }) + (
        if m == t {
            1int
        } else {
            0int
        }),
    decreases n,
{
    let upd = b.update(i, m);
    if i == n - 1 {
        lemma_count_upto_agree(upd, b, t, n - 1);
    } else {
        lemma_count_upto_update(b, t, i, m, n - 1);
    }
}

/// Marking one empty cell lowers the number of empty cells by exactly one.
pub proof fn lemma_empty_count_update(b: Seq<Tile>, i: int, m: Tile)
    requires
        b.len() == 9,
        0 <= i < 9,
        b[i] == Tile::EMPTY,
        m != Tile::EMPTY,
    ensures
        empty_count(b.update(i, m)) == empty_count(b) - 1,
        empty_count(b) >= 1,
{
    lemma_count_upto_update(b, Tile::EMPTY, i, m, 9);
    lemma_count_upto_nonneg(b.update(i, m), Tile::EMPTY, 9);
}

/// A positive count of the tile `t` among the first `n` cells yields a
/// concrete cell holding it.
pub proof fn lemma_count_pos_has_cell(b: Seq<Tile>, t: Tile, n: int)
    requires
        count_upto(b, t, n) > 0,
    ensures
        exists|j: int| 0 <= j < n && b[j] == t,
    decreases n,
{
    if n > 0 {
        if b[n - 1] == t {
            assert(0 <= n - 1 < n && b[n - 1] == t);
        } else {
            lemma_count_pos_has_cell(b, t, n - 1);
        }
    }
}

/// The win check strictly precedes the draw check: whenever the derived state
/// is a draw, no winning triple exists on the board.
pub proof fn lemma_draw_has_no_winner(b: Seq<Tile>)
    ensures
        state_of(b) == GameState::Draw ==> !wins(b, Tile::X) && !wins(b, Tile::O),
{
}

/// In any position reachable from the canonical start with the first player to
/// move (so both players hold equally many marks), no winning triple can exist
/// while fewer than five marks are on the board: a triple takes three marks of
/// one player, and with fewer than five marks split evenly each player has at
/// most two.
pub proof fn lemma_no_winner_before_five_marks(b: Seq<Tile>)
    requires
        b.len() == 9,
        mark_count(b, Tile::X) == mark_count(b, Tile::O),
        mark_count(b, Tile::X) + mark_count(b, Tile::O) < 5,
    ensures
        winner_of(b) is None,
{
    reveal_with_fuel(count_upto, 10);
}

proof fn lemma_counts_partition_upto(b: Seq<Tile>, n: int)
    requires
        0 <= n,
    ensures
        count_upto(b, Tile::EMPTY, n) + count_upto(b, Tile::X, n) + count_upto(b, Tile::O, n) == n,
    decreases n,
{
    if n > 0 {
        lemma_counts_partition_upto(b, n - 1);
    }
}

/// Every cell is exactly one of empty, marked `X`, or marked `O`, so the
/// number of legal moves plus the number of marked cells is always nine.
pub proof fn lemma_moves_plus_marks(b: Seq<Tile>)
    requires
        b.len() == 9,
    ensures
        empty_count(b) + mark_count(b, Tile::X) + mark_count(b, Tile::O) == 9,
{
    lemma_counts_partition_upto(b, 9);
}

impl Game {
    /// A fresh game: all nine cells empty, `X` to move.
    pub fn new() -> (g: Game)
        ensures
            forall|i: int| 0 <= i < 9 ==> g.board@[i] == Tile::EMPTY,
            g.active_player == Player::X,
    {
        Game { board: [Tile::EMPTY; 9], active_player: Player::X }
    }

    /// Whether `X` owns one of the eight winning triples.
    pub fn is_win_x(&self) -> (r: bool)
        ensures
            r == wins(self.board@, Tile::X),
    {
        let b = &self.board;
        (b[0] == Tile::X && b[1] == Tile::X && b[2] == Tile::X) || (b[3] == Tile::X && b[4]
            == Tile::X && b[5] == Tile::X) || (b[6] == Tile::X && b[7] == Tile::X && b[8]
            == Tile::X) || (b[0] == Tile::X && b[3] == Tile::X && b[6] == Tile::X) || (b[1]
            == Tile::X && b[4] == Tile::X && b[7] == Tile::X) || (b[2] == Tile::X && b[5]
            == Tile::X && b[8] == Tile::X) || (b[0] == Tile::X && b[4] == Tile::X && b[8]
            == Tile::X) || (b[2] == Tile::X && b[4] == Tile::X && b[6] == Tile::X)
    }

    /// Whether `O` owns one of the eight winning triples.
    pub fn is_win_o(&self) -> (r: bool)
        ensures
            r == wins(self.board@, Tile::O),
    {
        let b = &self.board;
        (b[0] == Tile::O && b[1] == Tile::O && b[2] == Tile::O) || (b[3] == Tile::O && b[4]
            == Tile::O && b[5] == Tile::O) || (b[6] == Tile::O && b[7] == Tile::O && b[8]
            == Tile::O) || (b[0] == Tile::O && b[3] == Tile::O && b[6] == Tile::O) || (b[1]
            == Tile::O && b[4] == Tile::O && b[7] == Tile::O) || (b[2] == Tile::O && b[5]
            == Tile::O && b[8] == Tile::O) || (b[0] == Tile::O && b[4] == Tile::O && b[8]
            == Tile::O) || (b[2] == Tile::O && b[4] == Tile::O && b[6] == Tile::O)
    }

    /// Every index of an empty cell, in ascending order.
    pub fn _get_moves(&self) -> (moves: Vec<usize>)
        ensures
            moves@.len() == empty_count(self.board@),
            forall|k: int|
                0 <= k < moves@.len() ==> moves@[k] < 9 && self.board@[moves@[k] as int]
                    == Tile::EMPTY,
            forall|k1: int, k2: int| 0 <= k1 < k2 < moves@.len() ==> moves@[k1] < moves@[k2],
            forall|j: int|
                0 <= j < 9 && self.board@[j] == Tile::EMPTY ==> exists|k: int|
                    0 <= k < moves@.len() && moves@[k] == j,
    {
        let mut moves: Vec<usize> = Vec::new();
        let mut i: usize = 0;
        while i < 9
            invariant
                i <= 9,
                moves@.len() == count_upto(self.board@, Tile::EMPTY, i as int),
                forall|k: int|
                    0 <= k < moves@.len() ==> moves@[k] < i && self.board@[moves@[k] as int]
                        == Tile::EMPTY,
                forall|k1: int, k2: int| 0 <= k1 < k2 < moves@.len() ==> moves@[k1] < moves@[k2],
                forall|j: int|
                    0 <= j < i && self.board@[j] == Tile::EMPTY ==> exists|k: int|
                        0 <= k < moves@.len() && moves@[k] == j,
            decreases 9 - i,
        {
            if self.board[i] == Tile::EMPTY {
                let ghost prev = moves@;
                moves.push(i);
                proof {
                    assert forall|j: int|
                        0 <= j < i + 1 && self.board@[j] == Tile::EMPTY implies exists|k: int|
                        0 <= k < moves@.len() && moves@[k] == j by {
                        if j == i {
                            assert(moves@[prev.len() as int] == j);
                        } else {
                            let k0 = choose|k0: int| 0 <= k0 < prev.len() && prev[k0] == j;
                            assert(moves@[k0] == j);
                        }
                    }
                }
            }
            i = i + 1;
        }
        moves
    }

    /// The one-based label of every legal move (the label of cell `i` is
    /// `i + 1`), in ascending order.
    pub fn get_available_moves(&self) -> (labels: Vec<usize>)
        ensures
            labels@.len() == empty_count(self.board@),
            forall|k: int|
                0 <= k < labels@.len() ==> 1 <= labels@[k] <= 9 && self.board@[labels@[k] - 1]
                    == Tile::EMPTY,
            forall|k1: int, k2: int| 0 <= k1 < k2 < labels@.len() ==> labels@[k1] < labels@[k2],
            forall|j: int|
                0 <= j < 9 && self.board@[j] == Tile::EMPTY ==> exists|k: int|
                    0 <= k < labels@.len() && labels@[k] == j + 1,
    {
        let mut labels: Vec<usize> = Vec::new();
        let mut i: usize = 0;
        while i < 9
            invariant
                i <= 9,
                labels@.len() == count_upto(self.board@, Tile::EMPTY, i as int),
                forall|k: int|
                    0 <= k < labels@.len() ==> 1 <= labels@[k] <= i && self.board@[labels@[k] - 1]
                        == Tile::EMPTY,
                forall|k1: int, k2: int| 0 <= k1 < k2 < labels@.len() ==> labels@[k1] < labels@[k2],
                forall|j: int|
                    0 <= j < i && self.board@[j] == Tile::EMPTY ==> exists|k: int|
                        0 <= k < labels@.len() && labels@[k] == j + 1,
            decreases 9 - i,
        {
            if self.board[i] == Tile::EMPTY {
                let ghost prev = labels@;
                labels.push(i + 1);
                proof {
                    assert forall|j: int|
                        0 <= j < i + 1 && self.board@[j] == Tile::EMPTY implies exists|k: int|
                        0 <= k < labels@.len() && labels@[k] == j + 1 by {
                        if j == i {
                            assert(labels@[prev.len() as int] == j + 1);
                        } else {
                            let k0 = choose|k0: int| 0 <= k0 < prev.len() && prev[k0] == j + 1;
                            assert(labels@[k0] == j + 1);
                        }
                    }
                }
            }
            i = i + 1;
        }
        labels
    }

    /// Whether the board is a draw: no cell left to play and no winner.
    pub fn is_draw(&self) -> (r: bool)
        ensures
            r == (empty_count(self.board@) == 0 && !wins(self.board@, Tile::X) && !wins(
                self.board@,
                Tile::O,
            )),
    {
        let moves = self._get_moves();
        moves.len() == 0 && !self.is_win_x() && !self.is_win_o()
    }

    /// The derived state of the position; win checks precede the draw check.
    pub fn get_state(&self) -> (s: GameState)
        ensures
            s == state_of(self.board@),
    {
        if self.is_win_x() {
            GameState::WinX
        } else if self.is_win_o() {
            GameState::WinO
        } else if self.is_draw() {
            GameState::Draw
        } else {
            GameState::Ongoing
        }
    }

    /// Whether the position is terminal: a decided win or a draw.
    pub fn is_over(&self) -> (r: bool)
        ensures
            r == (state_of(self.board@) != GameState::Ongoing),
    {
        match self.get_state() {
            GameState::Ongoing => false,
            _ => true,
        }
    }

    /// The player owning a winning triple, if there is one.
    pub fn winner(&self) -> (r: Option<Player>)
        ensures
            r == winner_of(self.board@),
    {
        if self.is_win_x() {
            Some(Player::X)
        } else if self.is_win_o() {
            Some(Player::O)
        } else {
            None
        }
    }

    /// Hand the turn to the other player; the board is untouched.
    pub fn switch_player(&mut self)
        ensures
            final(self).active_player == opponent(old(self).active_player),
            final(self).board == old(self).board,
    {
        self.active_player = match self.active_player {
            Player::X => Player::O,
            Player::O => Player::X,
        };
    }

    /// Place `tile` on the cell with the one-based label `position`
    /// (label `p` names cell `p - 1`); the turn does not change.
    pub fn play_tile(&mut self, position: usize, tile: Tile)
        requires
            1 <= position <= 9,
        ensures
            final(self).board@ == old(self).board@.update(position - 1, tile),
            final(self).active_player == old(self).active_player,
    {
        self.board[position - 1] = tile;
    }

    /// The position after `player` marks the empty cell `index`; the turn is
    /// left for the caller to advance. Fails with `InvalidMove`, and with the
    /// position untouched, exactly when `index` is outside the board or the
    /// cell is already marked.
    pub fn apply_move(&self, index: usize, player: Player) -> (r: Result<Game, InvalidMove>)
        ensures
            r is Ok <==> index < 9 && self.board@[index as int] == Tile::EMPTY,
            r matches Ok(g) ==> g.board@ == self.board@.update(index as int, mark_of(player))
                && g.active_player == self.active_player,
    {
        if index < 9 && self.board[index] == Tile::EMPTY {
            let mut g = *self;
            g.board[index] = match player {
                Player::X => Tile::X,
                Player::O => Tile::O,
            };
            Ok(g)
        } else {
            Err(InvalidMove)
        }
    }
}

/// The root of a game tree: one generation holding the single fresh game.
pub fn generate_game_tree() -> (tree: Vec<Vec<Game>>)
    ensures
        tree@.len() == 1,
        tree@[0]@.len() == 1,
        forall|i: int| 0 <= i < 9 ==> tree@[0]@[0].board@[i] == Tile::EMPTY,
        tree@[0]@[0].active_player == Player::X,
{
    let new_game = Game::new();
    vec![vec![new_game]]
}

} // verus!
