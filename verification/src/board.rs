//! The board data model: players, rows of squares, moves, and the
//! mutation and query operations the game loop needs.

use rand::Rng;
use vstd::prelude::*;

verus! {

/// One of the two players. The colours label who ate a square and whose
/// turn is next.
#[derive(Copy, Clone, PartialEq, Eq, Structural, Debug)]
pub enum Player {
    RED,
    BLUE,
}

/// The player that moves after `p`.
pub open spec fn opponent(p: Player) -> Player {
    match p {
        Player::RED => Player::BLUE,
        Player::BLUE => Player::RED,
    }
}

/// A single turn's action: eat `amount` squares from row `row_y`.
#[derive(Copy, Clone, PartialEq, Eq, Structural, Debug)]
pub struct Meal {
    pub row_y: usize,
    pub amount: u8,
}

/// One row of squares. `orig_length` is fixed at creation;
/// `eaten_squares` records, in eating order, who ate each removed square.
pub struct Row {
    pub orig_length: u8,
    pub eaten_squares: Vec<Player>,
}

impl Row {
    /// A row never loses more squares than it started with.
    pub open spec fn wf(self) -> bool {
        self.eaten_squares@.len() <= self.orig_length
    }

    /// How many squares of this row are still on the board.
    pub open spec fn spec_remaining(self) -> u8 {
        (self.orig_length - self.eaten_squares@.len()) as u8
    }

    /// Number of squares left in this row.
    pub fn get_remaining(&self) -> (r: u8)
        requires
            self.wf(),
        ensures
            r == self.spec_remaining(),
    {
        self.orig_length - (self.eaten_squares.len() as u8)
    }
}

/// The whole game state: the rows, in a fixed order, and whose turn it is.
pub struct Board {
    pub rows: Vec<Row>,
    pub current_turn: Player,
}

/// Relies on rand's `Rng::gen_range` over an inclusive range on the
/// thread-local generator: the sample lies between the two bounds, and the
/// call only panics on an empty range, which the precondition rules out.
#[verifier::external_body]
fn random_row_length(lo: u8, hi: u8) -> (r: u8)
    requires
        lo <= hi,
    ensures
        lo <= r <= hi,
{
    rand::thread_rng().gen_range(lo..=hi)
}

/// The remaining counts a board shows after `amount` squares leave row `y`.
pub open spec fn moved_remainders(b: Board, y: int, a: u8) -> Seq<u8> {
    b.remainders().update(y, (b.remainders()[y] - a) as u8)
}

/// How one board follows from another by eating `m.amount` squares from
/// row `m.row_y`: that row's history grows by `m.amount` entries for the
/// player at turn, and nothing else changes.
pub open spec fn spec_eat(pre: Board, post: Board, m: Meal) -> bool {
    &&& post.current_turn == pre.current_turn
    &&& post.rows@.len() == pre.rows@.len()
    &&& forall|i: int| 0 <= i < pre.rows@.len() && i != m.row_y as int
        ==> post.rows@[i] == pre.rows@[i]
    &&& post.rows@[m.row_y as int].orig_length == pre.rows@[m.row_y as int].orig_length
    &&& post.rows@[m.row_y as int].eaten_squares@ == pre.rows@[m.row_y as int].eaten_squares@
        + Seq::new(m.amount as nat, |k: int| pre.current_turn)
}

impl Board {
    /// Every row of the board is well formed.
    pub open spec fn wf(self) -> bool {
        forall|i: int| 0 <= i < self.rows@.len() ==> (#[trigger] self.rows@[i]).wf()
    }

    /// The remaining count of each row, in row order.
    pub open spec fn remainders(self) -> Seq<u8> {
        self.rows@.map_values(|r: Row| r.spec_remaining())
    }

    /// The board is finished exactly when no row has a square left.
    pub open spec fn spec_is_empty(self) -> bool {
        forall|i: int| 0 <= i < self.rows@.len() ==> (#[trigger] self.rows@[i]).spec_remaining() == 0
    }

    /// Creates a board with a set of defined row lengths, none of whose
    /// squares have been eaten yet.
    pub fn new(row_lengths: Vec<u8>, starting_turn: Player) -> (b: Board)
        ensures
            b.wf(),
            b.current_turn == starting_turn,
            b.rows@.len() == row_lengths@.len(),
            forall|i: int| 0 <= i < row_lengths@.len()
                ==> (#[trigger] b.rows@[i]).orig_length == row_lengths@[i]
                    && b.rows@[i].eaten_squares@.len() == 0,
    {
        let mut rows: Vec<Row> = Vec::new();
        let mut i: usize = 0;
        while i < row_lengths.len()
            invariant
                i <= row_lengths@.len(),
                rows@.len() == i,
                forall|j: int| 0 <= j < i
                    ==> (#[trigger] rows@[j]).orig_length == row_lengths@[j]
                        && rows@[j].eaten_squares@.len() == 0,
            decreases row_lengths@.len() - i,
        {
            rows.push(Row { orig_length: row_lengths[i], eaten_squares: Vec::new() });
            i = i + 1;
        }
        Board { rows, current_turn: starting_turn }
    }

    /// Creates a random board with `num_rows` rows, each with one to
    /// `max_row_length` squares.
    pub fn random(num_rows: usize, max_row_length: u8, starting_turn: Player) -> (b: Board)
        requires
            max_row_length >= 1,
        ensures
            b.wf(),
            b.current_turn == starting_turn,
            b.rows@.len() == num_rows,
            forall|i: int| 0 <= i < num_rows
                ==> 1 <= (#[trigger] b.rows@[i]).orig_length <= max_row_length
                    && b.rows@[i].eaten_squares@.len() == 0,
    {
        let mut rows: Vec<Row> = Vec::new();
        let mut i: usize = 0;
        while i < num_rows
            invariant
                max_row_length >= 1,
                i <= num_rows,
                rows@.len() == i,
                forall|j: int| 0 <= j < i
                    ==> 1 <= (#[trigger] rows@[j]).orig_length <= max_row_length
                        && rows@[j].eaten_squares@.len() == 0,
            decreases num_rows - i,
        {
            let length = random_row_length(1, max_row_length);
            rows.push(Row { orig_length: length, eaten_squares: Vec::new() });
            i = i + 1;
        }
        Board { rows, current_turn: starting_turn }
    }

    /// Consumes a given number of squares from a given row, as defined by
    /// `meal`, charging them to the player at turn.
    pub fn eat(&mut self, meal: Meal)
        requires
            old(self).wf(),
            meal.row_y < old(self).rows@.len(),
            1 <= meal.amount <= old(self).rows@[meal.row_y as int].spec_remaining(),
        ensures
            final(self).wf(),
            spec_eat(*old(self), *final(self), meal),
            final(self).remainders() == moved_remainders(
                *old(self),
                meal.row_y as int,
                meal.amount,
            ),
    {
        let turn = self.current_turn;
        let mut row = self.rows.remove(meal.row_y);
        let ghost row0 = row;
        let mut k: usize = 0;
        while k < meal.amount as usize
            invariant
                k <= meal.amount,
                row.orig_length == row0.orig_length,
                row.eaten_squares@ == row0.eaten_squares@
                    + Seq::new(k as nat, |j: int| turn),
            decreases meal.amount - k,
        {
            row.eaten_squares.push(turn);
            proof {
                assert(row.eaten_squares@ =~= row0.eaten_squares@
                    + Seq::new((k + 1) as nat, |j: int| turn));
            }
            k = k + 1;
        }
        self.rows.insert(meal.row_y, row);
        proof {
            let y = meal.row_y as int;
            assert(self.rows@ =~= old(self).rows@.update(y, row));
            assert(self.remainders() =~= moved_remainders(*old(self), y, meal.amount));
        }
    }

    /// Switches the current turn from red to blue or vice versa.
    pub fn next_turn(&mut self)
        ensures
            final(self).rows == old(self).rows,
            final(self).current_turn == opponent(old(self).current_turn),
    {
        self.current_turn = match self.current_turn {
            Player::RED => Player::BLUE,
            Player::BLUE => Player::RED,
        };
    }

    /// Determines if the board is empty; i.e., all of the squares have
    /// been eaten.
    pub fn is_empty(&self) -> (r: bool)
        requires
            self.wf(),
        ensures
            r == self.spec_is_empty(),
    {
        let mut i: usize = 0;
        while i < self.rows.len()
            invariant
                self.wf(),
                i <= self.rows@.len(),
                forall|j: int| 0 <= j < i ==> (#[trigger] self.rows@[j]).spec_remaining() == 0,
            decreases self.rows@.len() - i,
        {
            if self.rows[i].get_remaining() != 0 {
                return false;
            }
            i = i + 1;
        }
        true
    }
}

} // verus!
