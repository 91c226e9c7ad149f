//! The strategist: deciding whether a candidate move is optimal, searching
//! for the first optimal move, and falling back to an arbitrary legal move.

use rand::seq::SliceRandom;
use vstd::prelude::*;

use crate::board::{moved_remainders, spec_eat, Board, Meal};
use crate::nim::{
    lemma_nim_sum_update, lemma_top_bit_witness, lemma_xor_shrinks, nim_sum, top_bit, xor_prefix,
};

verus! {

/// `amount` squares can leave row `y` of `b`: the row exists and still
/// holds at least that many squares, and the move takes at least one.
pub open spec fn is_legal_move(b: Board, y: int, a: u8) -> bool {
    &&& 0 <= y < b.rows@.len()
    &&& 1 <= a <= b.rows@[y].spec_remaining()
}

/// Taking `a` squares from row `y` leaves a position whose nim-sum is
/// zero, so the player who takes it can force a win.
pub open spec fn is_winning_move(b: Board, y: int, a: u8) -> bool {
    nim_sum(moved_remainders(b, y, a)) == 0
}

/// `m` is the winning move that a scan in row order, and in ascending
/// amounts within a row, meets first.
pub open spec fn is_first_winning_move(b: Board, m: Meal) -> bool {
    &&& is_legal_move(b, m.row_y as int, m.amount)
    &&& is_winning_move(b, m.row_y as int, m.amount)
    &&& forall|y: int, a: u8|
        is_legal_move(b, y, a) && #[trigger] is_winning_move(b, y, a)
            ==> (m.row_y as int) < y || (y == m.row_y as int && m.amount <= a)
}

/// On a board whose nim-sum is already zero no winning move exists: every
/// legal move hands the opponent a position with a non-zero nim-sum.
pub proof fn lemma_no_winning_move(b: Board)
    requires
        b.wf(),
        nim_sum(b.remainders()) == 0,
    ensures
        forall|y: int, a: u8|
            is_legal_move(b, y, a) ==> !#[trigger] is_winning_move(b, y, a),
{
    let s = b.remainders();
    assert forall|y: int, a: u8|
        is_legal_move(b, y, a) implies !#[trigger] is_winning_move(b, y, a) by {
        let x = s[y];
        let v = (x - a) as u8;
        lemma_nim_sum_update(s, y, v);
        assert(((0u8 ^ x) ^ v) == 0 ==> x == v) by (bit_vector);
    }
}

/// On a board whose nim-sum is not zero a winning move exists: the
/// existence half of Nim theory.
pub proof fn lemma_winning_move_exists(b: Board)
    requires
        b.wf(),
        nim_sum(b.remainders()) != 0,
    ensures
        exists|y: int, a: u8|
            is_legal_move(b, y, a) && #[trigger] is_winning_move(b, y, a),
{
    let s = b.remainders();
    let d = nim_sum(s);
    lemma_top_bit_witness(s);
    let y = choose|i: int| 0 <= i < s.len() && #[trigger] (s[i] & top_bit(d)) != 0;
    let x = s[y];
    lemma_xor_shrinks(x, d);
    let v = x ^ d;
    let a = (x - v) as u8;
    lemma_nim_sum_update(s, y, v);
    assert(((d ^ x) ^ (x ^ d)) == 0) by (bit_vector);
    assert(is_legal_move(b, y, a) && is_winning_move(b, y, a));
}

/// A winning move keeps its promise: after it is eaten, the board's
/// nim-sum is exactly zero.
pub proof fn lemma_winning_move_restores_zero(pre: Board, post: Board, m: Meal)
    requires
        pre.wf(),
        is_winning_move(pre, m.row_y as int, m.amount),
        post.remainders() == moved_remainders(pre, m.row_y as int, m.amount),
    ensures
        nim_sum(post.remainders()) == 0,
{
}

/// Relies on rand's `SliceRandom::choose` on the thread-local generator:
/// `None` exactly when the slice is empty, otherwise some element of it.
#[verifier::external_body]
fn choose_available(available: &Vec<usize>) -> (r: Option<usize>)
    ensures
        match r {
            Some(y) => available@.contains(y),
            None => available@.len() == 0,
        },
{
    available.choose(&mut rand::thread_rng()).copied()
}

impl Board {
    /// Determines if the board will be optimal with `amount` removed from
    /// `row_y`; in other words, if the move guarantees that the player who
    /// takes it can win. A pure query: the board is only read.
    pub fn test_optimal(&self, row_y: usize, amount: u8) -> (r: bool)
        requires
            self.wf(),
            row_y < self.rows@.len(),
            amount <= self.rows@[row_y as int].spec_remaining(),
        ensures
            r == is_winning_move(*self, row_y as int, amount),
    {
        let ghost s = moved_remainders(*self, row_y as int, amount);
        let mut acc: u8 = 0;
        let mut i: usize = 0;
        while i < self.rows.len()
            invariant
                self.wf(),
                row_y < self.rows@.len(),
                amount <= self.rows@[row_y as int].spec_remaining(),
                s == moved_remainders(*self, row_y as int, amount),
                i <= self.rows@.len(),
                acc == xor_prefix(s, i as int),
            decreases self.rows@.len() - i,
        {
            let remaining = self.rows[i].get_remaining();
            let adjusted = if i == row_y {
                remaining - amount
            } else {
                remaining
            };
            proof {
                assert(adjusted == s[i as int]);
                assert(xor_prefix(s, i + 1) == xor_prefix(s, i as int) ^ s[i as int]);
            }
            acc = acc ^ adjusted;
            i = i + 1;
        }
        acc == 0
    }

    /// Finds the move that makes the board optimal that a scan in row
    /// order, and in ascending amounts within a row, meets first. Returns
    /// `None` exactly when no winning move exists, which by Nim theory is
    /// exactly when the board's nim-sum is already zero.
    pub fn find_optimal_move(&self) -> (r: Option<Meal>)
        requires
            self.wf(),
        ensures
            match r {
                Some(m) => is_first_winning_move(*self, m),
                None => forall|y: int, a: u8|
                    is_legal_move(*self, y, a) ==> !#[trigger] is_winning_move(*self, y, a),
            },
            (r is Some) <==> nim_sum(self.remainders()) != 0,
    {
        let mut row_y: usize = 0;
        while row_y < self.rows.len()
            invariant
                self.wf(),
                row_y <= self.rows@.len(),
                forall|y: int, a: u8|
                    0 <= y < row_y && is_legal_move(*self, y, a)
                        ==> !#[trigger] is_winning_move(*self, y, a),
            decreases self.rows@.len() - row_y,
        {
            let remaining = self.rows[row_y].get_remaining();
            let mut amount: usize = 1;
            while amount <= remaining as usize
                invariant
                    self.wf(),
                    row_y < self.rows@.len(),
                    remaining == self.rows@[row_y as int].spec_remaining(),
                    1 <= amount <= remaining as usize + 1,
                    forall|y: int, a: u8|
                        0 <= y < row_y && is_legal_move(*self, y, a)
                            ==> !#[trigger] is_winning_move(*self, y, a),
                    forall|a: u8|
                        1 <= a < amount ==> !#[trigger] is_winning_move(*self, row_y as int, a),
                decreases remaining as usize + 1 - amount,
            {
                if self.test_optimal(row_y, amount as u8) {
                    let m = Meal { row_y, amount: amount as u8 };
                    proof {
                        if nim_sum(self.remainders()) == 0 {
                            lemma_no_winning_move(*self);
                        }
                    }
                    return Some(m);
                }
                amount = amount + 1;
            }
            row_y = row_y + 1;
        }
        proof {
            if nim_sum(self.remainders()) != 0 {
                lemma_winning_move_exists(*self);
            }
        }
        None
    }

    /// Returns a move with one square and a random row among those that
    /// still have squares. Returns `None` exactly when the board is empty.
    pub fn find_random_move(&self) -> (r: Option<Meal>)
        requires
            self.wf(),
        ensures
            match r {
                Some(m) => is_legal_move(*self, m.row_y as int, m.amount) && m.amount == 1,
                None => self.spec_is_empty(),
            },
            (r is None) <==> self.spec_is_empty(),
    {
        let mut available: Vec<usize> = Vec::new();
        let mut row_y: usize = 0;
        while row_y < self.rows.len()
            invariant
                self.wf(),
                row_y <= self.rows@.len(),
                forall|k: int| 0 <= k < available@.len()
                    ==> (#[trigger] available@[k]) < self.rows@.len()
                        && self.rows@[available@[k] as int].spec_remaining() > 0,
                forall|j: int| 0 <= j < row_y
                    && (#[trigger] self.rows@[j]).spec_remaining() > 0
                    ==> available@.contains(j as usize),
            decreases self.rows@.len() - row_y,
        {
            if self.rows[row_y].get_remaining() > 0 {
                let ghost before = available@;
                available.push(row_y);
                proof {
                    assert forall|j: int| 0 <= j < row_y + 1
                        && (#[trigger] self.rows@[j]).spec_remaining() > 0 implies
                        available@.contains(j as usize) by {
                        if j < row_y {
                            let k = choose|k: int| 0 <= k < before.len()
                                && before[k] == j as usize;
                            assert(available@[k] == j as usize);
                        } else {
                            assert(available@[before.len() as int] == row_y);
                        }
                    }
                }
            }
            row_y = row_y + 1;
        }
        match choose_available(&available) {
            Some(y) => Some(Meal { row_y: y, amount: 1 }),
            None => {
                proof {
                    assert forall|j: int| 0 <= j < self.rows@.len() implies
                        (#[trigger] self.rows@[j]).spec_remaining() == 0 by {
                        if self.rows@[j].spec_remaining() > 0 {
                            assert(available@.contains(j as usize));
                        }
                    }
                }
                None
            },
        }
    }

    /// Performs the first optimal move if one exists, or an arbitrary
    /// one-square move if none does. The board must not be empty.
    pub fn take_optimal_move(&mut self)
        requires
            old(self).wf(),
            !old(self).spec_is_empty(),
        ensures
            final(self).wf(),
            final(self).current_turn == old(self).current_turn,
            exists|m: Meal|
                is_legal_move(*old(self), m.row_y as int, m.amount)
                    && #[trigger] spec_eat(*old(self), *final(self), m)
                    && (nim_sum(old(self).remainders()) != 0
                        ==> is_first_winning_move(*old(self), m))
                    && (nim_sum(old(self).remainders()) == 0 ==> m.amount == 1),
    {
        match self.find_optimal_move() {
            Some(meal) => {
                self.eat(meal);
                proof {
                    assert(spec_eat(*old(self), *self, meal));
                }
            },
            None => {
                match self.find_random_move() {
                    Some(meal) => {
                        self.eat(meal);
                        proof {
                            assert(spec_eat(*old(self), *self, meal));
                        }
                    },
                    None => {
                        // A board that is not empty always has a random move.
                        proof {
                            assert(false);
                        }
                    },
                }
            },
        }
    }
}

} // verus!
