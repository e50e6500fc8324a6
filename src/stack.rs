use crate::playerdata::{Column, all_hidden};
use rand::seq::SliceRandom;
use vstd::prelude::*;

verus! {

/// The draw pile. Cards are drawn from the end of `cards`.
#[derive(Clone)]
pub struct Stack {
    cards: Vec<i8>,
}

impl View for Stack {
    type V = Seq<i8>;

    closed spec fn view(&self) -> Seq<i8> {
        self.cards@
    }
}

/// The full deck before shuffling: five `-2`, fifteen `0`, and ten of each of `-1` and `1` to `12`.
pub open spec fn initial_deck() -> Seq<i8> {
    Seq::new(5, |_i: int| -2i8) + Seq::new(15, |_i: int| 0i8) + Seq::new(10, |_i: int| -1i8)
        + Seq::new(10, |_i: int| 1i8) + Seq::new(10, |_i: int| 2i8) + Seq::new(10, |_i: int| 3i8)
        + Seq::new(10, |_i: int| 4i8) + Seq::new(10, |_i: int| 5i8) + Seq::new(10, |_i: int| 6i8)
        + Seq::new(10, |_i: int| 7i8) + Seq::new(10, |_i: int| 8i8) + Seq::new(10, |_i: int| 9i8)
        + Seq::new(10, |_i: int| 10i8) + Seq::new(10, |_i: int| 11i8) + Seq::new(10, |_i: int| 12i8)
}

/// The grid dealt from the top of `s`: four face-down columns, filled column by column with
/// the cards in the order they are drawn.
pub open spec fn dealt_grid(s: Seq<i8>, pf: Seq<Column>) -> bool {
    &&& s.len() >= 12
    &&& pf.len() == 4
    &&& all_hidden(pf)
    &&& forall|i: int, j: int|
        0 <= i < 4 && 0 <= j < 3 ==> (#[trigger] pf[i][j]).1 == s[s.len() - 1 - 3 * i - j]
}

/// Relies on rand's `SliceRandom::shuffle` with the thread-local generator: it only swaps
/// elements, so the same cards stay, in a new order.
#[verifier::external_body]
fn shuffle_cards(cards: &mut Vec<i8>)
    ensures
        final(cards)@.len() == old(cards)@.len(),
        final(cards)@.to_multiset() == old(cards)@.to_multiset(),
{
    cards.shuffle(&mut rand::thread_rng())
}

/// Appends `n` copies of `value`.
fn push_copies(cards: &mut Vec<i8>, value: i8, n: usize)
    ensures
        final(cards)@ == old(cards)@ + Seq::new(n as nat, |_i: int| value),
{
    let ghost start = cards@;
    let mut k: usize = 0;
    while k < n
        invariant
            k <= n,
            cards@ == start + Seq::new(k as nat, |_i: int| value),
        decreases n - k,
    {
        cards.push(value);
        k = k + 1;
        assert(cards@ =~= start + Seq::new(k as nat, |_i: int| value));
    }
}

impl Stack {
    /// A full deck of 150 cards, shuffled.
    pub fn new() -> (r: Self)
        ensures
            r@.len() == 150,
            r@.to_multiset() == initial_deck().to_multiset(),
    {
        let mut cards: Vec<i8> = Vec::new();
        push_copies(&mut cards, -2, 5);
        push_copies(&mut cards, 0, 15);
        push_copies(&mut cards, -1, 10);
        push_copies(&mut cards, 1, 10);
        push_copies(&mut cards, 2, 10);
        push_copies(&mut cards, 3, 10);
        push_copies(&mut cards, 4, 10);
        push_copies(&mut cards, 5, 10);
        push_copies(&mut cards, 6, 10);
        push_copies(&mut cards, 7, 10);
        push_copies(&mut cards, 8, 10);
        push_copies(&mut cards, 9, 10);
        push_copies(&mut cards, 10, 10);
        push_copies(&mut cards, 11, 10);
        push_copies(&mut cards, 12, 10);
        assert(cards@ =~= initial_deck());
        let mut new = Stack { cards };
        new.shuffle();
        new
    }

    /// A stack holding exactly `cards`, in that order; the last card is drawn first.
    pub fn with_cards(cards: Vec<i8>) -> (r: Self)
        ensures
            r@ == cards@,
    {
        Stack { cards }
    }

    /// The number of cards left.
    pub fn len(&self) -> (r: usize)
        ensures
            r == self@.len(),
    {
        self.cards.len()
    }

    /// Puts the cards in a random order.
    pub fn shuffle(&mut self)
        ensures
            final(self)@.len() == old(self)@.len(),
            final(self)@.to_multiset() == old(self)@.to_multiset(),
    {
        shuffle_cards(&mut self.cards)
    }

    /// Takes the top card, or fails when the stack is empty.
    pub fn draw(&mut self) -> (r: Result<i8, String>)
        ensures
            old(self)@.len() > 0 ==> r == Ok::<i8, String>(old(self)@.last()) && final(self)@
                == old(self)@.drop_last(),
            old(self)@.len() == 0 ==> r is Err && final(self)@ == old(self)@,
    {
        match self.cards.pop() {
            Some(x) => Ok(x),
            None => Err("No cards in stack".to_string()),
        }
    }

    /// Deals a face-down grid of four columns from the top twelve cards, or fails, taking
    /// nothing, when fewer than twelve are left.
    pub fn draw_playfield(&mut self) -> (r: Result<Vec<Column>, String>)
        ensures
            old(self)@.len() < 12 ==> r is Err && final(self)@ == old(self)@,
            old(self)@.len() >= 12 ==> r is Ok && dealt_grid(old(self)@, r->Ok_0@)
                && final(self)@ == old(self)@.subrange(0, old(self)@.len() - 12),
    {
        if self.cards.len() < 12 {
            return Err("Not enough cards in stack".to_string());
        }
        let ghost start = self.cards@;
        let ghost n = start.len();
        let mut pf: Vec<Column> = Vec::new();
        let mut k: usize = 0;
        while k < 4
            invariant
                k <= 4,
                n == start.len(),
                n >= 12,
                self.cards@ == start.subrange(0, n - 3 * k),
                pf@.len() == k,
                all_hidden(pf@),
                forall|i: int, j: int|
                    0 <= i < k && 0 <= j < 3 ==> (#[trigger] pf@[i][j]).1 == start[n - 1 - 3 * i
                        - j],
            decreases 4 - k,
        {
            let a = self.cards.pop().unwrap();
            let b = self.cards.pop().unwrap();
            let c = self.cards.pop().unwrap();
            pf.push([(false, a), (false, b), (false, c)]);
            k = k + 1;
            assert(self.cards@ =~= start.subrange(0, n - 3 * k));
        }
        Ok(pf)
    }
}

} // verus!
