use crate::playerdata::{
    Column,
    PlayerData,
    clears_value,
    all_hidden,
    hidden_count,
    done_count,
    is_done_column,
    kept,
    lemma_all_hidden_count,
    lemma_clearing_counts,
    lemma_clearing_idempotent,
    lemma_kept_has_no_done_column,
    reveal_column,
    revealed,
};
use crate::stack::{Stack, dealt_grid, initial_deck};
use vstd::prelude::*;

verus! {

/// Where the game stands: every player first turns two cards face up, then the turns are
/// played, until the game has ended.
#[derive(PartialEq, Eq, Structural, Clone, Copy, Debug)]
pub enum GamePhase {
    InitialReveal,
    Play,
    Ended,
}

/// A game in progress: the players in turn order, the draw pile, whose turn it is, the phase,
/// and the card that was thrown away last, if any.
pub struct Game {
    pub playerdata: Vec<PlayerData>,
    pub stack: Stack,
    pub current_player: usize,
    pub phase: GamePhase,
    pub last_played_card: Option<i8>,
}

/// Every player keeps their name, and their grid becomes `f` of what it was.
pub open spec fn grids_mapped(
    old_ps: Seq<PlayerData>,
    new_ps: Seq<PlayerData>,
    f: spec_fn(Seq<Column>) -> Seq<Column>,
) -> bool {
    &&& new_ps.len() == old_ps.len()
    &&& forall|q: int|
        0 <= q < old_ps.len() ==> (#[trigger] new_ps[q]).name == old_ps[q].name
            && new_ps[q].playfield@ == f(old_ps[q].playfield@)
}

/// Player `p`'s grid becomes `pf`; every other player and `p`'s name stay as they were.
pub open spec fn grid_replaced(
    old_ps: Seq<PlayerData>,
    new_ps: Seq<PlayerData>,
    p: int,
    pf: Seq<Column>,
) -> bool {
    &&& new_ps.len() == old_ps.len()
    &&& forall|q: int| 0 <= q < old_ps.len() && q != p ==> #[trigger] new_ps[q] == old_ps[q]
    &&& new_ps[p].name == old_ps[p].name
    &&& new_ps[p].playfield@ == pf
}

/// Whether the card thrown away last is the value of a column that a clearing scan removes
/// from some player's grid.
pub open spec fn clears_discard(ps: Seq<PlayerData>, discard: Option<i8>) -> bool {
    &&& discard is Some
    &&& exists|q: int| 0 <= q < ps.len() && clears_value(#[trigger] ps[q].playfield@, discard->0)
}

/// A position names a face-down cell of the grid.
pub open spec fn hidden_at(pf: Seq<Column>, col: int, row: int) -> bool {
    0 <= col < pf.len() && 0 <= row < 3 && !pf[col][row].0
}

fn reveal_grid(pf: &mut Vec<Column>)
    ensures
        final(pf)@ == revealed(old(pf)@),
{
    let ghost start = pf@;
    let mut j: usize = 0;
    while j < pf.len()
        invariant
            j <= pf@.len(),
            pf@.len() == start.len(),
            forall|k: int| 0 <= k < j ==> #[trigger] pf@[k] == reveal_column(start[k]),
            forall|k: int| j <= k < pf@.len() ==> #[trigger] pf@[k] == start[k],
        decreases pf@.len() - j,
    {
        let c = pf[j];
        pf.set(j, [(true, c[0].1), (true, c[1].1), (true, c[2].1)]);
        j = j + 1;
    }
    assert(pf@ =~= revealed(start));
}

/// The column with the cell at `row` set to `cell`.
pub open spec fn set_cell(c: Column, row: int, cell: (bool, i8)) -> Column {
    [
        if row == 0 { cell } else { c[0] },
        if row == 1 { cell } else { c[1] },
        if row == 2 { cell } else { c[2] },
    ]
}

fn with_cell(c: Column, row: usize, cell: (bool, i8)) -> (r: Column)
    ensures
        r == set_cell(c, row as int, cell),
{
    [
        if row == 0 { cell } else { c[0] },
        if row == 1 { cell } else { c[1] },
        if row == 2 { cell } else { c[2] },
    ]
}

/// Whether `pos`, as `(column, row)`, names a face-down cell of `playfield`: the positions a
/// player may pick to turn a card face up.
pub fn is_hidden(playfield: Vec<Column>, pos: (usize, usize)) -> (r: bool)
    ensures
        r == hidden_at(playfield@, pos.0 as int, pos.1 as int),
{
    pos.0 < playfield.len() && pos.1 < 3 && !playfield[pos.0][pos.1].0
}

/// One clearing scan of a grid: the columns that are not done, and whether a done column
/// holds the value `discard`.
fn clear_playfield(pf: &Vec<Column>, discard: Option<i8>) -> (r: (Vec<Column>, bool))
    ensures
        r.0@ == kept(pf@),
        r.1 == (discard is Some && clears_value(pf@, discard->0)),
{
    let mut out: Vec<Column> = Vec::new();
    let mut found = false;
    let mut j: usize = 0;
    while j < pf.len()
        invariant
            j <= pf@.len(),
            out@ == kept(pf@.subrange(0, j as int)),
            found == (discard is Some && clears_value(pf@.subrange(0, j as int), discard->0)),
        decreases pf@.len() - j,
    {
        let c = pf[j];
        let ghost pre = pf@.subrange(0, j as int);
        let ghost next = pf@.subrange(0, j + 1);
        proof {
            assert(next.drop_last() =~= pre);
            assert(next.last() == c);
        }
        let done = c[0].0 && c[1].0 && c[2].0 && c[0].1 == c[1].1 && c[1].1 == c[2].1;
        if !done {
            out.push(c);
        }
        let hit = match discard {
            Some(v) => done && c[0].1 == v,
            None => false,
        };
        proof {
            if discard is Some {
                let v = discard->0;
                if clears_value(pre, v) {
                    let i = choose|i: int| 0 <= i < pre.len() && is_done_column(#[trigger] pre[i]) && pre[i][0].1 == v;
                    assert(next[i] == pre[i]);
                }
                if hit {
                    assert(next[j as int] == c);
                }
                if clears_value(next, v) && !hit {
                    let i = choose|i: int| 0 <= i < next.len() && is_done_column(#[trigger] next[i]) && next[i][0].1 == v;
                    assert(pre[i] == next[i]);
                }
            }
        }
        found = found || hit;
        j = j + 1;
    }
    assert(pf@.subrange(0, j as int) =~= pf@);
    (out, found)
}

impl Game {
    /// The game is well formed: it has players, and the current one is among them.
    pub open spec fn wf(&self) -> bool {
        &&& self.playerdata@.len() > 0
        &&& self.current_player < self.playerdata@.len()
    }

    /// Everything but the players is as in `other`.
    pub open spec fn same_but_players(&self, other: &Game) -> bool {
        &&& self.stack == other.stack
        &&& self.current_player == other.current_player
        &&& self.phase == other.phase
        &&& self.last_played_card == other.last_played_card
    }

    pub open spec fn grid(&self, p: int) -> Seq<Column> {
        self.playerdata@[p].playfield@
    }

    /// Whether the game has ended.
    pub fn is_done(&self) -> (r: bool)
        ensures
            r == (self.phase == GamePhase::Ended),
    {
        self.phase == GamePhase::Ended
    }

    /// Whether some card of `playfield` is still face down.
    pub fn has_unrevealed_cards(&self, playfield: &Vec<Column>) -> (r: bool)
        ensures
            r == (hidden_count(playfield@) > 0),
    {
        let mut j: usize = 0;
        while j < playfield.len()
            invariant
                j <= playfield@.len(),
                hidden_count(playfield@.subrange(0, j as int)) == 0,
            decreases playfield@.len() - j,
        {
            let c = playfield[j];
            proof {
                assert(playfield@.subrange(0, j + 1).drop_last() =~= playfield@.subrange(0, j as int));
            }
            if !c[0].0 || !c[1].0 || !c[2].0 {
                proof {
                    lemma_hidden_count_prefix(playfield@, j + 1);
                }
                return true;
            }
            j = j + 1;
        }
        assert(playfield@.subrange(0, j as int) =~= playfield@);
        false
    }

    /// Turns the current player's card at `(col, row)` face up. Does nothing and returns
    /// `false` once the game has ended or when the position is not a face-down card of theirs.
    pub fn reveal_card(&mut self, col: usize, row: usize) -> (r: bool)
        requires
            old(self).wf(),
        ensures
            r == (old(self).phase != GamePhase::Ended && hidden_at(
                old(self).grid(old(self).current_player as int),
                col as int,
                row as int,
            )),
            r ==> grid_replaced(
                old(self).playerdata@,
                final(self).playerdata@,
                old(self).current_player as int,
                old(self).grid(old(self).current_player as int).update(
                    col as int,
                    set_cell(
                        old(self).grid(old(self).current_player as int)[col as int],
                        row as int,
                        (true, old(self).grid(old(self).current_player as int)[col as int][row as int].1),
                    ),
                ),
            ),
            !r ==> final(self).playerdata == old(self).playerdata,
            final(self).same_but_players(old(self)),
    {
        let p = self.current_player;
        if self.phase == GamePhase::Ended || col >= self.playerdata[p].playfield.len() || row >= 3 {
            return false;
        }
        let c = self.playerdata[p].playfield[col];
        if c[row].0 {
            return false;
        }
        let nc = with_cell(c, row, (true, c[row].1));
        self.playerdata[p].playfield.set(col, nc);
        true
    }

    /// Puts `card` face up at the current player's `(col, row)`; the card that lay there
    /// becomes the one thrown away last. Only during play, and at a position of their grid;
    /// otherwise nothing changes and the result is `false`.
    pub fn replace_card(&mut self, card: i8, col: usize, row: usize) -> (r: bool)
        requires
            old(self).wf(),
        ensures
            r == (old(self).phase == GamePhase::Play && col < old(self).grid(
                old(self).current_player as int,
            ).len() && row < 3),
            r ==> grid_replaced(
                old(self).playerdata@,
                final(self).playerdata@,
                old(self).current_player as int,
                old(self).grid(old(self).current_player as int).update(
                    col as int,
                    set_cell(
                        old(self).grid(old(self).current_player as int)[col as int],
                        row as int,
                        (true, card),
                    ),
                ),
            ),
            r ==> final(self).last_played_card == Some(
                old(self).grid(old(self).current_player as int)[col as int][row as int].1,
            ),
            !r ==> *final(self) == *old(self),
            final(self).stack == old(self).stack,
            final(self).current_player == old(self).current_player,
            final(self).phase == old(self).phase,
    {
        let p = self.current_player;
        if self.phase != GamePhase::Play || col >= self.playerdata[p].playfield.len() || row >= 3 {
            return false;
        }
        let c = self.playerdata[p].playfield[col];
        self.last_played_card = Some(c[row].1);
        let nc = with_cell(c, row, (true, card));
        self.playerdata[p].playfield.set(col, nc);
        true
    }

    /// Throws `card` away and turns the current player's face-down card at `(col, row)` face
    /// up. Only during play, and at a face-down card of theirs; otherwise nothing changes and
    /// the result is `false`.
    pub fn throw_away(&mut self, card: i8, col: usize, row: usize) -> (r: bool)
        requires
            old(self).wf(),
        ensures
            r == (old(self).phase == GamePhase::Play && hidden_at(
                old(self).grid(old(self).current_player as int),
                col as int,
                row as int,
            )),
            r ==> grid_replaced(
                old(self).playerdata@,
                final(self).playerdata@,
                old(self).current_player as int,
                old(self).grid(old(self).current_player as int).update(
                    col as int,
                    set_cell(
                        old(self).grid(old(self).current_player as int)[col as int],
                        row as int,
                        (true, old(self).grid(old(self).current_player as int)[col as int][row as int].1),
                    ),
                ),
            ),
            r ==> final(self).last_played_card == Some(card),
            !r ==> *final(self) == *old(self),
            final(self).stack == old(self).stack,
            final(self).current_player == old(self).current_player,
            final(self).phase == old(self).phase,
    {
        if self.phase != GamePhase::Play {
            return false;
        }
        let p = self.current_player;
        if col >= self.playerdata[p].playfield.len() || row >= 3 || self.playerdata[p].playfield[col][row].0 {
            return false;
        }
        self.reveal_card(col, row);
        self.last_played_card = Some(card);
        true
    }

    /// The card the current player gets this turn. With no card thrown away, or when
    /// `draw` is asked for, it is the top card of the stack (an error when the stack is
    /// empty); otherwise it is the card thrown away last, which is then gone. Outside play it
    /// is an error and nothing changes.
    pub fn take_or_draw(&mut self, draw: bool) -> (r: Result<i8, String>)
        ensures
            old(self).phase != GamePhase::Play ==> r is Err && *final(self) == *old(self),
            old(self).phase == GamePhase::Play && !draw && old(self).last_played_card is Some ==> r
                == Ok::<i8, String>(old(self).last_played_card->0) && final(self).last_played_card
                is None && final(self).stack == old(self).stack,
            old(self).phase == GamePhase::Play && (draw || old(self).last_played_card is None) ==> {
                &&& old(self).stack@.len() > 0 ==> r == Ok::<i8, String>(old(self).stack@.last())
                    && final(self).stack@ == old(self).stack@.drop_last()
                &&& old(self).stack@.len() == 0 ==> r is Err && final(self).stack@ == old(
                    self,
                ).stack@
                &&& final(self).last_played_card == old(self).last_played_card
            },
            final(self).playerdata == old(self).playerdata,
            final(self).current_player == old(self).current_player,
            final(self).phase == old(self).phase,
    {
        if self.phase != GamePhase::Play {
            return Err("The game is not in play".to_string());
        }
        match self.last_played_card {
            Some(v) if !draw => {
                self.last_played_card = None;
                Ok(v)
            },
            _ => self.stack.draw(),
        }
    }

    /// One clearing scan: takes every done column off every player's grid. The card thrown
    /// away last is dropped when a removed column holds its value. Once the game has ended,
    /// nothing changes.
    pub fn remove_done_columns(&mut self)
        ensures
            old(self).phase == GamePhase::Ended ==> *final(self) == *old(self),
            old(self).phase != GamePhase::Ended ==> grids_mapped(old(self).playerdata@, final(self).playerdata@, |s| kept(s)),
            old(self).phase != GamePhase::Ended ==> final(self).last_played_card == if clears_discard(
                old(self).playerdata@,
                old(self).last_played_card,
            ) {
                None
            } else {
                old(self).last_played_card
            },
            old(self).phase != GamePhase::Ended ==> forall|q: int, j: int|
                0 <= q < final(self).playerdata@.len() && 0 <= j < final(self).grid(q).len()
                    ==> !is_done_column(#[trigger] final(self).grid(q)[j]),
            old(self).phase != GamePhase::Ended ==> forall|q: int|
                0 <= q < old(self).playerdata@.len() ==> #[trigger] final(self).grid(q).len()
                    + done_count(old(self).grid(q)) == old(self).grid(q).len(),
            final(self).stack == old(self).stack,
            final(self).current_player == old(self).current_player,
            final(self).phase == old(self).phase,
    {
        if self.phase == GamePhase::Ended {
            return;
        }
        let ghost start = self.playerdata@;
        let discard = self.last_played_card;
        let mut hit = false;
        let mut i: usize = 0;
        while i < self.playerdata.len()
            invariant
                i <= self.playerdata@.len(),
                self.playerdata@.len() == start.len(),
                start == old(self).playerdata@,
                self.same_but_players(old(self)),
                discard == old(self).last_played_card,
                hit == (discard is Some && exists|q: int|
                    0 <= q < i && clears_value(#[trigger] start[q].playfield@, discard->0)),
                forall|q: int|
                    0 <= q < i ==> (#[trigger] self.playerdata@[q]).name == start[q].name
                        && self.playerdata@[q].playfield@ == kept(start[q].playfield@),
                forall|q: int| i <= q < self.playerdata@.len() ==> #[trigger] self.playerdata@[q] == start[q],
            decreases self.playerdata@.len() - i,
        {
            let (pf, h) = clear_playfield(&self.playerdata[i].playfield, discard);
            self.playerdata[i].playfield = pf;
            proof {
                if discard is Some {
                    let v = discard->0;
                    if h {
                        assert(clears_value(start[i as int].playfield@, v));
                    }
                    if exists|q: int| 0 <= q < i + 1 && clears_value(#[trigger] start[q].playfield@, v) {
                        if !h {
                            let q = choose|q: int| 0 <= q < i + 1 && clears_value(#[trigger] start[q].playfield@, v);
                            assert(q < i);
                        }
                    }
                }
            }
            hit = hit || h;
            i = i + 1;
        }
        if hit {
            self.last_played_card = None;
        }
        proof {
            assert forall|q: int, j: int|
                0 <= q < self.playerdata@.len() && 0 <= j < self.grid(q).len() implies !is_done_column(
                #[trigger] self.grid(q)[j],
            ) by {
                lemma_kept_has_no_done_column(start[q].playfield@);
            }
            assert forall|q: int| 0 <= q < start.len() implies #[trigger] self.grid(q).len()
                + done_count(start[q].playfield@) == start[q].playfield@.len() by {
                lemma_clearing_counts(start[q].playfield@);
            }
        }
    }

    /// Closes the current player's turn and passes it to the next player in order.
    /// After the initial reveals of the last player, play begins. During play, a clearing
    /// scan runs; then, when the current player has no face-down card left, the game ends
    /// and every card is turned face up. The result says whether the game ended now.
    pub fn end_turn(&mut self) -> (ended: bool)
        requires
            old(self).wf(),
        ensures
            final(self).wf(),
            final(self).current_player == (old(self).current_player + 1) % (old(
                self,
            ).playerdata@.len() as int),
            final(self).stack == old(self).stack,
            old(self).phase == GamePhase::InitialReveal ==> {
                &&& final(self).playerdata == old(self).playerdata
                &&& final(self).last_played_card == old(self).last_played_card
                &&& final(self).phase == if old(self).current_player + 1 == old(
                    self,
                ).playerdata@.len() {
                    GamePhase::Play
                } else {
                    GamePhase::InitialReveal
                }
                &&& !ended
            },
            old(self).phase == GamePhase::Ended ==> {
                &&& final(self).playerdata == old(self).playerdata
                &&& final(self).last_played_card == old(self).last_played_card
                &&& final(self).phase == GamePhase::Ended
                &&& !ended
            },
            old(self).phase == GamePhase::Play ==> {
                &&& ended == (hidden_count(kept(old(self).grid(old(self).current_player as int)))
                    == 0)
                &&& ended ==> grids_mapped(
                    old(self).playerdata@,
                    final(self).playerdata@,
                    |s| revealed(kept(s)),
                ) && final(self).phase == GamePhase::Ended
                &&& !ended ==> grids_mapped(
                    old(self).playerdata@,
                    final(self).playerdata@,
                    |s| kept(s),
                ) && final(self).phase == GamePhase::Play
                &&& final(self).last_played_card == if clears_discard(
                    old(self).playerdata@,
                    old(self).last_played_card,
                ) {
                    None
                } else {
                    old(self).last_played_card
                }
            },
    {
        let mut ended = false;
        match self.phase {
            GamePhase::InitialReveal => {
                if self.current_player == self.playerdata.len() - 1 {
                    self.phase = GamePhase::Play;
                }
            },
            GamePhase::Play => {
                let ghost start = self.playerdata@;
                self.remove_done_columns();
                let ghost mid = self.playerdata@;
                let p = self.current_player;
                if !self.has_unrevealed_cards(&self.playerdata[p].playfield) {
                    self.phase = GamePhase::Ended;
                    self.reveal_all_cards();
                    ended = true;
                    assert forall|q: int| 0 <= q < start.len() implies (
                    #[trigger] self.playerdata@[q]).name == start[q].name
                        && self.playerdata@[q].playfield@ == revealed(
                        kept(start[q].playfield@),
                    ) by {
                        assert(mid[q].name == start[q].name);
                    }
                }
            },
            GamePhase::Ended => {},
        }
        let n = self.playerdata.len();
        self.current_player = (self.current_player + 1) % n;
        ended
    }

    /// Turns every card of every player face up.
    fn reveal_all_cards(&mut self)
        ensures
            grids_mapped(old(self).playerdata@, final(self).playerdata@, |s| revealed(s)),
            final(self).same_but_players(old(self)),
    {
        let ghost start = self.playerdata@;
        let mut i: usize = 0;
        while i < self.playerdata.len()
            invariant
                i <= self.playerdata@.len(),
                self.playerdata@.len() == start.len(),
                start == old(self).playerdata@,
                self.same_but_players(old(self)),
                forall|q: int|
                    0 <= q < i ==> (#[trigger] self.playerdata@[q]).name == start[q].name
                        && self.playerdata@[q].playfield@ == revealed(start[q].playfield@),
                forall|q: int| i <= q < self.playerdata@.len() ==> #[trigger] self.playerdata@[q] == start[q],
            decreases self.playerdata@.len() - i,
        {
            reveal_grid(&mut self.playerdata[i].playfield);
            i = i + 1;
        }
    }
}

proof fn lemma_hidden_count_prefix(s: Seq<Column>, n: int)
    requires
        0 <= n <= s.len(),
    ensures
        hidden_count(s.subrange(0, n)) <= hidden_count(s),
    decreases s.len() - n,
{
    if n < s.len() {
        lemma_hidden_count_prefix(s, n + 1);
        assert(s.subrange(0, n + 1).drop_last() =~= s.subrange(0, n));
    } else {
        assert(s.subrange(0, n) =~= s);
    }
}

/// A game being set up: players join one by one, each dealt a grid from the stack.
#[derive(Clone)]
pub struct GameBuilder {
    pub playerdata: Vec<PlayerData>,
    pub stack: Stack,
    pub current_player: usize,
    pub phase: GamePhase,
    pub last_played_card: Option<i8>,
}

/// `new_b` is `old_b` with one more player, `name`, dealt a grid from the top of the stack.
pub open spec fn player_added(old_b: GameBuilder, new_b: GameBuilder, name: String) -> bool {
    let n = old_b.playerdata@.len();
    let s = old_b.stack@;
    &&& new_b.playerdata@.len() == n + 1
    &&& new_b.playerdata@.subrange(0, n as int) == old_b.playerdata@
    &&& new_b.playerdata@[n as int].name == name
    &&& dealt_grid(s, new_b.playerdata@[n as int].playfield@)
    &&& new_b.stack@ == s.subrange(0, s.len() - 12)
    &&& new_b.current_player == old_b.current_player
    &&& new_b.phase == old_b.phase
    &&& new_b.last_played_card == old_b.last_played_card
}

impl GameBuilder {
    /// The state of a fresh setup: each player holds four face-down columns, and the stack
    /// holds the 150 cards less the twelve dealt to each player.
    pub open spec fn setup_wf(&self) -> bool {
        &&& self.stack@.len() + 12 * self.playerdata@.len() == 150
        &&& forall|q: int|
            0 <= q < self.playerdata@.len() ==> (#[trigger] self.playerdata@[q]).playfield@.len()
                == 4 && all_hidden(self.playerdata@[q].playfield@) && hidden_count(
                self.playerdata@[q].playfield@,
            ) == 12
        &&& self.current_player == 0
        &&& self.phase == GamePhase::InitialReveal
        &&& self.last_played_card is None
    }

    /// No players yet, and a full shuffled stack.
    pub fn new() -> (r: Self)
        ensures
            r.setup_wf(),
            r.playerdata@.len() == 0,
            r.stack@.to_multiset() == initial_deck().to_multiset(),
    {
        GameBuilder {
            playerdata: Vec::new(),
            stack: Stack::new(),
            current_player: 0,
            phase: GamePhase::InitialReveal,
            last_played_card: None,
        }
    }

    /// Adds a player named `name` with a grid dealt from the stack; an error, with nothing
    /// changed, when fewer than twelve cards are left.
    pub fn with_player(&mut self, name: String) -> (r: Result<&mut Self, String>)
        ensures
            old(self).stack@.len() < 12 ==> r is Err && *final(self) == *old(self),
            old(self).stack@.len() >= 12 ==> r is Ok && player_added(*old(self), *r->Ok_0, name),
            old(self).setup_wf() && r is Ok ==> (*r->Ok_0).setup_wf(),
            match r {
                Ok(b) => *final(self) == *final(b),
                Err(_) => true,
            },
    {
        if self.stack.len() < 12 {
            return Err("Not enough cards in stack".to_string());
        }
        let playfield = match self.stack.draw_playfield() {
            Ok(pf) => pf,
            Err(e) => return Err(e),
        };
        let ghost before = self.playerdata@;
        self.playerdata.push(PlayerData { name, playfield });
        assert(self.playerdata@.subrange(0, before.len() as int) =~= before);
        proof {
            if old(self).setup_wf() {
                lemma_setup_kept(*old(self), *self, name);
            }
        }
        Ok(self)
    }

    /// The game, ready for its first turn.
    pub fn build(self) -> (r: Game)
        ensures
            r.playerdata == self.playerdata,
            r.stack == self.stack,
            r.current_player == self.current_player,
            r.phase == self.phase,
            r.last_played_card == self.last_played_card,
    {
        Game {
            playerdata: self.playerdata,
            stack: self.stack,
            current_player: self.current_player,
            phase: self.phase,
            last_played_card: self.last_played_card,
        }
    }
}

/// Setting up keeps its shape as players join: however many have joined, each holds four
/// columns of three face-down cards, twelve in all, and the stack holds 150 cards less twelve
/// for each player.
pub proof fn lemma_setup_kept(old_b: GameBuilder, new_b: GameBuilder, name: String)
    requires
        old_b.setup_wf(),
        player_added(old_b, new_b, name),
    ensures
        new_b.setup_wf(),
{
    let n = old_b.playerdata@.len();
    assert forall|q: int| 0 <= q < new_b.playerdata@.len() implies (
    #[trigger] new_b.playerdata@[q]).playfield@.len() == 4 && all_hidden(
        new_b.playerdata@[q].playfield@,
    ) && hidden_count(new_b.playerdata@[q].playfield@) == 12 by {
        if q < n {
            assert(new_b.playerdata@[q] == new_b.playerdata@.subrange(0, n as int)[q]);
        } else {
            lemma_all_hidden_count(new_b.playerdata@[q].playfield@);
        }
    }
}

/// A clearing scan run straight after another removes nothing and leaves the card thrown
/// away last as it was.
pub proof fn lemma_second_scan_removes_nothing(g1: Game, g2: Game, g3: Game)
    requires
        grids_mapped(g1.playerdata@, g2.playerdata@, |s| kept(s)),
        grids_mapped(g2.playerdata@, g3.playerdata@, |s| kept(s)),
    ensures
        forall|q: int|
            0 <= q < g3.playerdata@.len() ==> (#[trigger] g3.playerdata@[q]).playfield@
                == g2.playerdata@[q].playfield@,
        !clears_discard(g2.playerdata@, g2.last_played_card),
{
    assert forall|q: int| 0 <= q < g3.playerdata@.len() implies (
    #[trigger] g3.playerdata@[q]).playfield@ == g2.playerdata@[q].playfield@ by {
        lemma_clearing_idempotent(g1.playerdata@[q].playfield@);
    }
    if clears_discard(g2.playerdata@, g2.last_played_card) {
        let v = g2.last_played_card->0;
        let q = choose|q: int|
            0 <= q < g2.playerdata@.len() && clears_value(#[trigger] g2.playerdata@[q].playfield@, v);
        lemma_kept_has_no_done_column(g1.playerdata@[q].playfield@);
        let s = g2.playerdata@[q].playfield@;
        let i = choose|i: int| 0 <= i < s.len() && is_done_column(#[trigger] s[i]) && s[i][0].1 == v;
    }
}

} // verus!
