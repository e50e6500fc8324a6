use vstd::prelude::*;

verus! {

/// One column of a grid, top row first: each cell is `(revealed, value)`.
pub type Column = [(bool, i8); 3];

/// A player: a name and a grid of columns.
#[derive(Clone, Debug)]
pub struct PlayerData {
    pub name: String,
    pub playfield: Vec<Column>,
}

/// A column is done when its three cells are revealed and hold the same value.
pub open spec fn is_done_column(c: Column) -> bool {
    &&& c[0].0 && c[1].0 && c[2].0
    &&& c[0].1 == c[1].1 && c[1].1 == c[2].1
}

/// The grid left after one clearing scan: the columns that are not done, in their order.
pub open spec fn kept(s: Seq<Column>) -> Seq<Column>
    decreases s.len(),
{
    if s.len() == 0 {
        Seq::empty()
    } else if is_done_column(s.last()) {
        kept(s.drop_last())
    } else {
        kept(s.drop_last()).push(s.last())
    }
}

/// How many columns of the grid are done.
pub open spec fn done_count(s: Seq<Column>) -> nat
    decreases s.len(),
{
    if s.len() == 0 {
        0
    } else {
        done_count(s.drop_last()) + if is_done_column(s.last()) { 1nat } else { 0nat }
    }
}

/// Whether a clearing scan of the grid removes a column of value `v`.
pub open spec fn clears_value(s: Seq<Column>, v: i8) -> bool {
    exists|i: int| 0 <= i < s.len() && is_done_column(#[trigger] s[i]) && s[i][0].1 == v
}

pub open spec fn hidden_in_column(c: Column) -> nat {
    (if c[0].0 { 0nat } else { 1nat }) + (if c[1].0 { 0nat } else { 1nat }) + (if c[2].0 {
        0nat
    } else {
        1nat
    })
}

/// How many cells of the grid are face down.
pub open spec fn hidden_count(s: Seq<Column>) -> nat
    decreases s.len(),
{
    if s.len() == 0 {
        0
    } else {
        hidden_count(s.drop_last()) + hidden_in_column(s.last())
    }
}

pub open spec fn column_sum(c: Column) -> int {
    c[0].1 as int + c[1].1 as int + c[2].1 as int
}

/// A grid's score: the sum of the values of all its cells, face up or not.
pub open spec fn score_of(s: Seq<Column>) -> int
    decreases s.len(),
{
    if s.len() == 0 {
        0
    } else {
        score_of(s.drop_last()) + column_sum(s.last())
    }
}

pub open spec fn reveal_column(c: Column) -> Column {
    [(true, c[0].1), (true, c[1].1), (true, c[2].1)]
}

/// The grid with every cell turned face up.
pub open spec fn revealed(s: Seq<Column>) -> Seq<Column> {
    Seq::new(s.len(), |i: int| reveal_column(s[i]))
}

/// A grid as dealt: every cell face down.
pub open spec fn all_hidden(s: Seq<Column>) -> bool {
    forall|i: int| 0 <= i < s.len() ==> !(#[trigger] s[i])[0].0 && !s[i][1].0 && !s[i][2].0
}

/// Clearing is idempotent: a second scan straight after a first removes nothing.
pub proof fn lemma_clearing_idempotent(s: Seq<Column>)
    ensures
        kept(kept(s)) == kept(s),
    decreases s.len(),
{
    if s.len() > 0 {
        lemma_clearing_idempotent(s.drop_last());
        if !is_done_column(s.last()) {
            let k = kept(s.drop_last()).push(s.last());
            assert(k.drop_last() =~= kept(s.drop_last()));
        }
    }
}

/// Each cleared column takes exactly one column, and its three cells, off the grid.
pub proof fn lemma_clearing_counts(s: Seq<Column>)
    ensures
        kept(s).len() + done_count(s) == s.len(),
        3 * kept(s).len() + 3 * done_count(s) == 3 * s.len(),
        done_count(s) > 0 ==> kept(s).len() < s.len(),
    decreases s.len(),
{
    if s.len() > 0 {
        lemma_clearing_counts(s.drop_last());
    }
}

/// No column left after a scan is done.
pub proof fn lemma_kept_has_no_done_column(s: Seq<Column>)
    ensures
        forall|i: int| 0 <= i < kept(s).len() ==> !is_done_column(#[trigger] kept(s)[i]),
    decreases s.len(),
{
    if s.len() > 0 {
        lemma_kept_has_no_done_column(s.drop_last());
        let k = kept(s.drop_last());
        if !is_done_column(s.last()) {
            assert forall|i: int| 0 <= i < k.len() + 1 implies !is_done_column(
                #[trigger] k.push(s.last())[i],
            ) by {
                if i < k.len() {
                    assert(k.push(s.last())[i] == k[i]);
                }
            }
        }
    }
}

/// A grid as dealt, all face down, has three hidden cards per column.
pub proof fn lemma_all_hidden_count(s: Seq<Column>)
    requires
        all_hidden(s),
    ensures
        hidden_count(s) == 3 * s.len(),
    decreases s.len(),
{
    if s.len() > 0 {
        assert(all_hidden(s.drop_last())) by {
            assert forall|i: int| 0 <= i < s.drop_last().len() implies !(
            #[trigger] s.drop_last()[i])[0].0 && !s.drop_last()[i][1].0 && !s.drop_last()[i][2].0 by {
                assert(s.drop_last()[i] == s[i]);
            }
        }
        lemma_all_hidden_count(s.drop_last());
        assert(s.last() == s[s.len() - 1]);
    }
}

/// Turning every card face up leaves the score as it was and no card face down.
pub proof fn lemma_reveal_keeps_score(s: Seq<Column>)
    ensures
        score_of(revealed(s)) == score_of(s),
        hidden_count(revealed(s)) == 0,
        revealed(s).len() == s.len(),
    decreases s.len(),
{
    if s.len() > 0 {
        lemma_reveal_keeps_score(s.drop_last());
        assert(revealed(s).drop_last() =~= revealed(s.drop_last()));
    }
}

/// The score of a grid: the sum of the values of all its cells.
pub fn score(playfield: &Vec<Column>) -> (r: i128)
    ensures
        r == score_of(playfield@),
{
    let mut total: i128 = 0;
    let mut i: usize = 0;
    while i < playfield.len()
        invariant
            i <= playfield@.len(),
            total == score_of(playfield@.subrange(0, i as int)),
            -384 * i <= total <= 384 * i,
        decreases playfield@.len() - i,
    {
        let c = playfield[i];
        proof {
            assert(playfield@.subrange(0, i + 1).drop_last() =~= playfield@.subrange(0, i as int));
        }
        total = total + c[0].1 as i128 + c[1].1 as i128 + c[2].1 as i128;
        i = i + 1;
    }
    assert(playfield@.subrange(0, i as int) =~= playfield@);
    total
}

} // verus!
