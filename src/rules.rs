use vstd::prelude::*;

use crate::cell::Cell;

verus! {

/// The rule that advances the grid.
#[derive(Debug, Clone, Copy, PartialEq, Eq, Structural)]
pub enum Rule {
    /// Conway's birth/survival rule (B3/S23).
    Classic,
    /// Signed strengths are summed; the sign of the total picks the team.
    War,
}

/// The number of living cells in `s`.
pub open spec fn alive_count(s: Seq<Cell>) -> nat
    decreases s.len(),
{
    if s.len() == 0 {
        0
    } else {
        alive_count(s.drop_last()) + if s.last() is Alive {
            1nat
        } else {
            0nat
        }
    }
}

/// The sum of the strengths of the living cells in `s`.
pub open spec fn strength_sum(s: Seq<Cell>) -> int
    decreases s.len(),
{
    if s.len() == 0 {
        0
    } else {
        strength_sum(s.drop_last()) + s.last().strength()
    }
}

/// The classic rule on a cell with `n` living neighbours: a living cell
/// with fewer than two or more than three dies, a cell with exactly three
/// is alive with strength 0 (born, when it was dead), any other cell stays.
pub open spec fn classic_from_count(current: Cell, n: int) -> Cell {
    if current is Alive && !(2 <= n <= 3) {
        Cell::Dead
    } else if n == 3 {
        Cell::Alive(0i8)
    } else {
        current
    }
}

/// The war rule on a local total (the cell's own strength plus its
/// neighbours'): a magnitude of two or three gives a living cell of unit
/// strength carrying the sign of the total, anything else a dead cell.
pub open spec fn war_from_total(total: int) -> Cell {
    if 2 <= total <= 3 {
        Cell::Alive(1i8)
    } else if -3 <= total <= -2 {
        Cell::Alive(-1i8)
    } else {
        Cell::Dead
    }
}

pub open spec fn classic_rule(current: Cell, neighbourhood: Seq<Cell>) -> Cell {
    classic_from_count(current, alive_count(neighbourhood) as int)
}

pub open spec fn war_rule(current: Cell, neighbourhood: Seq<Cell>) -> Cell {
    war_from_total(strength_sum(neighbourhood) + current.strength())
}

/// The next state of a cell under `rule`.
pub open spec fn rule_next(rule: Rule, current: Cell, neighbourhood: Seq<Cell>) -> Cell {
    match rule {
        Rule::Classic => classic_rule(current, neighbourhood),
        Rule::War => war_rule(current, neighbourhood),
    }
}

/// A sequence of dead cells has no living cell and no strength.
pub proof fn lemma_dead_cells_count_nothing(s: Seq<Cell>)
    requires
        forall|i: int| 0 <= i < s.len() ==> s[i] == Cell::Dead,
    ensures
        alive_count(s) == 0,
        strength_sum(s) == 0,
    decreases s.len(),
{
    if s.len() > 0 {
        lemma_dead_cells_count_nothing(s.drop_last());
    }
}

/// Classic birth: a dead cell comes alive exactly when three of its
/// neighbours are alive (so two or four leave it dead).
pub proof fn lemma_classic_birth(neighbourhood: Seq<Cell>)
    ensures
        classic_rule(Cell::Dead, neighbourhood) is Alive <==> alive_count(neighbourhood) == 3,
        alive_count(neighbourhood) == 3 ==> classic_rule(Cell::Dead, neighbourhood) == Cell::Alive(0i8),
{
}

/// Classic survival: a living cell stays alive exactly when two or three of
/// its neighbours are alive; with fewer or more it dies.
pub proof fn lemma_classic_survival(strength: i8, neighbourhood: Seq<Cell>)
    ensures
        classic_rule(Cell::Alive(strength), neighbourhood) is Alive <==> 2 <= alive_count(
            neighbourhood,
        ) <= 3,
        !(2 <= alive_count(neighbourhood) <= 3) ==> classic_rule(Cell::Alive(strength), neighbourhood)
            == Cell::Dead,
{
}

/// War takeover: a dead cell whose neighbours' strengths sum to 3 joins the
/// positive team with unit strength, and one whose neighbours sum to -3
/// joins the negative team.
pub proof fn lemma_war_takeover(neighbourhood: Seq<Cell>)
    ensures
        strength_sum(neighbourhood) == 3 ==> war_rule(Cell::Dead, neighbourhood) == Cell::Alive(1i8),
        strength_sum(neighbourhood) == -3 ==> war_rule(Cell::Dead, neighbourhood) == Cell::Alive(-1i8),
{
}

/// War boundaries: a local total of magnitude 0, 1, or 4 and more leaves a
/// dead cell, whatever its sign.
pub proof fn lemma_war_boundary(current: Cell, neighbourhood: Seq<Cell>)
    ensures
        ({
            let total = strength_sum(neighbourhood) + current.strength();
            -1 <= total <= 1 || total >= 4 || total <= -4
        }) ==> war_rule(current, neighbourhood) == Cell::Dead,
{
}

proof fn lemma_alive_count_bound(s: Seq<Cell>)
    ensures
        alive_count(s) <= s.len(),
    decreases s.len(),
{
    if s.len() > 0 {
        lemma_alive_count_bound(s.drop_last());
    }
}

proof fn lemma_strength_sum_bound(s: Seq<Cell>)
    ensures
        -128 * s.len() <= strength_sum(s) <= 127 * s.len(),
    decreases s.len(),
{
    if s.len() > 0 {
        lemma_strength_sum_bound(s.drop_last());
    }
}

/// The number of living cells in `cells`.
pub fn count_alive(cells: &[Cell]) -> (r: usize)
    ensures
        r == alive_count(cells@),
{
    let mut count: usize = 0;
    let mut i: usize = 0;
    while i < cells.len()
        invariant
            0 <= i <= cells@.len(),
            count == alive_count(cells@.subrange(0, i as int)),
        decreases cells@.len() - i,
    {
        proof {
            assert(cells@.subrange(0, i + 1).drop_last() =~= cells@.subrange(0, i as int));
            lemma_alive_count_bound(cells@.subrange(0, i as int));
        }
        if cells[i].is_alive() {
            count += 1;
        }
        i += 1;
    }
    assert(cells@.subrange(0, cells@.len() as int) =~= cells@);
    count
}

/// The sum of the strengths of the living cells in `cells`, computed
/// exactly (a wider type than the strengths, so it cannot overflow).
pub fn sum_strength(cells: &[Cell]) -> (r: i128)
    ensures
        r == strength_sum(cells@),
{
    let mut sum: i128 = 0;
    let mut i: usize = 0;
    while i < cells.len()
        invariant
            0 <= i <= cells@.len(),
            sum == strength_sum(cells@.subrange(0, i as int)),
        decreases cells@.len() - i,
    {
        proof {
            assert(cells@.subrange(0, i + 1).drop_last() =~= cells@.subrange(0, i as int));
            lemma_strength_sum_bound(cells@.subrange(0, i as int));
        }
        if let Some(value) = cells[i].as_option() {
            sum += *value as i128;
        }
        i += 1;
    }
    assert(cells@.subrange(0, cells@.len() as int) =~= cells@);
    sum
}

/// The classic rule, given a cell and the cells of its neighbourhood.
pub fn classic_next(current: Cell, neighbourhood: &[Cell]) -> (r: Cell)
    ensures
        r == classic_rule(current, neighbourhood@),
{
    let n = count_alive(neighbourhood);
    if current.is_alive() && !(2 <= n && n <= 3) {
        Cell::Dead
    } else if n == 3 {
        Cell::Alive(0i8)
    } else {
        current
    }
}

/// The war rule, given a cell and the cells of its neighbourhood.
pub fn war_next(current: Cell, neighbourhood: &[Cell]) -> (r: Cell)
    ensures
        r == war_rule(current, neighbourhood@),
{
    let neighbours = sum_strength(neighbourhood);
    proof {
        assert(neighbourhood@.len() == neighbourhood.len());
        lemma_strength_sum_bound(neighbourhood@);
    }
    let own: i128 = match current {
        Cell::Alive(value) => value as i128,
        Cell::Dead => 0,
    };
    let total = neighbours + own;
    let magnitude = if total < 0 { -total } else { total };
    if 2 <= magnitude && magnitude <= 3 {
        Cell::Alive(if total > 0 { 1 } else { -1 })
    } else {
        Cell::Dead
    }
}

/// The next state of `current` under `rule`, given its neighbourhood.
pub fn next_cell(rule: Rule, current: Cell, neighbourhood: &[Cell]) -> (r: Cell)
    ensures
        r == rule_next(rule, current, neighbourhood@),
{
    match rule {
        Rule::Classic => classic_next(current, neighbourhood),
        Rule::War => war_next(current, neighbourhood),
    }
}

} // verus!
