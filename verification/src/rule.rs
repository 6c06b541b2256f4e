//! The transition rule and its three parameters.
//!
//! The rule divides a count of neighbours by `k1` or `k2` and keeps the whole
//! part of the quotient. A count is one of 0 to 8, so all that the rule ever
//! reads of a divisor is nine whole numbers. A [`Divisor`] holds exactly
//! those, which keeps the rule in integers whatever number the divisor was.
//! [`Divisor::ratio`] works them out for a divisor that is a fraction;
//! [`Divisor::from_quotients`] takes them as they are.

use vstd::prelude::*;
use vstd::arithmetic::div_mod::lemma_div_is_ordered;
use crate::cell::{classify, state_of, CellState, HEALTHY, ILL};

verus! {

/// Whether `table` has nine entries, starts at nothing and never falls. The
/// whole quotients of the counts 0 to 8 by one fixed divisor always make
/// such a table; not every such table comes from a divisor.
pub open spec fn is_rising_table(table: Seq<u16>) -> bool {
    &&& table.len() == 9
    &&& table[0] == 0
    &&& forall|i: int, j: int| 0 <= i <= j < 9 ==> table[i] <= table[j]
}

/// The whole part of `count` divided by the fraction `numerator` over
/// `denominator`, or 65535 where it is more.
pub open spec fn ratio_quotient(count: int, numerator: int, denominator: int) -> int {
    let whole = (count * denominator) / numerator;
    if whole > u16::MAX {
        u16::MAX as int
    } else {
        whole
    }
}

/// The quotients by a fraction start at nothing and never fall as the count
/// rises.
pub proof fn lemma_ratio_quotients_rise(numerator: int, denominator: int, i: int, j: int)
    requires
        numerator > 0,
        denominator >= 0,
        0 <= i <= j,
    ensures
        ratio_quotient(0, numerator, denominator) == 0,
        0 <= ratio_quotient(i, numerator, denominator) <= ratio_quotient(j, numerator, denominator),
{
    assert(0 * denominator == 0);
    assert(0 <= i * denominator <= j * denominator) by (nonlinear_arith)
        requires
            0 <= i <= j,
            denominator >= 0,
    ;
    lemma_div_is_ordered(0, i * denominator, numerator);
    lemma_div_is_ordered(i * denominator, j * denominator, numerator);
}

/// A divisor of neighbour counts, held as the quotients it yields.
pub struct Divisor {
    quotients: [u16; 9],
}

impl View for Divisor {
    type V = Seq<u16>;

    /// The nine quotients, the one for a count of `c` at index `c`.
    closed spec fn view(&self) -> Seq<u16> {
        self.quotients@
    }
}

impl Divisor {
    #[verifier::type_invariant]
    spec fn quotients_rise(self) -> bool {
        is_rising_table(self.quotients@)
    }

    /// The quotients start at nothing and never fall.
    pub open spec fn wf(&self) -> bool {
        is_rising_table(self@)
    }

    /// The divisor whose quotient of a count `c` is `table[c]`, or none
    /// unless `table` starts at nothing and never falls. Whether some number
    /// divides to exactly these quotients is not asked.
    pub fn from_quotients(table: [u16; 9]) -> (divisor: Option<Divisor>)
        ensures
            divisor is Some <==> is_rising_table(table@),
            divisor matches Some(d) ==> d@ == table@ && d.wf(),
    {
        if table[0] != 0 {
            return None;
        }
        let mut i: usize = 1;
        while i < 9
            invariant
                1 <= i <= 9,
                table@[0] == 0,
                forall|a: int, b: int| 0 <= a <= b < i ==> table@[a] <= table@[b],
            decreases 9 - i,
        {
            if table[i - 1] > table[i] {
                return None;
            }
            i += 1;
        }
        Some(Divisor { quotients: table })
    }

    /// The divisor `numerator / denominator`, which is none where the
    /// numerator is nothing. So `ratio(2, 1)` halves and `ratio(5, 2)`
    /// divides by two and a half.
    pub fn ratio(numerator: u32, denominator: u32) -> (divisor: Option<Divisor>)
        ensures
            divisor is Some <==> numerator > 0,
            divisor matches Some(d) ==> d.wf() && forall|count: int|
                0 <= count <= 8 ==> #[trigger] d@[count] == ratio_quotient(
                    count,
                    numerator as int,
                    denominator as int,
                ),
    {
        if numerator == 0 {
            return None;
        }
        let mut table: [u16; 9] = [0, 0, 0, 0, 0, 0, 0, 0, 0];
        let mut count: usize = 0;
        while count < 9
            invariant
                count <= 9,
                numerator > 0,
                forall|c: int|
                    0 <= c < count ==> #[trigger] table@[c] == ratio_quotient(
                        c,
                        numerator as int,
                        denominator as int,
                    ),
            decreases 9 - count,
        {
            assert(count * denominator <= 8 * u32::MAX) by (nonlinear_arith)
                requires
                    count <= 8,
                    denominator <= u32::MAX,
            ;
            let whole: u64 = (count as u64 * denominator as u64) / numerator as u64;
            table[count] = if whole > u16::MAX as u64 {
                u16::MAX
            } else {
                whole as u16
            };
            count += 1;
        }
        proof {
            assert forall|i: int, j: int| 0 <= i <= j < 9 implies table@[i] <= table@[j] by {
                lemma_ratio_quotients_rise(numerator as int, denominator as int, i, j);
            }
            lemma_ratio_quotients_rise(numerator as int, denominator as int, 0, 0);
        }
        Some(Divisor { quotients: table })
    }

    /// The whole part of `count` divided by this divisor.
    pub fn quotient(&self, count: u8) -> (q: u16)
        requires
            count <= 8,
        ensures
            q == self@[count as int],
            self.wf(),
    {
        proof {
            use_type_invariant(self);
        }
        self.quotients[count as usize]
    }
}

/// The parameters of the rule, fixed for a run.
pub struct BoardParameter {
    /// Divides the count of infected neighbours of a healthy cell.
    pub k1: Divisor,
    /// Divides the count of ill neighbours of a healthy cell.
    pub k2: Divisor,
    /// Added to an infected cell in every generation.
    pub g: u8,
}

/// `amount`, or 255 where it is more.
pub open spec fn saturate(amount: int) -> u8 {
    if amount > ILL {
        ILL
    } else {
        amount as u8
    }
}

impl BoardParameter {
    /// The quotients of both divisors start at nothing and never fall.
    pub open spec fn wf(&self) -> bool {
        self.k1.wf() && self.k2.wf()
    }

    /// The next value of a cell that holds `value`, has `infected` infected
    /// and `illed` ill neighbours, and whose own value and those of its eight
    /// neighbours add up to `sum`.
    ///
    /// An ill cell recovers. A healthy cell takes the two quotients of its
    /// neighbour counts. An infected cell takes the mean load around it,
    /// `sum` by `infected`, and `g` on top; with no infected neighbour there
    /// is nothing to divide by, and the cell keeps its value. Nothing rises
    /// above 255.
    pub open spec fn rule(&self, value: u8, infected: int, illed: int, sum: int) -> u8 {
        match state_of(value) {
            CellState::Ill => HEALTHY,
            CellState::Healthy => saturate(self.k1@[infected] + self.k2@[illed]),
            CellState::Infected => if infected == 0 {
                value
            } else {
                saturate(sum / infected + self.g)
            },
        }
    }

    /// Computes [`Self::rule`].
    pub fn transition(&self, value: u8, infected: u8, illed: u8, sum: u16) -> (next: u8)
        requires
            infected <= 8,
            illed <= 8,
        ensures
            next == self.rule(value, infected as int, illed as int, sum as int),
    {
        match classify(value) {
            CellState::Ill => HEALTHY,
            CellState::Healthy => {
                let share: u32 = self.k1.quotient(infected) as u32 + self.k2.quotient(illed) as u32;
                if share > ILL as u32 {
                    ILL
                } else {
                    share as u8
                }
            },
            CellState::Infected => {
                if infected == 0 {
                    value
                } else {
                    let load: u32 = (sum / infected as u16) as u32 + self.g as u32;
                    if load > ILL as u32 {
                        ILL
                    } else {
                        load as u8
                    }
                }
            },
        }
    }
}

} // verus!
