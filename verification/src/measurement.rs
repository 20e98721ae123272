//! Sampling measurement outcomes from a cumulative distribution.
//!
//! The probabilities of a register are floating-point numbers, and so are
//! the uniform draws that pick an outcome. Neither is compared as such here.
//! Both are taken as *order codes*: unsigned integers that compare as the
//! numbers do. For non-negative binary floating-point numbers the IEEE bit
//! pattern is such a code, and 0 is the code of zero.

use vstd::arithmetic::power2::{lemma_pow2_pos, pow2};
use vstd::prelude::*;
use vstd::string::StringExecFns;

use crate::basis::{has_bit, lemma_shift_is_pow2};
use crate::quantum_state::QuantumState;

verus! {

/// Whether some cumulative value lies strictly above the draw.
pub open spec fn exceeded(cumulative: Seq<u64>, draw: u64) -> bool {
    exists|j: int| 0 <= j < cumulative.len() && #[trigger] cumulative[j] > draw
}

/// Whether `k` is the outcome that `draw` selects: the first index whose
/// cumulative value lies strictly above the draw, and index 0 when there is
/// none.
pub open spec fn selects(cumulative: Seq<u64>, draw: u64, k: int) -> bool {
    if exceeded(cumulative, draw) {
        &&& 0 <= k < cumulative.len()
        &&& cumulative[k] > draw
        &&& forall|j: int| 0 <= j < k ==> #[trigger] cumulative[j] <= draw
    } else {
        k == 0
    }
}

/// The outcome that `draw` selects.
pub open spec fn selected_outcome(cumulative: Seq<u64>, draw: u64) -> int {
    choose|k: int| selects(cumulative, draw, k)
}

/// Whether basis index `k` carries probability: its cumulative value lies
/// above that of the index before it (above zero for index 0).
pub open spec fn has_mass(cumulative: Seq<u64>, k: int) -> bool {
    &&& 0 <= k < cumulative.len()
    &&& cumulative[k] > (if k == 0 {
        0
    } else {
        cumulative[k - 1]
    })
}

/// A draw selects exactly one outcome.
pub proof fn lemma_selection_is_unique(cumulative: Seq<u64>, draw: u64, a: int, b: int)
    requires
        selects(cumulative, draw, a),
        selects(cumulative, draw, b),
    ensures
        a == b,
{
    if exceeded(cumulative, draw) {
        if a < b {
            assert(cumulative[a] <= draw);
        } else if b < a {
            assert(cumulative[b] <= draw);
        }
    }
}

/// The outcome of one draw: the first basis index whose cumulative value
/// lies strictly above `draw`, or index 0 when no value does. An outcome
/// found by the search carries probability.
pub fn select_outcome(cumulative: &Vec<u64>, draw: u64) -> (k: usize)
    ensures
        selects(cumulative@, draw, k as int),
        k == selected_outcome(cumulative@, draw),
        exceeded(cumulative@, draw) ==> has_mass(cumulative@, k as int),
        k < cumulative.len() || k == 0,
{
    let mut k: usize = 0;
    while k < cumulative.len()
        invariant
            k <= cumulative.len(),
            forall|j: int| 0 <= j < k ==> #[trigger] cumulative@[j] <= draw,
        decreases cumulative.len() - k,
    {
        if cumulative[k] > draw {
            proof {
                assert(exceeded(cumulative@, draw));
                assert(selects(cumulative@, draw, k as int));
                lemma_selection_is_unique(
                    cumulative@,
                    draw,
                    k as int,
                    selected_outcome(cumulative@, draw),
                );
            }
            return k;
        }
        k += 1;
    }
    proof {
        assert(!exceeded(cumulative@, draw));
        assert(selects(cumulative@, draw, 0));
        lemma_selection_is_unique(cumulative@, draw, 0, selected_outcome(cumulative@, draw));
    }
    0
}

/// Whether the cumulative values never fall from one index to the next, as
/// running sums of probabilities do.
pub open spec fn nondecreasing(cumulative: Seq<u64>) -> bool {
    forall|a: int, b: int| 0 <= a <= b < cumulative.len() ==> cumulative[a] <= cumulative[b]
}

/// Whether the cumulative values never fall.
pub fn is_nondecreasing(cumulative: &Vec<u64>) -> (ok: bool)
    ensures
        ok == nondecreasing(cumulative@),
{
    if cumulative.len() < 2 {
        return true;
    }
    let mut k: usize = 1;
    while k < cumulative.len()
        invariant
            1 <= k <= cumulative.len(),
            forall|a: int, b: int| 0 <= a <= b < k ==> cumulative@[a] <= cumulative@[b],
        decreases cumulative.len() - k,
    {
        if cumulative[k - 1] > cumulative[k] {
            return false;
        }
        k += 1;
    }
    true
}

/// The outcome of one draw, found by bisection. On values that never fall
/// it is the outcome that the search from the left finds.
pub fn select_outcome_by_bisection(cumulative: &Vec<u64>, draw: u64) -> (k: usize)
    requires
        nondecreasing(cumulative@),
    ensures
        selects(cumulative@, draw, k as int),
        k == selected_outcome(cumulative@, draw),
        exceeded(cumulative@, draw) ==> has_mass(cumulative@, k as int),
        k < cumulative.len() || k == 0,
{
    let mut low: usize = 0;
    let mut high: usize = cumulative.len();
    while low < high
        invariant
            low <= high <= cumulative.len(),
            nondecreasing(cumulative@),
            forall|j: int| 0 <= j < low ==> #[trigger] cumulative@[j] <= draw,
            forall|j: int| high <= j < cumulative.len() ==> #[trigger] cumulative@[j] > draw,
        decreases high - low,
    {
        let middle = low + (high - low) / 2;
        if cumulative[middle] > draw {
            high = middle;
        } else {
            low = middle + 1;
        }
    }
    let k = if low < cumulative.len() {
        low
    } else {
        0
    };
    proof {
        if low < cumulative.len() {
            assert(cumulative@[low as int] > draw);
            assert(exceeded(cumulative@, draw));
        } else {
            assert(!exceeded(cumulative@, draw));
        }
        assert(selects(cumulative@, draw, k as int));
        lemma_selection_is_unique(cumulative@, draw, k as int, selected_outcome(cumulative@, draw));
    }
    k
}

/// The outcomes that a sequence of draws selects, draw by draw.
pub open spec fn sampled(cumulative: Seq<u64>, draws: Seq<u64>) -> Seq<int> {
    Seq::new(draws.len(), |k: int| selected_outcome(cumulative, draws[k]))
}

/// How often `index` occurs among `outcomes`.
pub open spec fn occurrences(outcomes: Seq<int>, index: int) -> nat
    decreases outcomes.len(),
{
    if outcomes.len() == 0 {
        0
    } else {
        occurrences(outcomes.drop_last(), index) + if outcomes.last() == index {
            1nat
        } else {
            0nat
        }
    }
}

/// The number of characters of a label: one per qubit, and one for a
/// register without qubits.
pub open spec fn label_length(width: usize) -> nat {
    if width == 0 {
        1
    } else {
        width as nat
    }
}

/// The label of basis state `index` on `width` qubits: its binary digits,
/// the first character for qubit `width − 1` and the last for qubit 0. The
/// only state of a register without qubits is labelled `0`.
pub open spec fn basis_label(index: usize, width: usize) -> Seq<char> {
    Seq::new(
        label_length(width),
        |k: int|
            if has_bit(index, (label_length(width) - 1 - k) as usize) {
                '1'
            } else {
                '0'
            },
    )
}

/// Two indices below `2^w` that agree in every bit below `w` are the same
/// index.
pub proof fn lemma_equal_bits(i: usize, j: usize, w: usize)
    requires
        w < usize::BITS,
        i < (1usize << w),
        j < (1usize << w),
        forall|q: usize| q < w ==> has_bit(i, q) == has_bit(j, q),
    ensures
        i == j,
    decreases w,
{
    if w == 0 {
        assert(i < (1usize << 0usize) ==> i == 0) by (bit_vector);
        assert(j < (1usize << 0usize) ==> j == 0) by (bit_vector);
    } else {
        let top = (w - 1) as usize;
        let bit = 1usize << top;
        let low_i = i & !bit;
        let low_j = j & !bit;
        assert(low_i < (1usize << top) && low_j < (1usize << top) && i == low_i | (i & bit) && j
            == low_j | (j & bit)) by (bit_vector)
            requires
                w < usize::BITS,
                0 < w,
                top == (w - 1) as usize,
                bit == 1usize << top,
                low_i == i & !bit,
                low_j == j & !bit,
                i < (1usize << w),
                j < (1usize << w),
        ;
        assert forall|q: usize| q < top implies has_bit(low_i, q) == has_bit(low_j, q) by {
            assert(((i & !bit) & (1usize << q) != 0) == (i & (1usize << q) != 0) && ((j & !bit) & (
            1usize << q) != 0) == (j & (1usize << q) != 0)) by (bit_vector)
                requires
                    q < top,
                    top < usize::BITS,
                    bit == 1usize << top,
            ;
            assert(has_bit(i, q) == has_bit(j, q));
        }
        lemma_equal_bits(low_i, low_j, top);
        assert(has_bit(i, top) == has_bit(j, top));
        assert(i & bit == j & bit) by (bit_vector)
            requires
                (i & bit != 0) == (j & bit != 0),
                bit == 1usize << top,
                top < usize::BITS,
        ;
    }
}

/// Different basis states of a register have different labels.
pub proof fn lemma_labels_are_distinct(i: usize, j: usize, width: usize)
    requires
        width < usize::BITS,
        i < pow2(width as nat),
        j < pow2(width as nat),
        basis_label(i, width) == basis_label(j, width),
    ensures
        i == j,
{
    lemma_shift_is_pow2(width);
    let length = label_length(width);
    assert forall|q: usize| q < width implies has_bit(i, q) == has_bit(j, q) by {
        let k = length - 1 - q;
        assert((length - 1 - k) as usize == q);
        assert(basis_label(i, width)[k] == if has_bit(i, q) {
            '1'
        } else {
            '0'
        });
        assert(basis_label(j, width)[k] == if has_bit(j, q) {
            '1'
        } else {
            '0'
        });
    }
    lemma_equal_bits(i, j, width);
}

/// Writes the label of a basis state.
pub fn basis_label_of(index: usize, width: usize) -> (label: String)
    requires
        width < usize::BITS,
        index < pow2(width as nat),
    ensures
        label@ == basis_label(index, width),
{
    let length = if width == 0 {
        1
    } else {
        width
    };
    let mut label = String::new();
    let mut k: usize = 0;
    proof {
        reveal_strlit("0");
        reveal_strlit("1");
    }
    while k < length
        invariant
            k <= length,
            length == label_length(width),
            length <= usize::BITS,
            "0"@ == seq!['0'],
            "1"@ == seq!['1'],
            label@ == basis_label(index, width).subrange(0, k as int),
        decreases length - k,
    {
        let position = length - 1 - k;
        if index & (1usize << position) != 0 {
            label.append("1");
        } else {
            label.append("0");
        }
        proof {
            assert(label@ =~= basis_label(index, width).subrange(0, k + 1));
        }
        k += 1;
    }
    proof {
        assert(label@ =~= basis_label(index, width));
    }
    label
}

/// One line of a measurement report: a basis state that was observed, its
/// label, and how often it was observed.
#[derive(Debug, PartialEq, Eq)]
pub struct OutcomeCount {
    pub basis_index: usize,
    pub bitstring: String,
    pub count: usize,
}

/// The sum of the counts of a report.
pub open spec fn total_count(report: Seq<OutcomeCount>) -> nat
    decreases report.len(),
{
    if report.len() == 0 {
        0
    } else {
        total_count(report.drop_last()) + report.last().count as nat
    }
}

/// The sum of the first `upto` entries of a table of counts.
pub open spec fn table_sum(table: Seq<usize>, upto: int) -> nat
    decreases upto,
{
    if upto <= 0 {
        0
    } else {
        table_sum(table, upto - 1) + table[upto - 1] as nat
    }
}

/// No index occurs more often than there are outcomes.
pub proof fn lemma_occurrences_bounded(outcomes: Seq<int>, index: int)
    ensures
        occurrences(outcomes, index) <= outcomes.len(),
    decreases outcomes.len(),
{
    if outcomes.len() > 0 {
        lemma_occurrences_bounded(outcomes.drop_last(), index);
    }
}

/// The occurrences of the indices below `size` add up to the number of
/// outcomes that lie below `size`; here all of them do.
pub proof fn lemma_occurrences_add_up(outcomes: Seq<int>, table: Seq<usize>, size: int)
    requires
        0 <= size == table.len(),
        forall|k: int| 0 <= k < outcomes.len() ==> 0 <= #[trigger] outcomes[k] < size,
        forall|i: int| 0 <= i < size ==> #[trigger] table[i] == occurrences(outcomes, i),
    ensures
        table_sum(table, size) == outcomes.len(),
    decreases outcomes.len(),
{
    if outcomes.len() == 0 {
        lemma_table_of_zeros(table, size);
    } else {
        let rest = outcomes.drop_last();
        let last = outcomes.last();
        let before = Seq::new(table.len(), |i: int| occurrences(rest, i) as usize);
        assert forall|i: int| 0 <= i < size implies #[trigger] before[i] == occurrences(
            rest,
            i,
        ) by {
            assert(occurrences(outcomes, i) == occurrences(rest, i) + if last == i {
                1nat
            } else {
                0nat
            });
            assert(table[i] == occurrences(outcomes, i));
        }
        lemma_occurrences_add_up(rest, before, size);
        lemma_table_differs_in_one(before, table, last, size);
    }
}

/// A table of zeros sums to zero.
proof fn lemma_table_of_zeros(table: Seq<usize>, upto: int)
    requires
        0 <= upto <= table.len(),
        forall|i: int| 0 <= i < upto ==> #[trigger] table[i] == 0,
    ensures
        table_sum(table, upto) == 0,
    decreases upto,
{
    if upto > 0 {
        lemma_table_of_zeros(table, upto - 1);
    }
}

/// Raising one entry of a table by one raises its sum by one.
proof fn lemma_table_differs_in_one(before: Seq<usize>, after: Seq<usize>, at: int, upto: int)
    requires
        0 <= upto <= before.len() == after.len(),
        forall|i: int| 0 <= i < upto && i != at ==> #[trigger] after[i] == before[i],
        0 <= at < upto ==> after[at] == before[at] + 1,
    ensures
        table_sum(after, upto) == table_sum(before, upto) + if 0 <= at < upto {
            1nat
        } else {
            0nat
        },
    decreases upto,
{
    if upto > 0 {
        lemma_table_differs_in_one(before, after, at, upto - 1);
    }
}

/// Counts how often each index below `size` occurs among the outcomes.
fn tally(outcomes: &Vec<usize>, size: usize) -> (table: Vec<usize>)
    requires
        forall|k: int| 0 <= k < outcomes.len() ==> #[trigger] outcomes[k] < size,
    ensures
        table.len() == size,
        forall|i: int|
            0 <= i < size ==> #[trigger] table[i] == occurrences(
                outcomes@.map_values(|o: usize| o as int),
                i,
            ),
{
    let ghost all = outcomes@.map_values(|o: usize| o as int);
    let mut table: Vec<usize> = Vec::new();
    let mut i: usize = 0;
    while i < size
        invariant
            i <= size,
            table.len() == i,
            forall|j: int| 0 <= j < i ==> #[trigger] table[j] == 0,
        decreases size - i,
    {
        table.push(0);
        i += 1;
    }
    let mut k: usize = 0;
    while k < outcomes.len()
        invariant
            k <= outcomes.len(),
            table.len() == size,
            all == outcomes@.map_values(|o: usize| o as int),
            forall|j: int| 0 <= j < outcomes.len() ==> #[trigger] outcomes[j] < size,
            forall|i: int|
                0 <= i < size ==> #[trigger] table[i] == occurrences(all.subrange(0, k as int), i),
        decreases outcomes.len() - k,
    {
        let index = outcomes[k];
        proof {
            let seen = all.subrange(0, k as int);
            let next = all.subrange(0, k + 1);
            assert(next.drop_last() =~= seen);
            assert(next.last() == index);
            lemma_occurrences_bounded(seen, index as int);
            assert forall|i: int| 0 <= i < size implies occurrences(next, i) == occurrences(
                seen,
                i,
            ) + if i == index {
                1nat
            } else {
                0nat
            } by {}
        }
        let seen_so_far = table[index];
        table.set(index, seen_so_far + 1);
        k += 1;
    }
    proof {
        assert(all.subrange(0, outcomes.len() as int) =~= all);
    }
    table
}

impl QuantumState {
    /// Samples one outcome per draw and reports how often each basis state
    /// was observed.
    ///
    /// `cumulative[i]` is the order code of the running sum of the
    /// probabilities of basis states `0..=i`; `draws` holds the order codes
    /// of the uniform variates, one per shot. Each draw selects the first
    /// basis state whose cumulative value lies strictly above it, and state 0
    /// when none does; where the cumulative values never fall, as running
    /// sums do, the state is found by bisection. The report lists the
    /// observed states by rising index, each with its label and its count,
    /// and no label twice; a state that was not observed has no line. The
    /// register is not changed: a measurement does not collapse it.
    pub fn measure(&self, cumulative: &Vec<u64>, draws: &Vec<u64>) -> (report: Vec<OutcomeCount>)
        requires
            self.wf(),
            cumulative.len() == self@.len(),
        ensures
            total_count(report@) == draws.len(),
            forall|k: int|
                0 <= k < report.len() ==> {
                    let line = #[trigger] report[k];
                    &&& line.basis_index < self@.len()
                    &&& line.bitstring@ == basis_label(line.basis_index, self.num_qubits)
                    &&& line.count == occurrences(
                        sampled(cumulative@, draws@),
                        line.basis_index as int,
                    )
                    &&& line.count > 0
                },
            forall|a: int, b: int|
                0 <= a < b < report.len() ==> report[a].basis_index < report[b].basis_index,
            forall|a: int, b: int|
                0 <= a < b < report.len() ==> report[a].bitstring@ != report[b].bitstring@,
            forall|i: int|
                0 <= i < self@.len() && occurrences(sampled(cumulative@, draws@), i) > 0
                    ==> exists|k: int|
                    0 <= k < report.len() && #[trigger] report[k].basis_index == i,
            forall|k: int|
                0 <= k < report.len() ==> has_mass(cumulative@, #[trigger] report[k].basis_index as int)
                    || (report[k].basis_index == 0 && exists|d: int|
                    0 <= d < draws.len() && !exceeded(cumulative@, #[trigger] draws[d])),
    {
        let size = cumulative.len();
        proof {
            lemma_pow2_pos(self.num_qubits as nat);
        }
        let bisect = is_nondecreasing(cumulative);
        let mut outcomes: Vec<usize> = Vec::new();
        let mut d: usize = 0;
        while d < draws.len()
            invariant
                d <= draws.len(),
                bisect == nondecreasing(cumulative@),
                size == cumulative.len(),
                size > 0,
                outcomes.len() == d,
                forall|j: int|
                    0 <= j < d ==> #[trigger] outcomes[j] == selected_outcome(
                        cumulative@,
                        draws[j],
                    ),
                forall|j: int| 0 <= j < d ==> #[trigger] outcomes[j] < size,
                forall|j: int|
                    0 <= j < d ==> has_mass(cumulative@, #[trigger] outcomes[j] as int) || (
                    outcomes[j] == 0 && !exceeded(cumulative@, draws[j])),
            decreases draws.len() - d,
        {
            let outcome = if bisect {
                select_outcome_by_bisection(cumulative, draws[d])
            } else {
                select_outcome(cumulative, draws[d])
            };
            outcomes.push(outcome);
            d += 1;
        }
        let ghost all = outcomes@.map_values(|o: usize| o as int);
        proof {
            assert(all =~= sampled(cumulative@, draws@));
        }
        let table = tally(&outcomes, size);
        proof {
            lemma_occurrences_add_up(all, table@, size as int);
        }
        let mut report: Vec<OutcomeCount> = Vec::new();
        let mut i: usize = 0;
        while i < size
            invariant
                i <= size,
                size == cumulative.len(),
                size == self@.len(),
                self.wf(),
                table.len() == size,
                all == sampled(cumulative@, draws@),
                all == outcomes@.map_values(|o: usize| o as int),
                forall|j: int| 0 <= j < size ==> #[trigger] table[j] == occurrences(all, j),
                total_count(report@) == table_sum(table@, i as int),
                forall|k: int|
                    0 <= k < report.len() ==> {
                        let line = #[trigger] report[k];
                        &&& line.basis_index < i
                        &&& line.bitstring@ == basis_label(line.basis_index, self.num_qubits)
                        &&& line.count == occurrences(all, line.basis_index as int)
                        &&& line.count > 0
                    },
                forall|a: int, b: int|
                    0 <= a < b < report.len() ==> report[a].basis_index < report[b].basis_index,
                forall|j: int|
                    0 <= j < i && occurrences(all, j) > 0 ==> exists|k: int|
                        0 <= k < report.len() && #[trigger] report[k].basis_index == j,
            decreases size - i,
        {
            let count = table[i];
            if count > 0 {
                let bitstring = basis_label_of(i, self.num_qubits);
                let ghost before = report@;
                report.push(OutcomeCount { basis_index: i, bitstring, count });
                proof {
                    assert(report@.drop_last() =~= before);
                    assert forall|j: int|
                        0 <= j < i + 1 && occurrences(all, j) > 0 implies exists|k: int|
                        0 <= k < report.len() && #[trigger] report[k].basis_index == j by {
                        if j < i {
                            let k = choose|k: int|
                                0 <= k < before.len() && #[trigger] before[k].basis_index == j;
                            assert(report[k].basis_index == j);
                        } else {
                            assert(report[report.len() - 1].basis_index == j);
                        }
                    }
                }
            }
            i += 1;
        }
        proof {
            assert forall|a: int, b: int| 0 <= a < b < report.len() implies report[a].bitstring@
                != report[b].bitstring@ by {
                if report[a].bitstring@ == report[b].bitstring@ {
                    lemma_labels_are_distinct(
                        report[a].basis_index,
                        report[b].basis_index,
                        self.num_qubits,
                    );
                }
            }
            assert forall|k: int| 0 <= k < report.len() implies has_mass(
                cumulative@,
                #[trigger] report[k].basis_index as int,
            ) || (report[k].basis_index == 0 && exists|d: int|
                0 <= d < draws.len() && !exceeded(cumulative@, #[trigger] draws[d])) by {
                let index = report[k].basis_index as int;
                lemma_occurs_somewhere(all, index);
                let at = choose|at: int| 0 <= at < all.len() && all[at] == index;
                assert(outcomes[at] == index);
                if !has_mass(cumulative@, index) {
                    assert(!exceeded(cumulative@, draws[at]));
                }
            }
        }
        report
    }
}

/// An index that occurs at least once occurs at some position.
pub proof fn lemma_occurs_somewhere(outcomes: Seq<int>, index: int)
    requires
        occurrences(outcomes, index) > 0,
    ensures
        exists|at: int| 0 <= at < outcomes.len() && outcomes[at] == index,
    decreases outcomes.len(),
{
    if outcomes.len() > 0 {
        if outcomes.last() == index {
            assert(outcomes[outcomes.len() - 1] == index);
        } else {
            lemma_occurs_somewhere(outcomes.drop_last(), index);
            let at = choose|at: int|
                0 <= at < outcomes.drop_last().len() && outcomes.drop_last()[at] == index;
            assert(outcomes[at] == index);
        }
    }
}

} // verus!
