//! A rule on the decimal digits of a number, and how many numbers of a
//! range keep it.

use crate::text::{digits, digits_of};
use itertools::Itertools;
use vstd::prelude::*;

verus! {

/// Each item of `items` but the last, paired with the item that follows it.
pub open spec fn windows_of(items: Seq<u32>) -> Seq<(u32, u32)> {
    Seq::new(
        if items.len() == 0 {
            0nat
        } else {
            (items.len() - 1) as nat
        },
        |i: int| (items[i], items[i + 1]),
    )
}

/// The digit of each pair whose two digits are equal, in order.
pub open spec fn twins_in(pairs: Seq<(u32, u32)>) -> Seq<u32>
    decreases pairs.len(),
{
    if pairs.len() == 0 {
        Seq::empty()
    } else if pairs.last().0 == pairs.last().1 {
        twins_in(pairs.drop_last()).push(pairs.last().0)
    } else {
        twins_in(pairs.drop_last())
    }
}

/// The number of pairs whose second digit is not below the first.
pub open spec fn rising(pairs: Seq<(u32, u32)>) -> nat
    decreases pairs.len(),
{
    if pairs.len() == 0 {
        0
    } else if pairs.last().1 >= pairs.last().0 {
        rising(pairs.drop_last()) + 1
    } else {
        rising(pairs.drop_last())
    }
}

/// The rule: among the pairs of neighbouring digits of `n` at least two
/// are twins, all twins show one and the same digit, and exactly five
/// pairs do not fall.
pub open spec fn keeps_rule(n: nat) -> bool {
    let pairs = windows_of(digits_of(n));
    let twins = twins_in(pairs);
    &&& twins.len() >= 2
    &&& forall|i: int| 0 <= i < twins.len() - 1 ==> twins[i] == #[trigger] twins[i + 1]
    &&& rising(pairs) == 5
}

/// A digit is among the twins exactly if some pair shows it twice.
pub proof fn lemma_twins_are_the_equal_pairs(pairs: Seq<(u32, u32)>, digit: u32)
    ensures
        twins_in(pairs).contains(digit) <==> exists|i: int|
            0 <= i < pairs.len() && #[trigger] pairs[i] == (digit, digit),
        twins_in(pairs).len() <= pairs.len(),
    decreases pairs.len(),
{
    if pairs.len() > 0 {
        let front = pairs.drop_last();
        let before = twins_in(front);
        let last = pairs.last();
        lemma_twins_are_the_equal_pairs(front, digit);
        if before.contains(digit) {
            let i = choose|i: int| 0 <= i < front.len() && #[trigger] front[i] == (digit, digit);
            assert(pairs[i] == front[i]);
            let at = choose|k: int| 0 <= k < before.len() && before[k] == digit;
            assert(twins_in(pairs)[at] == digit);
        }
        if last == (digit, digit) {
            assert(before.push(digit)[before.len() as int] == digit);
            assert(pairs[pairs.len() - 1] == last);
        }
        if twins_in(pairs).contains(digit) && !before.contains(digit) {
            let at = choose|k: int| 0 <= k < twins_in(pairs).len() && twins_in(pairs)[k] == digit;
            assert(at == before.len());
            assert(pairs[pairs.len() - 1] == last);
        }
        if exists|i: int| 0 <= i < pairs.len() && #[trigger] pairs[i] == (digit, digit) {
            let i = choose|i: int| 0 <= i < pairs.len() && #[trigger] pairs[i] == (digit, digit);
            if i < front.len() {
                assert(front[i] == pairs[i]);
            }
        }
    }
}

/// No more pairs rise than there are, and all of them do exactly if no
/// pair falls.
pub proof fn lemma_rising_counts(pairs: Seq<(u32, u32)>)
    ensures
        rising(pairs) <= pairs.len(),
        rising(pairs) == pairs.len() <==> forall|i: int|
            0 <= i < pairs.len() ==> (#[trigger] pairs[i]).0 <= pairs[i].1,
    decreases pairs.len(),
{
    if pairs.len() > 0 {
        let front = pairs.drop_last();
        lemma_rising_counts(front);
        if rising(pairs) == pairs.len() {
            assert forall|i: int| 0 <= i < pairs.len() implies (#[trigger] pairs[i]).0
                <= pairs[i].1 by {
                if i < front.len() {
                    assert(front[i] == pairs[i]);
                }
            }
        }
        if forall|i: int| 0 <= i < pairs.len() ==> (#[trigger] pairs[i]).0 <= pairs[i].1 {
            assert forall|i: int| 0 <= i < front.len() implies (#[trigger] front[i]).0
                <= front[i].1 by {
                assert(front[i] == pairs[i]);
            }
            assert(pairs[pairs.len() - 1] == pairs.last());
        }
    }
}

/// A number of six digits keeps the rule only if its digits never fall
/// from one to the next.
pub proof fn lemma_six_digits_never_fall(n: nat, i: int)
    requires
        keeps_rule(n),
        digits_of(n).len() == 6,
        0 <= i < 5,
    ensures
        digits_of(n)[i] <= digits_of(n)[i + 1],
{
    let pairs = windows_of(digits_of(n));
    lemma_rising_counts(pairs);
    assert(pairs[i] == (digits_of(n)[i], digits_of(n)[i + 1]));
}

/// `Itertools::tuple_windows` with windows of two: each item but the last,
/// paired with the one after it, in order. Fewer than two items give no
/// pair.
#[verifier::external_body]
fn adjacent_pairs(items: &Vec<u32>) -> (pairs: Vec<(u32, u32)>)
    ensures
        pairs@ == windows_of(items@),
{
    items.iter().copied().tuple_windows().collect()
}

/// Tells whether `number` keeps the rule.
pub fn verify_number(number: &i32) -> (valid: bool)
    requires
        *number >= 0,
    ensures
        valid == keeps_rule(*number as nat),
{
    let digits = digits(*number as u32);
    let pairs = adjacent_pairs(&digits);
    let mut twins: Vec<u32> = Vec::new();
    let mut count: usize = 0;
    let mut index: usize = 0;
    while index < pairs.len()
        invariant
            index <= pairs.len(),
            twins@ == twins_in(pairs@.take(index as int)),
            count == rising(pairs@.take(index as int)),
            count <= index,
        decreases pairs.len() - index,
    {
        assert(pairs@.take(index + 1).drop_last() =~= pairs@.take(index as int));
        let (a, b) = pairs[index];
        if a == b {
            twins.push(a);
        }
        if b >= a {
            count = count + 1;
        }
        index = index + 1;
    }
    assert(pairs@.take(index as int) =~= pairs@);
    let same = adjacent_pairs(&twins);
    if same.len() == 0 {
        return false;
    }
    let mut index: usize = 0;
    while index < same.len()
        invariant
            index <= same.len(),
            same@ == windows_of(twins@),
            twins@ == twins_in(windows_of(digits_of(*number as nat))),
            forall|i: int| 0 <= i < index ==> twins@[i] == #[trigger] twins@[i + 1],
        decreases same.len() - index,
    {
        assert(same@[index as int] == (twins@[index as int], twins@[index + 1]));
        let (a, b) = same[index];
        if a != b {
            return false;
        }
        index = index + 1;
    }
    count == 5
}

/// How many of the numbers from `low` to `high`, both included, keep the
/// rule.
pub open spec fn count_between(low: int, high: int) -> nat
    decreases high - low + 1,
{
    if high < low || high < 0 {
        0
    } else if keeps_rule(high as nat) {
        count_between(low, high - 1) + 1
    } else {
        count_between(low, high - 1)
    }
}

/// Counts the numbers from `low` to `high`, both included, that keep the
/// rule.
pub fn count_valid(low: i32, high: i32) -> (count: usize)
    requires
        low >= 0,
    ensures
        count == count_between(low as int, high as int),
{
    let mut count: usize = 0;
    let mut next: i64 = low as i64;
    while next <= high as i64
        invariant
            0 <= low <= next <= high + 1 || (next == low && high < low),
            low >= 0,
            count == count_between(low as int, next - 1),
            count <= next - low,
        decreases high - next + 1,
    {
        let number: i32 = next as i32;
        if verify_number(&number) {
            count = count + 1;
        }
        next = next + 1;
    }
    count
}

} // verus!
