//! Fuel needed to launch a module of a given mass, counting the fuel that the
//! fuel itself needs.

use crate::text::{
    contents, parse_unsigned, split, split_on, unsigned_value, CARRIAGE_RETURN, LINE_FEED,
};
use vstd::prelude::*;
use vstd::slice::slice_subrange;
use vstd::string::StringSliceAdditionalSpecFns;

verus! {

/// Fuel that a mass of `mass` needs directly: a third of it, rounded down,
/// less two, and never below zero.
pub open spec fn fuel_step(mass: nat) -> nat {
    if mass / 3 >= 2 {
        (mass / 3 - 2) as nat
    } else {
        0
    }
}

/// Fuel for `mass` together with the fuel for that fuel, and so on until a
/// step asks for nothing.
pub open spec fn total_fuel_for(mass: nat) -> nat
    decreases mass,
{
    let step = fuel_step(mass);
    if step == 0 {
        0
    } else {
        step + total_fuel_for(step)
    }
}

/// The whole fuel chain always stays below half of the mass it starts from.
pub proof fn lemma_total_fuel_bound(mass: nat)
    ensures
        2 * total_fuel_for(mass) <= mass,
    decreases mass,
{
    let step = fuel_step(mass);
    if step != 0 {
        lemma_total_fuel_bound(step);
    }
}

/// Fuel for one module: the sum of the chain `mass/3 - 2`, applied again to
/// each amount of fuel until nothing more is needed.
pub fn fuel_for_mass(x: u64) -> (fuel: u64)
    ensures
        fuel == total_fuel_for(x as nat),
{
    let mut total: u64 = 0;
    let mut current: u64 = x;
    loop
        invariant
            total + total_fuel_for(current as nat) == total_fuel_for(x as nat),
        decreases current,
    {
        let third: u64 = current / 3;
        if third <= 2 {
            return total;
        }
        let step: u64 = third - 2;
        proof {
            lemma_total_fuel_bound(x as nat);
            lemma_total_fuel_bound(step as nat);
        }
        total = total + step;
        current = step;
    }
}

/// The fuel for all the modules of `masses` together.
pub open spec fn fuel_for_all(masses: Seq<u64>) -> nat
    decreases masses.len(),
{
    if masses.len() == 0 {
        0
    } else {
        fuel_for_all(masses.drop_last()) + total_fuel_for(masses.last() as nat)
    }
}

/// The fuel for all the modules of `masses` together, or `None` where the
/// sum is too large for the result's type.
pub fn total_fuel(masses: &Vec<u64>) -> (total: Option<u64>)
    ensures
        total == if fuel_for_all(masses@) <= u64::MAX {
            Some(fuel_for_all(masses@) as u64)
        } else {
            None
        },
{
    let mut total: u64 = 0;
    let mut index: usize = masses.len();
    let ghost mut tail: nat = 0;
    assert(masses@.take(index as int) =~= masses@);
    while index > 0
        invariant
            index <= masses.len(),
            total == tail,
            fuel_for_all(masses@.take(index as int)) + tail == fuel_for_all(masses@),
        decreases index,
    {
        index = index - 1;
        assert(masses@.take(index + 1).drop_last() =~= masses@.take(index as int));
        match total.checked_add(fuel_for_mass(masses[index])) {
            Some(sum) => {
                total = sum;
                proof {
                    tail = tail + total_fuel_for(masses@[index as int] as nat);
                }
            },
            None => {
                return None;
            },
        }
    }
    Some(total)
}

/// Line `i` of the rows that line feeds divide a text into: a row that a
/// line feed ends loses one carriage return from its end, the last row is
/// taken as it is.
pub open spec fn line_of(rows: Seq<Seq<u8>>, i: int) -> Seq<u8> {
    let row = rows[i];
    if i < rows.len() - 1 && row.len() > 0 && row.last() == CARRIAGE_RETURN {
        row.drop_last()
    } else {
        row
    }
}

/// The masses written on the first `count` lines of `rows`. A line that
/// is not a number of 64 bits is passed over.
pub open spec fn masses_in(rows: Seq<Seq<u8>>, count: int) -> Seq<u64>
    decreases count,
{
    if count <= 0 {
        Seq::empty()
    } else {
        match unsigned_value(line_of(rows, count - 1), u64::MAX) {
            Some(mass) => masses_in(rows, count - 1).push(mass),
            None => masses_in(rows, count - 1),
        }
    }
}

/// The masses that `text` lists, one on each line.
pub open spec fn masses_of(text: Seq<u8>) -> Seq<u64> {
    let rows = split_on(text, LINE_FEED);
    masses_in(rows, rows.len() as int)
}

/// Reads a list of masses, one on each line, and passes over every line
/// that is not a number.
pub fn read_masses(input: &str) -> (masses: Vec<u64>)
    ensures
        masses@ == masses_of(input.spec_bytes()),
{
    let rows = split(input.as_bytes(), LINE_FEED);
    let mut masses: Vec<u64> = Vec::new();
    let mut index: usize = 0;
    while index < rows.len()
        invariant
            index <= rows.len(),
            contents(rows@) == split_on(input.spec_bytes(), LINE_FEED),
            masses@ == masses_in(contents(rows@), index as int),
        decreases rows.len() - index,
    {
        let row = rows[index];
        assert(contents(rows@)[index as int] == row@);
        let line = if index + 1 < rows.len() && row.len() > 0 && row[row.len() - 1] == CARRIAGE_RETURN {
            slice_subrange(row, 0, row.len() - 1)
        } else {
            row
        };
        assert(line@ =~= line_of(contents(rows@), index as int));
        match parse_unsigned(line, u64::MAX) {
            Some(mass) => {
                masses.push(mass);
            },
            None => {},
        }
        index = index + 1;
    }
    masses
}

} // verus!
