//! A small integer machine: memory is a flat sequence of words that holds
//! both the program and its data, and an instruction is a window of four
//! words (opcode, two operand addresses, a destination address).

use crate::text::{
    contents, parse_unsigned, split, split_on, trim, trimmed, unsigned_value, COMMA,
};
use vstd::prelude::*;
use vstd::string::StringSliceAdditionalSpecFns;

verus! {

/// Opcode that adds the two operands.
pub const OP_ADD: usize = 1;

/// Opcode that multiplies the two operands.
pub const OP_MUL: usize = 2;

/// Opcode that stops the machine.
pub const OP_HALT: usize = 99;

/// Number of words that an instruction other than halt occupies.
pub const WIDTH: usize = 4;

/// Why a run ended without reaching a halt instruction.
#[derive(Clone, Copy, Debug, PartialEq, Eq, Structural)]
pub enum Fault {
    /// The instruction window reaches past the end of memory.
    TruncatedInstruction,
    /// The destination address lies outside memory.
    InvalidDestination,
    /// An operand address lies outside memory.
    InvalidOperand,
    /// The opcode is none of add, multiply and halt. Unlike the other
    /// faults this one says that the program itself is malformed.
    UnknownOpcode(usize),
    /// The sum or product does not fit in a machine word.
    Overflow,
}

/// What the instruction under the program counter does.
pub enum Effect {
    /// It stops the machine.
    Halt,
    /// It stores `value` at address `dest`.
    Store { dest: int, value: usize },
    /// It cannot be carried out.
    Fail(Fault),
}

/// How a run ended: the memory and program counter it ended with, and the
/// fault that stopped it, if any.
pub struct Outcome {
    pub memory: Seq<usize>,
    pub pc: int,
    pub fault: Option<Fault>,
}

impl Outcome {
    /// The machine stopped at a halt instruction.
    pub open spec fn halted(self) -> bool {
        self.fault is None
    }

    /// Number of instructions that were carried out before the run ended.
    pub open spec fn steps(self) -> int {
        self.pc / 4
    }

    /// What the run reports to its caller: on a halt the word at address 0
    /// and the final program counter, otherwise the fault.
    pub open spec fn report(self) -> Result<(usize, usize), Fault> {
        match self.fault {
            None => Ok((self.memory[0], self.pc as usize)),
            Some(fault) => Err(fault),
        }
    }
}

/// The result of an add or multiply instruction on operands `a` and `b`,
/// as an unbounded integer.
pub open spec fn arith(opcode: usize, a: usize, b: usize) -> int {
    if opcode == OP_ADD {
        a + b
    } else {
        a * b
    }
}

/// The effect of the instruction at `pc`, for `0 <= pc < mem.len()`. The
/// checks come in a fixed order: halt, window, destination, opcode,
/// operands, size of the result.
pub open spec fn effect_at(mem: Seq<usize>, pc: int) -> Effect
    recommends
        0 <= pc < mem.len(),
{
    let opcode = mem[pc];
    if opcode == OP_HALT {
        Effect::Halt
    } else if pc + 3 >= mem.len() {
        Effect::Fail(Fault::TruncatedInstruction)
    } else if mem[pc + 3] >= mem.len() {
        Effect::Fail(Fault::InvalidDestination)
    } else if opcode != OP_ADD && opcode != OP_MUL {
        Effect::Fail(Fault::UnknownOpcode(opcode))
    } else if mem[pc + 1] >= mem.len() || mem[pc + 2] >= mem.len() {
        Effect::Fail(Fault::InvalidOperand)
    } else {
        let value = arith(opcode, mem[mem[pc + 1] as int], mem[mem[pc + 2] as int]);
        if value > usize::MAX {
            Effect::Fail(Fault::Overflow)
        } else {
            Effect::Store { dest: mem[pc + 3] as int, value: value as usize }
        }
    }
}

/// The run of the machine on `mem` from program counter `pc` to its end.
/// A program counter that has left memory ends the run as a truncated
/// instruction.
pub open spec fn run_from(mem: Seq<usize>, pc: int) -> Outcome
    decreases mem.len() - pc,
{
    if pc < 0 || pc >= mem.len() {
        Outcome { memory: mem, pc, fault: Some(Fault::TruncatedInstruction) }
    } else {
        match effect_at(mem, pc) {
            Effect::Halt => Outcome { memory: mem, pc, fault: None },
            Effect::Store { dest, value } => run_from(mem.update(dest, value), pc + 4),
            Effect::Fail(fault) => Outcome { memory: mem, pc, fault: Some(fault) },
        }
    }
}

/// The shape of every run that starts at a multiple of four inside memory or
/// at its end.
proof fn lemma_run_shape(mem: Seq<usize>, pc: int)
    requires
        0 <= pc <= mem.len(),
        pc % 4 == 0,
    ensures
        run_from(mem, pc).memory.len() == mem.len(),
        pc <= run_from(mem, pc).pc <= mem.len(),
        run_from(mem, pc).pc % 4 == 0,
        ends_properly(run_from(mem, pc)),
    decreases mem.len() - pc,
{
    if pc < mem.len() {
        match effect_at(mem, pc) {
            Effect::Store { dest, value } => {
                lemma_run_shape(mem.update(dest, value), pc + 4);
            },
            _ => {},
        }
    }
}

/// The way a run may end: at a halt instruction inside memory; with an
/// unknown opcode that is the word under the program counter and none of
/// add, multiply and halt; or with one of the other faults.
pub open spec fn ends_properly(out: Outcome) -> bool {
    match out.fault {
        None => 0 <= out.pc < out.memory.len() && out.memory[out.pc] == OP_HALT,
        Some(Fault::UnknownOpcode(opcode)) => {
            &&& 0 <= out.pc < out.memory.len()
            &&& out.memory[out.pc] == opcode
            &&& opcode != OP_ADD
            &&& opcode != OP_MUL
            &&& opcode != OP_HALT
        },
        Some(_) => true,
    }
}

/// Every run from address 0 ends after at most a quarter of the memory's
/// length in instructions, with the memory's length unchanged and the
/// program counter at four times the number of instructions carried out.
/// It ends at a halt or with a fault, and the fault is an unknown opcode
/// only where the word under the program counter is none of add, multiply
/// and halt. So a run that meets no other opcode halts within the bound or
/// reports a truncated instruction, an invalid address or an overflow.
pub proof fn lemma_run_is_bounded(mem: Seq<usize>)
    ensures
        run_from(mem, 0).memory.len() == mem.len(),
        0 <= run_from(mem, 0).steps() <= mem.len() / 4,
        run_from(mem, 0).pc == 4 * run_from(mem, 0).steps(),
        ends_properly(run_from(mem, 0)),
{
    lemma_run_shape(mem, 0);
}

/// Every opcode that the run from `pc` meets is add, multiply or halt.
pub open spec fn meets_known_opcodes(mem: Seq<usize>, pc: int) -> bool
    decreases mem.len() - pc,
{
    if pc < 0 || pc >= mem.len() {
        true
    } else {
        &&& mem[pc] == OP_ADD || mem[pc] == OP_MUL || mem[pc] == OP_HALT
        &&& match effect_at(mem, pc) {
            Effect::Store { dest, value } => meets_known_opcodes(mem.update(dest, value), pc + 4),
            _ => true,
        }
    }
}

/// A run that meets only known opcodes does not end with an unknown one.
proof fn lemma_known_opcodes_stay_known(mem: Seq<usize>, pc: int)
    requires
        meets_known_opcodes(mem, pc),
    ensures
        !(run_from(mem, pc).fault matches Some(Fault::UnknownOpcode(_))),
    decreases mem.len() - pc,
{
    if 0 <= pc < mem.len() {
        match effect_at(mem, pc) {
            Effect::Store { dest, value } => {
                lemma_known_opcodes_stay_known(mem.update(dest, value), pc + 4);
            },
            _ => {},
        }
    }
}

/// A run from address 0 that meets no opcode but add, multiply and halt,
/// and whose sums and products fit a word, halts after at most a quarter
/// of the memory's length in instructions, or reports a truncated
/// instruction, an invalid operand or an invalid destination.
pub proof fn lemma_known_opcodes_halt_or_fault(mem: Seq<usize>)
    requires
        meets_known_opcodes(mem, 0),
        run_from(mem, 0).fault != Some(Fault::Overflow),
    ensures
        ({
            let out = run_from(mem, 0);
            ||| out.halted() && 0 <= out.steps() <= mem.len() / 4
            ||| out.fault == Some(Fault::TruncatedInstruction)
            ||| out.fault == Some(Fault::InvalidOperand)
            ||| out.fault == Some(Fault::InvalidDestination)
        }),
{
    lemma_run_is_bounded(mem);
    lemma_known_opcodes_stay_known(mem, 0);
}

/// Runs the program in `mem` from address 0 until it halts or faults,
/// changing `mem` in place. On a halt the result is the word at address 0
/// and the address of the halt instruction. On a fault `mem` keeps what the
/// instructions before the faulting one stored.
pub fn execute(mem: &mut Vec<usize>) -> (result: Result<(usize, usize), Fault>)
    requires
        old(mem).len() > 0,
    ensures
        final(mem)@ == run_from(old(mem)@, 0).memory,
        final(mem)@.len() == old(mem)@.len(),
        result == run_from(old(mem)@, 0).report(),
{
    let len = mem.len();
    let mut pc: usize = 0;
    loop
        invariant
            mem.len() == len,
            old(mem).len() == len,
            len > 0,
            run_from(mem@, pc as int) == run_from(old(mem)@, 0),
        decreases len - pc,
    {
        if pc >= len {
            return Err(Fault::TruncatedInstruction);
        }
        let opcode = mem[pc];
        if opcode == OP_HALT {
            return Ok((mem[0], pc));
        }
        if len - pc < WIDTH {
            return Err(Fault::TruncatedInstruction);
        }
        let addr1 = mem[pc + 1];
        let addr2 = mem[pc + 2];
        let dest = mem[pc + 3];
        if dest >= len {
            return Err(Fault::InvalidDestination);
        }
        if opcode != OP_ADD && opcode != OP_MUL {
            return Err(Fault::UnknownOpcode(opcode));
        }
        if addr1 >= len || addr2 >= len {
            return Err(Fault::InvalidOperand);
        }
        let computed = if opcode == OP_ADD {
            mem[addr1].checked_add(mem[addr2])
        } else {
            mem[addr1].checked_mul(mem[addr2])
        };
        match computed {
            Some(value) => {
                mem[dest] = value;
            },
            None => {
                return Err(Fault::Overflow);
            },
        }
        pc = pc + WIDTH;
    }
}

/// Runs the program in `mem` and reports how it ended, as `execute` does,
/// without handing the final memory back.
pub fn run(mem: Vec<usize>) -> (result: Result<(usize, usize), Fault>)
    requires
        mem.len() > 0,
    ensures
        result == run_from(mem@, 0).report(),
{
    let mut scratch = mem;
    execute(&mut scratch)
}

/// The word that one field of a program text spells, if it spells one.
pub open spec fn word_of(field: Seq<u8>) -> Option<usize> {
    match unsigned_value(field, usize::MAX as u64) {
        Some(value) => Some(value as usize),
        None => None,
    }
}

/// The memory that the program text `text` describes: numbers divided by
/// commas, spaces around the whole text left out. There is none where a
/// field is not a number that fits a word.
pub open spec fn memory_of(text: Seq<u8>) -> Option<Seq<usize>> {
    let fields = split_on(trimmed(text), COMMA);
    if forall|i: int| 0 <= i < fields.len() ==> word_of(#[trigger] fields[i]) is Some {
        Some(Seq::new(fields.len(), |i: int| word_of(fields[i]).unwrap()))
    } else {
        None
    }
}

/// Reads the initial memory from a program text: one line of numbers
/// divided by commas.
pub fn read_memory(input: &str) -> (memory: Option<Vec<usize>>)
    ensures
        match memory {
            Some(words) => memory_of(input.spec_bytes()) == Some(words@),
            None => memory_of(input.spec_bytes()) is None,
        },
{
    let fields = split(trim(input.as_bytes()), COMMA);
    let ghost texts = split_on(trimmed(input.spec_bytes()), COMMA);
    let mut words: Vec<usize> = Vec::new();
    let mut index: usize = 0;
    while index < fields.len()
        invariant
            index <= fields.len(),
            texts == split_on(trimmed(input.spec_bytes()), COMMA),
            contents(fields@) == texts,
            words.len() == index,
            forall|i: int| 0 <= i < index ==> word_of(#[trigger] texts[i]) == Some(words@[i]),
        decreases fields.len() - index,
    {
        assert(texts[index as int] == fields@[index as int]@);
        match parse_unsigned(fields[index], usize::MAX as u64) {
            Some(value) => {
                words.push(value as usize);
            },
            None => {
                assert(word_of(texts[index as int]) is None);
                return None;
            },
        }
        index = index + 1;
    }
    assert(texts.len() == fields.len());
    assert(words@ =~= Seq::new(texts.len(), |i: int| word_of(texts[i]).unwrap()));
    Some(words)
}

/// Where a pair both hits the target with no pair before it hitting or
/// aborting, it is the only such pair: the answer of a search is unique.
pub proof fn lemma_first_hit_is_unique(
    mem: Seq<usize>,
    target: usize,
    noun1: usize,
    verb1: usize,
    noun2: usize,
    verb2: usize,
)
    requires
        noun1 < GRID && verb1 < GRID,
        noun2 < GRID && verb2 < GRID,
        hits(mem, noun1, verb1, target),
        none_before(mem, target, noun1, verb1),
        hits(mem, noun2, verb2, target),
        none_before(mem, target, noun2, verb2),
    ensures
        noun1 == noun2,
        verb1 == verb2,
{
}

/// Number of candidate values for each of the two inputs of a search.
pub const GRID: usize = 100;

/// Memory `mem` with the two inputs written to addresses 1 and 2.
pub open spec fn with_inputs(mem: Seq<usize>, noun: usize, verb: usize) -> Seq<usize> {
    mem.update(1, noun).update(2, verb)
}

/// The run of `mem` with inputs `noun` and `verb`.
pub open spec fn trial(mem: Seq<usize>, noun: usize, verb: usize) -> Outcome {
    run_from(with_inputs(mem, noun, verb), 0)
}

/// The trial halts with `target` at address 0.
pub open spec fn hits(mem: Seq<usize>, noun: usize, verb: usize, target: usize) -> bool {
    trial(mem, noun, verb).halted() && trial(mem, noun, verb).memory[0] == target
}

/// The trial ends with an unknown opcode, which ends the whole search.
pub open spec fn aborts(mem: Seq<usize>, noun: usize, verb: usize) -> bool {
    trial(mem, noun, verb).fault matches Some(Fault::UnknownOpcode(_))
}

/// The pair `(n, v)` comes before `(noun, verb)` in the order of the search:
/// nouns ascending, and for each noun the verbs ascending.
pub open spec fn precedes(n: usize, v: usize, noun: usize, verb: usize) -> bool {
    n < noun || (n == noun && v < verb)
}

/// No pair of the grid before `(noun, verb)` hits the target or aborts.
pub open spec fn none_before(mem: Seq<usize>, target: usize, noun: usize, verb: usize) -> bool {
    forall|n: usize, v: usize|
        #![trigger trial(mem, n, v)]
        n < GRID && v < GRID && precedes(n, v, noun, verb) ==> !hits(mem, n, v, target) && !aborts(
            mem,
            n,
            v,
        )
}

/// How a search over the grid ended.
#[derive(Clone, Copy, Debug, PartialEq, Eq, Structural)]
pub enum Search {
    /// The first pair whose trial halts with the target at address 0.
    Found { noun: usize, verb: usize },
    /// No pair of the grid gives the target.
    Exhausted,
    /// The trial of this pair met an unknown opcode before any pair gave
    /// the target.
    Aborted { noun: usize, verb: usize, opcode: usize },
}

/// Tries every pair of inputs of the grid on a fresh copy of `mem`, nouns
/// ascending and for each noun the verbs ascending, and stops at the first
/// pair whose trial halts with `target` at address 0. A trial that ends
/// with a truncated instruction, an invalid address or an overflow counts
/// as a miss; one that meets an unknown opcode ends the search.
pub fn search(mem: &Vec<usize>, target: usize) -> (result: Search)
    requires
        mem.len() >= 3,
    ensures
        match result {
            Search::Found { noun, verb } => {
                &&& noun < GRID
                &&& verb < GRID
                &&& hits(mem@, noun, verb, target)
                &&& none_before(mem@, target, noun, verb)
            },
            Search::Exhausted => none_before(mem@, target, GRID, 0),
            Search::Aborted { noun, verb, opcode } => {
                &&& noun < GRID
                &&& verb < GRID
                &&& trial(mem@, noun, verb).fault == Some(Fault::UnknownOpcode(opcode))
                &&& none_before(mem@, target, noun, verb)
            },
        },
{
    let mut noun: usize = 0;
    while noun < GRID
        invariant
            mem.len() >= 3,
            noun <= GRID,
            none_before(mem@, target, noun, 0),
        decreases GRID - noun,
    {
        let mut verb: usize = 0;
        while verb < GRID
            invariant
                mem.len() >= 3,
                noun < GRID,
                verb <= GRID,
                none_before(mem@, target, noun, verb),
            decreases GRID - verb,
        {
            let mut scratch = mem.clone();
            assert(scratch@ =~= mem@);
            scratch[1] = noun;
            scratch[2] = verb;
            match execute(&mut scratch) {
                Ok((value, _)) => {
                    if value == target {
                        return Search::Found { noun, verb };
                    }
                },
                Err(Fault::UnknownOpcode(opcode)) => {
                    return Search::Aborted { noun, verb, opcode };
                },
                Err(_) => {},
            }
            verb = verb + 1;
        }
        noun = noun + 1;
    }
    Search::Exhausted
}

/// The number by which a pair of inputs is reported: a hundred times the
/// noun, plus the verb.
pub fn checksum(noun: usize, verb: usize) -> (sum: usize)
    requires
        100 * noun + verb <= usize::MAX,
    ensures
        sum == 100 * noun + verb,
{
    100 * noun + verb
}

} // verus!
