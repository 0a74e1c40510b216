use puzzles::intcode::{checksum, execute, read_memory, run, search, Fault, Search};

fn final_memory(program: Vec<usize>) -> (Result<(usize, usize), Fault>, Vec<usize>) {
    let mut memory = program;
    let result = execute(&mut memory);
    (result, memory)
}

#[test]
fn add_writes_sum_to_destination() {
    let (result, memory) = final_memory(vec![1, 0, 0, 0, 99]);
    assert_eq!(result, Ok((2, 4)));
    assert_eq!(memory, vec![2, 0, 0, 0, 99]);
}

#[test]
fn multiply_writes_product_to_destination() {
    let (result, memory) = final_memory(vec![2, 3, 0, 3, 99]);
    assert_eq!(result, Ok((2, 4)));
    assert_eq!(memory, vec![2, 3, 0, 6, 99]);
}

#[test]
fn program_may_rewrite_its_own_instructions() {
    let (result, memory) = final_memory(vec![1, 1, 1, 4, 99, 5, 6, 0, 99]);
    assert_eq!(result, Ok((30, 8)));
    assert_eq!(memory, vec![30, 1, 1, 4, 2, 5, 6, 0, 99]);
}

#[test]
fn two_instructions_then_halt() {
    let (result, memory) = final_memory(vec![1, 9, 10, 3, 2, 3, 11, 0, 99, 30, 40, 50]);
    assert_eq!(result, Ok((3500, 8)));
    assert_eq!(memory, vec![3500, 9, 10, 70, 2, 3, 11, 0, 99, 30, 40, 50]);
}

#[test]
fn lone_halt_stops_at_once() {
    let (result, memory) = final_memory(vec![99]);
    assert_eq!(result, Ok((99, 0)));
    assert_eq!(memory, vec![99]);
}

#[test]
fn halt_needs_no_full_window() {
    assert_eq!(run(vec![1, 0, 0, 0, 99, 7]), Ok((2, 4)));
}

#[test]
fn run_reports_like_execute() {
    assert_eq!(run(vec![1, 0, 0, 0, 99]), Ok((2, 4)));
    assert_eq!(run(vec![2, 3, 0, 3, 99]), Ok((2, 4)));
    assert_eq!(run(vec![99]), Ok((99, 0)));
    assert_eq!(run(vec![1, 0, 0]), Err(Fault::TruncatedInstruction));
}

#[test]
fn short_window_is_truncated() {
    let (result, memory) = final_memory(vec![1, 0, 0]);
    assert_eq!(result, Err(Fault::TruncatedInstruction));
    assert_eq!(memory, vec![1, 0, 0]);
    assert_eq!(run(vec![2]), Err(Fault::TruncatedInstruction));
}

#[test]
fn running_off_the_end_is_truncated() {
    let (result, memory) = final_memory(vec![1, 0, 0, 0]);
    assert_eq!(result, Err(Fault::TruncatedInstruction));
    assert_eq!(memory, vec![2, 0, 0, 0]);
}

#[test]
fn destination_outside_memory_is_a_fault() {
    let (result, memory) = final_memory(vec![1, 0, 0, 5, 99]);
    assert_eq!(result, Err(Fault::InvalidDestination));
    assert_eq!(memory, vec![1, 0, 0, 5, 99]);
}

#[test]
fn operand_outside_memory_is_a_fault() {
    assert_eq!(run(vec![1, 5, 0, 0, 99]), Err(Fault::InvalidOperand));
    assert_eq!(run(vec![2, 0, 5, 0, 99]), Err(Fault::InvalidOperand));
}

#[test]
fn unknown_opcode_carries_the_opcode() {
    assert_eq!(run(vec![3, 0, 0, 0, 99]), Err(Fault::UnknownOpcode(3)));
    assert_eq!(run(vec![0, 0, 0, 0, 99]), Err(Fault::UnknownOpcode(0)));
}

#[test]
fn window_and_destination_are_checked_before_the_opcode() {
    assert_eq!(run(vec![7, 0, 0]), Err(Fault::TruncatedInstruction));
    assert_eq!(run(vec![7, 0, 0, 9, 99]), Err(Fault::InvalidDestination));
    assert_eq!(run(vec![7, 9, 9, 0, 99]), Err(Fault::UnknownOpcode(7)));
}

#[test]
fn destination_is_checked_before_the_operands() {
    assert_eq!(run(vec![1, 9, 9, 9, 99]), Err(Fault::InvalidDestination));
}

#[test]
fn result_too_large_for_a_word_is_a_fault() {
    let (result, memory) = final_memory(vec![1, 5, 5, 0, 99, usize::MAX]);
    assert_eq!(result, Err(Fault::Overflow));
    assert_eq!(memory, vec![1, 5, 5, 0, 99, usize::MAX]);
    assert_eq!(run(vec![2, 5, 5, 0, 99, usize::MAX]), Err(Fault::Overflow));
    assert_eq!(run(vec![2, 5, 6, 0, 99, usize::MAX, 1]), Ok((usize::MAX, 4)));
}

#[test]
fn fault_keeps_earlier_stores() {
    let (result, memory) = final_memory(vec![1, 0, 0, 0, 2, 0, 0, 9]);
    assert_eq!(result, Err(Fault::InvalidDestination));
    assert_eq!(memory, vec![2, 0, 0, 0, 2, 0, 0, 9]);
}

#[test]
fn stored_word_can_become_an_unknown_opcode() {
    let (result, memory) = final_memory(vec![1, 3, 3, 4, 99, 0, 0, 0]);
    assert_eq!(result, Err(Fault::UnknownOpcode(8)));
    assert_eq!(memory, vec![1, 3, 3, 4, 8, 0, 0, 0]);
}

#[test]
fn runs_end_within_a_quarter_of_the_length() {
    let programs: Vec<Vec<usize>> = vec![
        vec![99],
        vec![1, 0, 0, 0, 99],
        vec![1, 0, 0, 0],
        vec![1, 0, 0, 0, 1, 0, 0, 0, 1, 0, 0, 0],
        vec![1, 9, 10, 3, 2, 3, 11, 0, 99, 30, 40, 50],
        vec![2, 0, 0, 0, 2, 0, 0, 0, 2, 0, 0, 0, 99],
    ];
    for program in programs {
        let length = program.len();
        let mut memory = program;
        match execute(&mut memory) {
            Ok((value, pc)) => {
                assert_eq!(pc % 4, 0);
                assert!(pc / 4 <= length / 4);
                assert_eq!(memory[pc], 99);
                assert_eq!(value, memory[0]);
            }
            Err(fault) => assert_eq!(fault, Fault::TruncatedInstruction),
        }
        assert_eq!(memory.len(), length);
    }
}

#[test]
fn three_multiplications_then_halt() {
    assert_eq!(run(vec![2, 0, 0, 0, 2, 0, 0, 0, 2, 0, 0, 0, 99]), Ok((256, 12)));
}

#[test]
fn search_reports_the_first_pair_in_order() {
    let memory = vec![1, 0, 0, 0, 99, 10, 20, 30];
    assert_eq!(search(&memory, 50), Search::Found { noun: 6, verb: 7 });
    assert_eq!(search(&memory, 40), Search::Found { noun: 5, verb: 7 });
    assert_eq!(search(&memory, 20), Search::Found { noun: 3, verb: 6 });
}

#[test]
fn search_result_reproduces_the_target() {
    let memory = vec![1, 0, 0, 0, 99, 10, 20, 30];
    match search(&memory, 50) {
        Search::Found { noun, verb } => {
            let mut again = memory.clone();
            again[1] = noun;
            again[2] = verb;
            assert_eq!(run(again), Ok((50, 4)));
            for n in 0..100 {
                for v in 0..100 {
                    if n < noun || (n == noun && v < verb) {
                        let mut earlier = memory.clone();
                        earlier[1] = n;
                        earlier[2] = v;
                        assert!(!matches!(run(earlier), Ok((50, _))));
                    }
                }
            }
        }
        other => panic!("no pair found: {:?}", other),
    }
}

#[test]
fn search_leaves_the_memory_alone() {
    let memory = vec![1, 0, 0, 0, 99, 10, 20, 30];
    let _ = search(&memory, 50);
    assert_eq!(memory, vec![1, 0, 0, 0, 99, 10, 20, 30]);
}

#[test]
fn search_reaches_the_last_pair_of_the_grid() {
    let mut memory = vec![0usize; 100];
    memory[0] = 1;
    memory[3] = 0;
    memory[4] = 99;
    memory[99] = 500;
    assert_eq!(search(&memory, 1000), Search::Found { noun: 99, verb: 99 });
    assert_eq!(search(&memory, 599), Search::Found { noun: 2, verb: 99 });
}

#[test]
fn search_without_a_match_is_exhausted() {
    let memory = vec![1, 0, 0, 0, 99, 10, 20, 30];
    assert_eq!(search(&memory, 12345), Search::Exhausted);
}

#[test]
fn search_passes_over_faulting_trials() {
    let memory = vec![1, 0, 0, 0, 99];
    assert_eq!(search(&memory, 198), Search::Found { noun: 4, verb: 4 });
    assert_eq!(search(&memory, 4), Search::Found { noun: 2, verb: 2 });
    assert_eq!(search(&memory, 7), Search::Exhausted);
}

#[test]
fn search_stops_at_an_unknown_opcode() {
    let memory = vec![1, 0, 0, 0, 7, 0, 0, 0];
    assert_eq!(search(&memory, 50), Search::Aborted { noun: 0, verb: 0, opcode: 7 });
}

#[test]
fn search_finds_a_match_before_a_later_unknown_opcode() {
    let memory = vec![1, 0, 0, 4, 99, 0, 0, 0, 99];
    assert_eq!(search(&memory, 1), Search::Found { noun: 0, verb: 0 });
    assert_eq!(search(&memory, 2), Search::Found { noun: 0, verb: 1 });
    assert_eq!(search(&memory, 5), Search::Aborted { noun: 0, verb: 2, opcode: 3 });
}

#[test]
fn checksum_is_hundred_nouns_plus_verb() {
    assert_eq!(checksum(12, 2), 1202);
    assert_eq!(checksum(6, 7), 607);
    assert_eq!(checksum(0, 0), 0);
    assert_eq!(checksum(99, 99), 9999);
}

#[test]
fn read_memory_takes_numbers_between_commas() {
    assert_eq!(read_memory("1,0,0,0,99"), Some(vec![1, 0, 0, 0, 99]));
    assert_eq!(read_memory("42"), Some(vec![42]));
    assert_eq!(read_memory("007,+5"), Some(vec![7, 5]));
}

#[test]
fn read_memory_trims_the_whole_text() {
    assert_eq!(read_memory("  1,2,3\r\n"), Some(vec![1, 2, 3]));
    assert_eq!(read_memory("\t99\n\n"), Some(vec![99]));
}

#[test]
fn read_memory_rejects_what_is_no_number() {
    assert_eq!(read_memory(""), None);
    assert_eq!(read_memory("   "), None);
    assert_eq!(read_memory("1,,2"), None);
    assert_eq!(read_memory("1,2,"), None);
    assert_eq!(read_memory("1, 2"), None);
    assert_eq!(read_memory("-1"), None);
    assert_eq!(read_memory("1,x"), None);
    assert_eq!(read_memory("+"), None);
    assert_eq!(read_memory("1\n2"), None);
}

#[test]
fn read_memory_rejects_numbers_beyond_a_word() {
    assert_eq!(read_memory("340282366920938463463374607431768211456"), None);
    assert_eq!(read_memory(&usize::MAX.to_string()), Some(vec![usize::MAX]));
}

#[test]
fn read_then_run() {
    let memory = read_memory("1,9,10,3,2,3,11,0,99,30,40,50\n").unwrap();
    assert_eq!(run(memory), Ok((3500, 8)));
}
