use broken_field::bf::{
    execution_history, from_string, halted, interest_score, is_valid, loop_dict, mutate,
    mutated, random_bf, random_bf_with, to_string, wrapping_add, BFChar, BFState, InvalidProgram,
    MemoryBehavior, Program,
};
use broken_field::bf::BFChar::{
    EndLoop, Input, Left, Minus, Output, Plus, Right, StartLoop,
};
use rand::rngs::StdRng;
use rand::SeedableRng;

fn run(program: &Program, state: &mut BFState, input: &[i8], budget: usize) -> usize {
    let mut input = input.iter().copied();
    let mut steps = 0;
    while !halted(state, program) && steps < budget {
        state.step(program, &mut input);
        steps += 1;
    }
    steps
}

#[test]
fn three_increments_then_output() {
    let program = from_string("+++.").unwrap();
    let mut state = BFState::new();
    let steps = run(&program, &mut state, &[], 4);
    assert_eq!(steps, 4);
    assert_eq!(state.output, vec![3]);
    assert!(halted(&state, &program));
    assert_eq!(state.program_pointer, 4);
}

#[test]
fn clear_loop_halts_with_zero_cell() {
    let program = from_string("+[-]").unwrap();
    let mut state = BFState::new();
    run(&program, &mut state, &[], 1000);
    assert!(halted(&state, &program));
    assert_eq!(state.program_pointer, 4);
    assert_eq!(state.memory[0], 0);
}

#[test]
fn fresh_state_is_zeroed_ring() {
    let state = BFState::new();
    assert_eq!(state.program_pointer, 0);
    assert_eq!(state.memory_pointer, 0);
    assert_eq!(state.memory, vec![0i8; 256]);
    assert_eq!(state.memory_behavior, MemoryBehavior::Wrapping(256));
    assert!(state.output.is_empty());
    assert_eq!(BFState::default(), state);
}

#[test]
fn loop_start_jumps_past_its_end_on_zero() {
    // the cell is zero, so the body is skipped and the write follows
    let program = from_string("[+++].").unwrap();
    let mut state = BFState::new();
    let steps = run(&program, &mut state, &[], 100);
    assert_eq!(steps, 2);
    assert_eq!(state.output, vec![0]);
    assert_eq!(state.memory[0], 0);
}

#[test]
fn loop_end_jumps_back_while_nonzero() {
    // move three from cell 0 to cell 1
    let program = from_string("+++[->+<]>.").unwrap();
    let mut state = BFState::new();
    run(&program, &mut state, &[], 1000);
    assert!(halted(&state, &program));
    assert_eq!(state.output, vec![3]);
    assert_eq!(state.memory[0], 0);
    assert_eq!(state.memory[1], 3);
}

#[test]
fn nested_loops_use_their_own_partners() {
    // 2 * 3 by nested loops into cell 2
    let program = from_string("++[>+++[>+<-]<-]>>.").unwrap();
    let mut state = BFState::new();
    run(&program, &mut state, &[], 10000);
    assert!(halted(&state, &program));
    assert_eq!(state.output, vec![6]);
}

#[test]
fn cells_wrap_on_increment_and_decrement() {
    let program = from_string("-.").unwrap();
    let mut state = BFState::new();
    run(&program, &mut state, &[], 10);
    assert_eq!(state.output, vec![-1]);

    let program = from_string("+.").unwrap();
    let mut state = BFState::new();
    state.memory[0] = 127;
    run(&program, &mut state, &[], 10);
    assert_eq!(state.output, vec![-128]);
}

#[test]
fn pointer_wraps_in_the_ring() {
    let program = from_string("<").unwrap();
    let mut state = BFState::new();
    run(&program, &mut state, &[], 10);
    assert_eq!(state.memory_pointer, 255);

    let program = from_string(">").unwrap();
    let mut state = BFState::new();
    state.memory_pointer = 255;
    run(&program, &mut state, &[], 10);
    assert_eq!(state.memory_pointer, 0);

    let mut state = BFState::new();
    state.memory_behavior = MemoryBehavior::Wrapping(10);
    state.memory_pointer = 9;
    run(&program, &mut state, &[], 10);
    assert_eq!(state.memory_pointer, 0);
}

#[test]
fn growing_tape_saturates_left_and_grows_right() {
    let left = from_string("<").unwrap();
    let mut state = BFState::new();
    state.memory_behavior = MemoryBehavior::InfiniteRightwards;
    run(&left, &mut state, &[], 10);
    assert_eq!(state.memory_pointer, 0);

    let right = from_string(">").unwrap();
    let mut state = BFState::new();
    state.memory_behavior = MemoryBehavior::InfiniteRightwards;
    state.memory_pointer = 254;
    run(&right, &mut state, &[], 10);
    assert_eq!(state.memory_pointer, 255);
    assert_eq!(state.memory.len(), 256);

    state.program_pointer = 0;
    run(&right, &mut state, &[], 10);
    assert_eq!(state.memory_pointer, 256);
    assert_eq!(state.memory.len(), 256 + 64);
    assert!(state.memory.iter().all(|&x| x == 0));
}

#[test]
fn read_takes_input_and_zero_when_exhausted() {
    let program = from_string(",.,.,.").unwrap();
    let mut state = BFState::new();
    run(&program, &mut state, &[7, -3], 100);
    assert_eq!(state.output, vec![7, -3, 0]);
}

#[test]
fn step_with_takes_the_pulled_value() {
    let program = from_string(",+").unwrap();
    let mut state = BFState::new();
    assert!(state.needs_input(&program));
    state.step_with(&program, Some(41));
    assert!(!state.needs_input(&program));
    state.step_with(&program, None);
    assert_eq!(state.memory[0], 42);
    assert!(halted(&state, &program));
    assert!(!state.needs_input(&program));
}

#[test]
fn only_read_touches_the_input() {
    let program = from_string("+>.<").unwrap();
    let mut state = BFState::new();
    let mut input = [1i8, 2, 3].iter().copied();
    while !halted(&state, &program) {
        state.step(&program, &mut input);
    }
    assert_eq!(input.next(), Some(1));
}

#[test]
fn wrapping_add_handles_negative_sums() {
    assert_eq!(wrapping_add(0, -1, 256), 255);
    assert_eq!(wrapping_add(255, 1, 256), 0);
    assert_eq!(wrapping_add(5, 3, 10), 8);
    assert_eq!(wrapping_add(5, -7, 10), 8);
    assert_eq!(wrapping_add(0, -25, 10), 5);
    assert_eq!(wrapping_add(3, 0, 1), 0);
}

#[test]
fn validator_accepts_nested_and_rejects_unbalanced() {
    assert!(is_valid(&[]));
    assert!(is_valid(&[Plus, Minus, Left, Right, Input, Output]));
    assert!(is_valid(&[StartLoop, EndLoop]));
    assert!(is_valid(&[StartLoop, StartLoop, EndLoop, Plus, EndLoop, StartLoop, EndLoop]));
    assert!(!is_valid(&[EndLoop]));
    assert!(!is_valid(&[StartLoop]));
    assert!(!is_valid(&[EndLoop, StartLoop]));
    assert!(!is_valid(&[StartLoop, EndLoop, EndLoop, StartLoop]));
    assert!(!is_valid(&[StartLoop, StartLoop, EndLoop]));
}

#[test]
fn accepted_programs_have_nonnegative_prefix_balance() {
    let mut rng = StdRng::seed_from_u64(11);
    for length in 0..40 {
        let program = random_bf(length, &mut rng);
        let mut balance: i64 = 0;
        for instr in program.instrs() {
            match instr {
                BFChar::StartLoop => balance += 1,
                BFChar::EndLoop => balance -= 1,
                _ => {}
            }
            assert!(balance >= 0);
        }
        assert_eq!(balance, 0);
    }
}

#[test]
fn construction_rejects_invalid_programs() {
    assert_eq!(Program::new(vec![BFChar::EndLoop]).err(), Some(InvalidProgram));
    assert_eq!(Program::new(vec![BFChar::StartLoop]).err(), Some(InvalidProgram));
    assert!(from_string("][").is_err());
    assert!(from_string("[[]").is_err());
    assert!(Program::new(vec![]).is_ok());
}

#[test]
fn jump_table_is_bidirectional() {
    let instrs = [StartLoop, Plus, StartLoop, EndLoop, EndLoop, StartLoop, EndLoop];
    let table = loop_dict(&instrs);
    let mut entries: Vec<(usize, usize)> = table.into_iter().collect();
    entries.sort();
    assert_eq!(entries, vec![(0, 4), (2, 3), (3, 2), (4, 0), (5, 6), (6, 5)]);
    let program = Program::new(instrs.to_vec()).unwrap();
    assert_eq!(program.matching_loop(0), Some(4));
    assert_eq!(program.matching_loop(4), Some(0));
    assert_eq!(program.matching_loop(2), Some(3));
    assert_eq!(program.matching_loop(3), Some(2));
    assert_eq!(program.matching_loop(1), None);
    assert_eq!(program.get(1), Plus);
    assert_eq!(program.len(), 7);
}

#[test]
fn text_round_trip_of_all_primitives() {
    let instrs = vec![Plus, Minus, Left, Right, StartLoop, EndLoop, Input, Output];
    let text = to_string(&instrs);
    assert_eq!(text, "+-<>[],.");
    let program = from_string(&text).unwrap();
    assert_eq!(program.instrs(), &instrs);
}

#[test]
fn text_round_trip_of_random_programs() {
    let mut rng = StdRng::seed_from_u64(5);
    for length in 0..30 {
        let program = random_bf_with(length, true, &mut rng);
        let text = to_string(program.instrs());
        assert_eq!(from_string(&text).unwrap().instrs(), program.instrs());
    }
}

#[test]
fn reading_passes_over_other_characters() {
    let program = from_string("a + b\n[ - ] é .").unwrap();
    assert_eq!(to_string(program.instrs()), "+[-].");
}

#[test]
fn random_programs_are_valid_and_long_enough() {
    let mut rng = StdRng::seed_from_u64(1);
    for length in 0..60 {
        for _ in 0..5 {
            let program = random_bf(length, &mut rng);
            assert!(program.len() >= length);
            assert!(is_valid(program.instrs()));
            assert!(program
                .instrs()
                .iter()
                .all(|&c| c != BFChar::Input && c != BFChar::Output));
        }
    }
}

#[test]
fn random_programs_with_io_are_valid() {
    let mut rng = StdRng::seed_from_u64(2);
    let mut seen_io = false;
    for length in 0..60 {
        let program = random_bf_with(length, true, &mut rng);
        assert!(program.len() >= length);
        assert!(is_valid(program.instrs()));
        seen_io |= program
            .instrs()
            .iter()
            .any(|&c| c == BFChar::Input || c == BFChar::Output);
    }
    assert!(seen_io);
}

#[test]
fn random_programs_differ_between_draws() {
    let mut rng = StdRng::seed_from_u64(3);
    let first = to_string(random_bf(40, &mut rng).instrs());
    let mut differs = false;
    for _ in 0..10 {
        differs |= to_string(random_bf(40, &mut rng).instrs()) != first;
    }
    assert!(differs);
}

#[test]
fn mutation_keeps_loops_and_validity() {
    let mut rng = StdRng::seed_from_u64(4);
    for length in 0..40 {
        let program = random_bf_with(length, true, &mut rng);
        for &(n, d) in &[(0u32, 1u32), (1, 2), (3, 20), (1, 1), (5, 2), (1, 0), (0, 0)] {
            let mutant = mutate(&program, n, d, &mut rng);
            assert_eq!(mutant.len(), program.len());
            assert!(is_valid(mutant.instrs()));
            for (a, b) in program.instrs().iter().zip(mutant.instrs()) {
                let a_loop = *a == BFChar::StartLoop || *a == BFChar::EndLoop;
                let b_loop = *b == BFChar::StartLoop || *b == BFChar::EndLoop;
                assert_eq!(a_loop, b_loop);
                if a_loop {
                    assert_eq!(a, b);
                }
            }
            if n == 0 {
                assert_eq!(mutant.instrs(), program.instrs());
            }
        }
    }
}

#[test]
fn mutation_with_full_chance_changes_something() {
    let mut rng = StdRng::seed_from_u64(6);
    let program = from_string("++++++++++++++++++++++++++++++++++++++++").unwrap();
    let mutant = mutate(&program, 1, 1, &mut rng);
    assert_ne!(mutant.instrs(), program.instrs());
}

#[test]
fn history_records_each_step() {
    let program = from_string("+++.").unwrap();
    let mut input = std::iter::empty();
    let history = execution_history(&program, &mut input, 10);
    assert_eq!(history.len(), 4);
    assert_eq!(history[0].1, BFChar::Plus);
    assert_eq!(history[0].0.memory[0], 1);
    assert_eq!(history[0].0.program_pointer, 1);
    assert_eq!(history[2].0.memory[0], 3);
    assert_eq!(history[3].1, BFChar::Output);
    assert_eq!(history[3].0.output, vec![3]);
    assert!(halted(&history[3].0, &program));
}

#[test]
fn history_of_endless_program_stops_at_budget() {
    let program = from_string("+[]").unwrap();
    let mut input = std::iter::empty();
    let history = execution_history(&program, &mut input, 3);
    assert_eq!(history.len(), 10001);
    assert!(!halted(&history[10000].0, &program));
}

#[test]
fn history_of_empty_program_is_empty() {
    let program = from_string("").unwrap();
    let mut input = std::iter::empty();
    assert!(execution_history(&program, &mut input, 0).is_empty());
}

#[test]
fn interest_score_cases() {
    assert_eq!(interest_score(&[]), 0);
    assert_eq!(interest_score(&[0, 5, 31]), 0);
    assert_eq!(interest_score(&[65; 9]), 2);
    assert_eq!(interest_score(&[65, 66, 67]), 3);
    assert_eq!(interest_score(&[65, 66, 67, 68, 69]), 5);
    assert_eq!(interest_score(&[65, 66, 67, 68, 69, 70]), 100);
    assert_eq!(interest_score(&[-1, -1, -1, -1]), 1);
    assert_eq!(interest_score(&[32]), 0);
    assert_eq!(interest_score(&[1, 2, 3, 4, 5, 6, 40]), 100);
}

#[test]
fn program_as_line_of_text() {
    let program = from_string("+ [ - ] .").unwrap();
    assert_eq!(program.to_text(), "+[-].\n");
    assert_eq!(from_string("").unwrap().to_text(), "\n");
}

#[test]
fn random_programs_only_close_loops_behind_the_length() {
    let mut rng = StdRng::seed_from_u64(41);
    for length in 0..60 {
        for with_io in [false, true] {
            let program = random_bf_with(length, with_io, &mut rng);
            let instrs = program.instrs();
            assert!(instrs[length..].iter().all(|&c| c == EndLoop));
            let mut balance = 0;
            for instr in &instrs[..length] {
                match instr {
                    StartLoop => balance += 1,
                    EndLoop => balance -= 1,
                    _ => {}
                }
            }
            assert_eq!(instrs.len(), length + balance);
        }
    }
    assert!(random_bf(0, &mut rng).instrs().is_empty());
}

#[test]
fn mutated_instruction_is_the_drawn_one_where_the_chance_fell() {
    assert_eq!(mutated(Plus, true, Some(Minus)), Minus);
    assert_eq!(mutated(Plus, true, Some(Output)), Output);
    assert_eq!(mutated(Plus, false, Some(Minus)), Plus);
    assert_eq!(mutated(Plus, false, None), Plus);
    assert_eq!(mutated(StartLoop, true, Some(Minus)), StartLoop);
    assert_eq!(mutated(EndLoop, true, None), EndLoop);
    assert_eq!(mutated(EndLoop, false, None), EndLoop);
}
