use bf_interp::interpreter::{find_close, find_open, Interpreter};

fn run_with<const EOF: u8>(src: &str, input: &[u8]) -> Vec<u8> {
    let mut interp: Interpreter<64> = Interpreter::new(src.to_string());
    for b in input {
        interp.push_input(*b);
    }
    let mut steps = 0;
    while !interp.cycle::<EOF>() {
        steps += 1;
        assert!(steps < 1_000_000, "program did not halt");
    }
    interp.take_output()
}

fn run(src: &str) -> Vec<u8> {
    run_with::<0>(src, &[])
}

#[test]
fn increment_past_255_wraps_to_zero() {
    let src = format!("{}.", "+".repeat(256));
    assert_eq!(run(&src), vec![0]);
    let src = format!("{}.+.", "+".repeat(255));
    assert_eq!(run(&src), vec![255, 0]);
}

#[test]
fn decrement_of_zero_wraps_to_255() {
    assert_eq!(run("-."), vec![255]);
    assert_eq!(run("--."), vec![254]);
}

#[test]
fn right_then_left_restores_pointer_and_tape() {
    assert_eq!(run("+++>++<."), vec![3]);
    assert_eq!(run("+++><.>."), vec![3, 0]);
}

#[test]
fn clear_loop_zeroes_cell_for_several_values() {
    for v in [0usize, 1, 2, 7, 255] {
        let src = format!("{}>+<[-].>.", "+".repeat(v));
        assert_eq!(run(&src), vec![0, 1], "start value {}", v);
    }
}

#[test]
fn clear_loop_takes_two_steps_per_unit() {
    let mut interp: Interpreter<4> = Interpreter::new("+++[-]".to_string());
    for _ in 0..3 {
        assert!(!interp.cycle::<0>());
    }
    let mut steps = 0;
    while !interp.cycle::<0>() {
        steps += 1;
    }
    assert_eq!(steps, 2 * 3 + 1);
}

#[test]
fn loop_on_zero_cell_skips_body() {
    assert_eq!(run("[+++.]+."), vec![1]);
}

#[test]
fn skip_respects_nesting() {
    assert_eq!(run("[[+]+.]++."), vec![2]);
    assert_eq!(run("+[>[-]<-[+]]>."), vec![0]);
}

#[test]
fn nested_loops_multiply() {
    assert_eq!(run("++[>++[>+++<-]<-]>>."), vec![12]);
}

#[test]
fn loading_drops_non_instruction_characters() {
    let interp: Interpreter<4> = Interpreter::new("a++ban;a-\n]".to_string());
    assert_eq!(interp.program(), &vec!['+', '+', '-', ']']);
}

#[test]
fn loading_keeps_all_eight_symbols_in_order() {
    let interp: Interpreter<4> = Interpreter::new("x><+-.,[]y".to_string());
    assert_eq!(interp.program(), &vec!['>', '<', '+', '-', '.', ',', '[', ']']);
    let empty: Interpreter<4> = Interpreter::new("hello world".to_string());
    assert!(empty.program().is_empty());
}

#[test]
fn read_at_end_of_input_stores_sentinel() {
    assert_eq!(run(",."), vec![0]);
    assert_eq!(run_with::<7>(",.", &[]), vec![7]);
    assert_eq!(run("+++,."), vec![0]);
}

#[test]
fn read_takes_input_bytes_in_order() {
    assert_eq!(run_with::<0>(",.,.,.", &[65, 66]), vec![65, 66, 0]);
}

#[test]
fn three_increments_then_output() {
    assert_eq!(run("+++."), vec![3]);
    let mut interp: Interpreter<1> = Interpreter::new("+++.".to_string());
    while !interp.cycle::<0>() {}
    assert_eq!(interp.take_output(), vec![3]);
}

#[test]
fn loop_multiplies_two_by_three() {
    assert_eq!(run("++[>+++<-]>."), vec![6]);
}

#[test]
fn stepping_after_completion_changes_nothing() {
    let mut interp: Interpreter<4> = Interpreter::new("+.".to_string());
    assert!(!interp.cycle::<0>());
    assert!(!interp.cycle::<0>());
    assert!(interp.cycle::<0>());
    assert_eq!(interp.take_output(), vec![1]);
    for _ in 0..5 {
        assert!(interp.cycle::<0>());
    }
    assert!(interp.take_output().is_empty());
    assert!(interp.can_cycle());
}

#[test]
fn empty_program_is_complete_at_once() {
    let mut interp: Interpreter<4> = Interpreter::new(String::new());
    assert!(interp.cycle::<0>());
}

#[test]
fn take_output_drains() {
    let mut interp: Interpreter<4> = Interpreter::new("+.+.".to_string());
    assert!(!interp.cycle::<0>());
    assert!(!interp.cycle::<0>());
    assert_eq!(interp.take_output(), vec![1]);
    while !interp.cycle::<0>() {}
    assert_eq!(interp.take_output(), vec![2]);
}

#[test]
fn wants_input_only_before_read_with_nothing_waiting() {
    let mut interp: Interpreter<4> = Interpreter::new("+,".to_string());
    assert!(!interp.wants_input());
    assert!(!interp.cycle::<0>());
    assert!(interp.wants_input());
    interp.push_input(9);
    assert!(!interp.wants_input());
}

#[test]
fn pointer_leaving_tape_is_refused() {
    let left: Interpreter<4> = Interpreter::new("<".to_string());
    assert!(!left.can_cycle());
    let mut right: Interpreter<2> = Interpreter::new(">>".to_string());
    assert!(right.can_cycle());
    assert!(!right.cycle::<0>());
    assert!(!right.can_cycle());
}

#[test]
fn unmatched_brackets_are_refused() {
    let open: Interpreter<4> = Interpreter::new("[+".to_string());
    assert!(!open.can_cycle());
    let mut close: Interpreter<4> = Interpreter::new("a++ban;a-\n]".to_string());
    for _ in 0..3 {
        assert!(!close.cycle::<0>());
    }
    assert!(!close.can_cycle());
    let zero_close: Interpreter<4> = Interpreter::new("]".to_string());
    assert!(zero_close.can_cycle());
}

#[test]
fn bracket_scans_find_partners() {
    let prog: Vec<char> = "[[-]+]]".chars().collect();
    assert_eq!(find_close(&prog, 0), Some(5));
    assert_eq!(find_close(&prog, 1), Some(3));
    assert_eq!(find_open(&prog, 5), Some(0));
    assert_eq!(find_open(&prog, 3), Some(1));
    assert_eq!(find_open(&prog, 6), None);
    let unclosed: Vec<char> = "[[]".chars().collect();
    assert_eq!(find_close(&unclosed, 0), None);
}
