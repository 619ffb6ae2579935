use parawasm::instr::{Instr, Label, Reg};
use parawasm::optimizer::{optimize, optimize_loop, update_labels};

fn mov(dst: Reg, src: Reg) -> Instr {
    Instr::Mov { dst, src }
}

#[test]
fn push_pop_becomes_move() {
    let mut labels: Vec<(usize, Label)> = vec![];
    let out = optimize_loop(vec![Instr::Push(Reg::Rax), Instr::Pop(Reg::Rbx)], &mut labels);
    assert_eq!(out, vec![mov(Reg::Rbx, Reg::Rax)]);
}

#[test]
fn reversed_moves_disappear() {
    let mut labels: Vec<(usize, Label)> = vec![];
    let out = optimize_loop(
        vec![Instr::Ret, mov(Reg::Rax, Reg::Rbx), mov(Reg::Rbx, Reg::Rax), Instr::Ret],
        &mut labels,
    );
    assert_eq!(out, vec![Instr::Ret, Instr::Ret]);
}

#[test]
fn identity_move_disappears() {
    let mut labels: Vec<(usize, Label)> = vec![];
    let out = optimize_loop(vec![mov(Reg::Rcx, Reg::Rcx), Instr::Ret], &mut labels);
    assert_eq!(out, vec![Instr::Ret]);
}

#[test]
fn other_instructions_are_kept() {
    let code = vec![
        Instr::Dq(7),
        Instr::Pop(Reg::Rax),
        Instr::Push(Reg::Rax),
        mov(Reg::Rax, Reg::Rbx),
        mov(Reg::Rax, Reg::Rbx),
        Instr::MovImm { dst: Reg::Rax, value: 1 },
        Instr::Ret,
    ];
    let mut labels: Vec<(usize, Label)> = vec![(0, 0), (6, 1), (7, 2)];
    let out = optimize_loop(code.clone(), &mut labels);
    assert_eq!(out, code);
    assert_eq!(labels, vec![(0, 0), (6, 1), (7, 2)]);
}

#[test]
fn one_pass_goes_left_to_right() {
    // push a; push b; pop c; pop d: only the inner pair is seen by one pass.
    let code = vec![
        Instr::Push(Reg::Rax),
        Instr::Push(Reg::Rbx),
        Instr::Pop(Reg::Rcx),
        Instr::Pop(Reg::Rdx),
    ];
    let mut labels: Vec<(usize, Label)> = vec![];
    let once = optimize_loop(code.clone(), &mut labels);
    assert_eq!(once, vec![Instr::Push(Reg::Rax), mov(Reg::Rcx, Reg::Rbx), Instr::Pop(Reg::Rdx)]);
    let all = optimize(code, &mut labels);
    assert_eq!(all, vec![Instr::Push(Reg::Rax), mov(Reg::Rcx, Reg::Rbx), Instr::Pop(Reg::Rdx)]);
}

#[test]
fn labels_follow_the_code() {
    let code = vec![
        Instr::Dq(0),                // 0
        Instr::Push(Reg::Rax),       // 1
        Instr::Pop(Reg::Rax),        // 2
        Instr::Ret,                  // 3
        mov(Reg::Rax, Reg::Rbx),     // 4
        mov(Reg::Rbx, Reg::Rax),     // 5
        Instr::Ret,                  // 6
    ];
    let mut labels: Vec<(usize, Label)> = vec![(0, 10), (1, 11), (3, 12), (4, 13), (6, 14), (7, 15)];
    let once = optimize_loop(code.clone(), &mut labels);
    assert_eq!(once, vec![Instr::Dq(0), mov(Reg::Rax, Reg::Rax), Instr::Ret, Instr::Ret]);
    assert_eq!(labels, vec![(0, 10), (1, 11), (2, 12), (3, 13), (3, 14), (4, 15)]);

    let mut labels: Vec<(usize, Label)> = vec![(0, 10), (1, 11), (3, 12), (4, 13), (6, 14), (7, 15)];
    let all = optimize(code, &mut labels);
    assert_eq!(all, vec![Instr::Dq(0), Instr::Ret, Instr::Ret]);
    assert_eq!(labels, vec![(0, 10), (1, 11), (1, 12), (2, 13), (2, 14), (3, 15)]);
}

#[test]
fn label_inside_a_pair_keeps_its_distance() {
    let code = vec![Instr::Push(Reg::Rax), Instr::Pop(Reg::Rbx), Instr::Ret];
    let mut labels: Vec<(usize, Label)> = vec![(1, 0)];
    let out = optimize_loop(code, &mut labels);
    assert_eq!(out, vec![mov(Reg::Rbx, Reg::Rax), Instr::Ret]);
    assert_eq!(labels, vec![(1, 0)]);
}

#[test]
fn optimizer_output_is_a_fixed_point() {
    let code = vec![
        Instr::Push(Reg::Rbp),
        mov(Reg::Rbp, Reg::Rsp),
        Instr::MovImm { dst: Reg::Rax, value: 42 },
        Instr::Push(Reg::Rax),
        Instr::Pop(Reg::Rax),
        mov(Reg::Rsp, Reg::Rbp),
        Instr::Pop(Reg::Rbp),
        Instr::Ret,
    ];
    let mut labels: Vec<(usize, Label)> = vec![(0, 0)];
    let first = optimize(code, &mut labels);
    assert_eq!(
        first,
        vec![
            Instr::Push(Reg::Rbp),
            mov(Reg::Rbp, Reg::Rsp),
            Instr::MovImm { dst: Reg::Rax, value: 42 },
            mov(Reg::Rsp, Reg::Rbp),
            Instr::Pop(Reg::Rbp),
            Instr::Ret,
        ]
    );
    assert_eq!(labels, vec![(0, 0)]);
    let second = optimize(first.clone(), &mut labels);
    assert_eq!(second, first);
    assert_eq!(labels, vec![(0, 0)]);
    let pass = optimize_loop(first.clone(), &mut labels);
    assert_eq!(pass, first);
}

#[test]
fn empty_frame_collapses_to_ret() {
    let code = vec![
        Instr::Push(Reg::Rbp),
        mov(Reg::Rbp, Reg::Rsp),
        mov(Reg::Rsp, Reg::Rbp),
        Instr::Pop(Reg::Rbp),
        Instr::Ret,
    ];
    let mut labels: Vec<(usize, Label)> = vec![(0, 3), (5, 4)];
    let out = optimize(code, &mut labels);
    assert_eq!(out, vec![Instr::Ret]);
    assert_eq!(labels, vec![(0, 3), (1, 4)]);
}

#[test]
fn empty_program_stays_empty() {
    let mut labels: Vec<(usize, Label)> = vec![(0, 0), (3, 1)];
    assert_eq!(optimize(vec![], &mut labels), vec![]);
    assert_eq!(labels, vec![(0, 0), (3, 1)]);
}

#[test]
fn update_labels_moves_entries_at_or_after_the_cursor() {
    let mut table: Vec<(usize, usize, Label)> = vec![(0, 0, 7), (4, 3, 8), (5, 4, 9), (9, 8, 10)];
    update_labels(&mut table, 5, 2);
    assert_eq!(table, vec![(0, 0, 7), (4, 3, 8), (5, 2, 9), (9, 6, 10)]);
}
