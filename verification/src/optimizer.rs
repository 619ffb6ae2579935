//! The peephole optimizer: a left-to-right rewrite of the instruction vector,
//! repeated until it changes nothing, that keeps a table of labelled
//! instruction indices in step with the code.

use crate::instr::{Instr, Label};
use vstd::prelude::*;

verus! {

/// `a; b` is a push followed by a pop.
pub open spec fn fuses(a: Instr, b: Instr) -> bool {
    a is Push && b is Pop
}

/// `a; b` are two register moves of which the second undoes the first's
/// direction: `mov x, y; mov y, x`.
pub open spec fn cancels(a: Instr, b: Instr) -> bool {
    match (a, b) {
        (Instr::Mov { dst: d0, src: s0 }, Instr::Mov { dst: d1, src: s1 }) => d0 == s1 && d1 == s0,
        _ => false,
    }
}

/// `a` moves a register to itself.
pub open spec fn is_identity_move(a: Instr) -> bool {
    match a {
        Instr::Mov { dst, src } => dst == src,
        _ => false,
    }
}

/// Whether the rewrite at the head of `s` takes two instructions.
pub open spec fn takes_pair(s: Seq<Instr>) -> bool {
    s.len() >= 2 && (fuses(s[0], s[1]) || cancels(s[0], s[1]))
}

/// How many instructions the rewrite at the head of a non-empty `s` takes.
pub open spec fn group_len(s: Seq<Instr>) -> int {
    if takes_pair(s) {
        2
    } else {
        1
    }
}

/// What the rewrite at the head of a non-empty `s` leaves in their place.
pub open spec fn group_out(s: Seq<Instr>) -> Seq<Instr> {
    if s.len() >= 2 && fuses(s[0], s[1]) {
        seq![Instr::Mov { dst: s[1]->Pop_0, src: s[0]->Push_0 }]
    } else if s.len() >= 2 && cancels(s[0], s[1]) {
        Seq::empty()
    } else if is_identity_move(s[0]) {
        Seq::empty()
    } else {
        seq![s[0]]
    }
}

/// One pass over `s`.
pub open spec fn pass_spec(s: Seq<Instr>) -> Seq<Instr>
    decreases s.len(),
{
    if s.len() == 0 {
        Seq::empty()
    } else {
        group_out(s) + pass_spec(s.skip(group_len(s)))
    }
}

/// Where one pass over `s` leaves a label that stood at index `i`: `i` less
/// the instructions that the rewrites ending at or before `i` removed.
pub open spec fn new_index(s: Seq<Instr>, i: int) -> int
    decreases s.len(),
{
    if s.len() == 0 || i < group_len(s) {
        i
    } else {
        group_out(s).len() + new_index(s.skip(group_len(s)), i - group_len(s))
    }
}

/// The passes repeated until one removes nothing.
pub open spec fn optimize_spec(s: Seq<Instr>) -> Seq<Instr>
    decreases s.len(),
{
    if pass_spec(s).len() >= s.len() {
        s
    } else {
        optimize_spec(pass_spec(s))
    }
}

/// Where the repeated passes leave a label that stood at index `i`.
pub open spec fn final_index(s: Seq<Instr>, i: int) -> int
    decreases s.len(),
{
    if pass_spec(s).len() >= s.len() {
        i
    } else {
        final_index(pass_spec(s), new_index(s, i))
    }
}

/// Index `i` is where a rewrite of one pass over `s` starts, or the end of `s`:
/// no rewrite takes the instructions on both sides of it together.
pub open spec fn is_boundary(s: Seq<Instr>, i: int) -> bool
    decreases s.len(),
{
    if i <= 0 || s.len() == 0 {
        i == 0
    } else if i < group_len(s) {
        false
    } else {
        is_boundary(s.skip(group_len(s)), i - group_len(s))
    }
}

/// Index `i` is a boundary in every pass of the optimization of `s`.
pub open spec fn stays_boundary(s: Seq<Instr>, i: int) -> bool
    decreases s.len(),
{
    is_boundary(s, i) && (pass_spec(s).len() >= s.len() || stays_boundary(
        pass_spec(s),
        new_index(s, i),
    ))
}

pub proof fn lemma_group_bounds(s: Seq<Instr>)
    requires
        s.len() > 0,
    ensures
        1 <= group_len(s) <= s.len(),
        group_out(s).len() <= 1,
        group_out(s).len() <= group_len(s),
        group_out(s).len() == group_len(s) ==> group_out(s) == s.take(group_len(s)),
{
    if group_out(s).len() == group_len(s) {
        assert(group_out(s) =~= s.take(group_len(s)));
    }
}

/// A pass never lengthens the code.
pub proof fn lemma_pass_len(s: Seq<Instr>)
    ensures
        pass_spec(s).len() <= s.len(),
    decreases s.len(),
{
    if s.len() > 0 {
        lemma_group_bounds(s);
        lemma_pass_len(s.skip(group_len(s)));
    }
}

/// A pass that removes nothing changes nothing.
pub proof fn lemma_pass_same_len(s: Seq<Instr>)
    requires
        pass_spec(s).len() >= s.len(),
    ensures
        pass_spec(s) == s,
    decreases s.len(),
{
    if s.len() > 0 {
        lemma_group_bounds(s);
        let rest = s.skip(group_len(s));
        lemma_pass_len(rest);
        lemma_pass_same_len(rest);
        assert(s =~= s.take(group_len(s)) + rest);
    } else {
        assert(pass_spec(s) =~= s);
    }
}

/// A label never moves forward, and never before the start.
pub proof fn lemma_new_index_bounds(s: Seq<Instr>, i: int)
    requires
        0 <= i,
    ensures
        0 <= new_index(s, i) <= i,
    decreases s.len(),
{
    if s.len() == 0 || i < group_len(s) {
    } else {
        lemma_group_bounds(s);
        lemma_new_index_bounds(s.skip(group_len(s)), i - group_len(s));
    }
}

/// A pass that removes nothing moves no label.
pub proof fn lemma_new_index_identity(s: Seq<Instr>, i: int)
    requires
        pass_spec(s).len() >= s.len(),
    ensures
        new_index(s, i) == i,
    decreases s.len(),
{
    if s.len() == 0 || i < group_len(s) {
    } else {
        lemma_group_bounds(s);
        lemma_pass_len(s.skip(group_len(s)));
        lemma_new_index_identity(s.skip(group_len(s)), i - group_len(s));
    }
}

/// A label at a boundary of one pass marks, after the pass, the start of what
/// the pass made of the code that followed it.
pub proof fn lemma_pass_keeps_boundary(s: Seq<Instr>, i: int)
    requires
        0 <= i <= s.len(),
        is_boundary(s, i),
    ensures
        0 <= new_index(s, i) <= pass_spec(s).len(),
        pass_spec(s).skip(new_index(s, i)) == pass_spec(s.skip(i)),
        pass_spec(s).len() == new_index(s, i) + pass_spec(s.skip(i)).len(),
    decreases s.len(),
{
    if i == 0 {
        assert(s.skip(0) =~= s);
        assert(pass_spec(s).skip(0) =~= pass_spec(s));
    } else {
        lemma_group_bounds(s);
        let g = group_len(s);
        let rest = s.skip(g);
        lemma_pass_keeps_boundary(rest, i - g);
        assert(rest.skip(i - g) =~= s.skip(i));
        assert(pass_spec(s).skip(new_index(s, i)) =~= pass_spec(rest).skip(new_index(rest, i - g)));
    }
}

/// An instruction that no rewrite touches is still what a label on it marks
/// after one pass.
pub proof fn lemma_pass_keeps_instruction(s: Seq<Instr>, i: int)
    requires
        0 <= i < s.len(),
        is_boundary(s, i),
        !takes_pair(s.skip(i)),
        !is_identity_move(s[i]),
    ensures
        0 <= new_index(s, i) < pass_spec(s).len(),
        pass_spec(s)[new_index(s, i)] == s[i],
{
    lemma_pass_keeps_boundary(s, i);
    let tail = s.skip(i);
    assert(pass_spec(tail) == group_out(tail) + pass_spec(tail.skip(group_len(tail))));
    assert(group_out(tail) =~= seq![s[i]]);
    assert(pass_spec(tail)[0] == s[i]);
    assert(pass_spec(s).skip(new_index(s, i))[0] == pass_spec(s)[new_index(s, i)]);
}

/// Optimizing after one more pass gives what optimizing gives.
pub proof fn lemma_optimize_after_pass(s: Seq<Instr>)
    ensures
        optimize_spec(pass_spec(s)) == optimize_spec(s),
{
    if pass_spec(s).len() >= s.len() {
        lemma_pass_same_len(s);
    }
}

/// The result of the optimizer is a fixed point of its pass.
pub proof fn lemma_optimize_is_fixed_point(s: Seq<Instr>)
    ensures
        pass_spec(optimize_spec(s)) == optimize_spec(s),
        optimize_spec(s).len() <= s.len(),
    decreases s.len(),
{
    if pass_spec(s).len() >= s.len() {
        lemma_pass_same_len(s);
    } else {
        lemma_optimize_is_fixed_point(pass_spec(s));
    }
}

/// Running the optimizer on its own output changes nothing.
pub proof fn lemma_optimize_idempotent(s: Seq<Instr>)
    ensures
        optimize_spec(optimize_spec(s)) == optimize_spec(s),
{
    lemma_optimize_is_fixed_point(s);
}

/// A label never moves forward through the whole optimization.
pub proof fn lemma_final_index_bounds(s: Seq<Instr>, i: int)
    requires
        0 <= i,
    ensures
        0 <= final_index(s, i) <= i,
    decreases s.len(),
{
    if pass_spec(s).len() >= s.len() {
    } else {
        lemma_new_index_bounds(s, i);
        lemma_final_index_bounds(pass_spec(s), new_index(s, i));
    }
}

/// A label that stands at a boundary in every pass marks, in the optimized
/// code, the start of the optimized form of the code that followed it.
pub proof fn lemma_optimize_keeps_labels(s: Seq<Instr>, i: int)
    requires
        0 <= i <= s.len(),
        stays_boundary(s, i),
    ensures
        0 <= final_index(s, i) <= optimize_spec(s).len(),
        optimize_spec(s).skip(final_index(s, i)) == optimize_spec(s.skip(i)),
    decreases s.len(),
{
    lemma_pass_keeps_boundary(s, i);
    lemma_pass_len(s.skip(i));
    lemma_new_index_bounds(s, i);
    if pass_spec(s).len() >= s.len() {
        lemma_pass_same_len(s);
        assert(pass_spec(s.skip(i)).len() >= s.skip(i).len());
    } else {
        lemma_optimize_keeps_labels(pass_spec(s), new_index(s, i));
        lemma_optimize_after_pass(s.skip(i));
    }
}

/// An instruction that no rewrite takes: a return, or data.
pub open spec fn fixed(a: Instr) -> bool {
    a is Ret || a is Dq
}

/// Where an instruction stands that no rewrite takes, a rewrite starts, and
/// the instruction is kept.
pub proof fn lemma_fixed_boundary(s: Seq<Instr>, j: int)
    requires
        0 <= j < s.len(),
        fixed(s[j]),
    ensures
        is_boundary(s, j),
        !takes_pair(s.skip(j)),
        !is_identity_move(s[j]),
    decreases s.len(),
{
    assert(s.skip(j)[0] == s[j]);
    if j > 0 {
        lemma_group_bounds(s);
        let g = group_len(s);
        if j < g {
            assert(fixed(s[1]));
        } else {
            assert(s.skip(g)[j - g] == s[j]);
            lemma_fixed_boundary(s.skip(g), j - g);
        }
    }
}

/// A label at a boundary splits the way of every label after it: the later
/// label moves as the first does, and then as it moves in the code that
/// follows the first.
pub proof fn lemma_new_index_split(s: Seq<Instr>, i: int, j: int)
    requires
        0 <= i <= j,
        i <= s.len(),
        is_boundary(s, i),
    ensures
        new_index(s, j) == new_index(s, i) + new_index(s.skip(i), j - i),
    decreases s.len(),
{
    if i == 0 {
        assert(s.skip(0) =~= s);
    } else {
        lemma_group_bounds(s);
        let g = group_len(s);
        lemma_new_index_split(s.skip(g), i - g, j - g);
        assert(s.skip(g).skip(i - g) =~= s.skip(i));
    }
}

/// The label after an instruction that no rewrite takes stands at a
/// boundary, one after the label on that instruction, before and after a
/// pass.
pub proof fn lemma_after_fixed(s: Seq<Instr>, i: int)
    requires
        1 <= i <= s.len(),
        fixed(s[i - 1]),
    ensures
        is_boundary(s, i),
        new_index(s, i) == new_index(s, i - 1) + 1,
        0 <= new_index(s, i - 1) < pass_spec(s).len(),
        pass_spec(s)[new_index(s, i - 1)] == s[i - 1],
{
    lemma_fixed_boundary(s, i - 1);
    lemma_pass_keeps_instruction(s, i - 1);
    lemma_boundary_after_single(s, i - 1);
    lemma_new_index_split(s, i - 1, i);
    let tail = s.skip(i - 1);
    assert(tail[0] == s[i - 1]);
    assert(group_len(tail) == 1);
    assert(group_out(tail) =~= seq![tail[0]]);
    assert(new_index(tail, 1) == 1 + new_index(tail.skip(1), 0));
}

/// After a boundary where a rewrite takes one instruction comes a boundary.
proof fn lemma_boundary_after_single(s: Seq<Instr>, i: int)
    requires
        0 <= i < s.len(),
        is_boundary(s, i),
        !takes_pair(s.skip(i)),
    ensures
        is_boundary(s, i + 1),
    decreases s.len(),
{
    if i == 0 {
        assert(s.skip(0) =~= s);
        assert(group_len(s) == 1);
        assert(is_boundary(s.skip(1), 0));
    } else {
        lemma_group_bounds(s);
        let g = group_len(s);
        assert(s.skip(g).skip(i - g) =~= s.skip(i));
        lemma_boundary_after_single(s.skip(g), i - g);
    }
}

/// A label that stands at the start of the code, or after an instruction that
/// no rewrite takes, and at or before a return, marks an instruction of the
/// optimized code.
pub proof fn lemma_label_stays(s: Seq<Instr>, i: int, j: int)
    requires
        0 <= i <= j < s.len(),
        i == 0 || fixed(s[i - 1]),
        s[j] == Instr::Ret,
    ensures
        0 <= final_index(s, i) < optimize_spec(s).len(),
    decreases s.len(),
{
    if pass_spec(s).len() >= s.len() {
    } else {
        lemma_fixed_boundary(s, j);
        lemma_pass_keeps_instruction(s, j);
        lemma_new_index_bounds(s, i);
        if i == 0 {
            lemma_new_index_bounds(s, j);
        } else {
            lemma_after_fixed(s, i);
            lemma_new_index_split(s, i, j);
            lemma_new_index_bounds(s.skip(i), j - i);
        }
        lemma_label_stays(pass_spec(s), new_index(s, i), new_index(s, j));
    }
}

/// Moves back by `removed` the current index of every entry of the table whose
/// index before the pass is at or after `head_idx`.
pub fn update_labels(labels: &mut Vec<(usize, usize, Label)>, head_idx: usize, removed: usize)
    requires
        forall|k: int|
            0 <= k < old(labels)@.len() && (#[trigger] old(labels)@[k]).0 >= head_idx
                ==> old(labels)@[k].1 >= removed,
    ensures
        final(labels)@.len() == old(labels)@.len(),
        forall|k: int|
            0 <= k < old(labels)@.len() ==> #[trigger] final(labels)@[k] == (if old(
                labels,
            )@[k].0 >= head_idx {
                (old(labels)@[k].0, (old(labels)@[k].1 - removed) as usize, old(labels)@[k].2)
            } else {
                old(labels)@[k]
            }),
{
    let n: usize = labels.len();
    let mut k: usize = 0;
    while k < n
        invariant
            0 <= k <= n,
            n == old(labels)@.len(),
            labels@.len() == n,
            forall|j: int|
                0 <= j < k ==> #[trigger] labels@[j] == (if old(labels)@[j].0 >= head_idx {
                    (old(labels)@[j].0, (old(labels)@[j].1 - removed) as usize, old(labels)@[j].2)
                } else {
                    old(labels)@[j]
                }),
            forall|j: int| k <= j < n ==> #[trigger] labels@[j] == old(labels)@[j],
            forall|j: int|
                0 <= j < n && (#[trigger] old(labels)@[j]).0 >= head_idx ==> old(labels)@[j].1
                    >= removed,
        decreases n - k,
    {
        let entry: (usize, usize, Label) = labels[k];
        if entry.0 >= head_idx {
            labels.set(k, (entry.0, entry.1 - removed, entry.2));
        }
        k = k + 1;
    }
}

/// What the label table holds for entry `(i, l)` after one pass over `s`.
pub open spec fn relabel(s: Seq<Instr>, entry: (usize, Label)) -> (usize, Label) {
    (new_index(s, entry.0 as int) as usize, entry.1)
}

/// What the label table holds for entry `(i, l)` after the optimization of `s`.
pub open spec fn relabel_final(s: Seq<Instr>, entry: (usize, Label)) -> (usize, Label) {
    (final_index(s, entry.0 as int) as usize, entry.1)
}

proof fn lemma_new_index_unfold(s: Seq<Instr>, h: int, i: int)
    requires
        0 <= h < s.len(),
        h + group_len(s.skip(h)) <= i,
    ensures
        new_index(s.skip(h), i - h) == group_out(s.skip(h)).len() + new_index(
            s.skip(h + group_len(s.skip(h))),
            i - h - group_len(s.skip(h)),
        ),
{
    let t = s.skip(h);
    lemma_group_bounds(t);
    assert(t.skip(group_len(t)) =~= s.skip(h + group_len(t)));
}

/// One pass of the optimizer. Rewrites, from left to right: a push followed by
/// a pop into one register move; two register moves of which the second
/// reverses the first into nothing; a move of a register to itself into
/// nothing. Every entry of `labels` is moved back by the number of instructions
/// that the rewrites ending at or before its index removed.
pub fn optimize_loop(instructions: Vec<Instr>, labels: &mut Vec<(usize, Label)>) -> (out: Vec<
    Instr,
>)
    ensures
        out@ == pass_spec(instructions@),
        final(labels)@.len() == old(labels)@.len(),
        forall|k: int|
            0 <= k < old(labels)@.len() ==> #[trigger] final(labels)@[k] == relabel(
                instructions@,
                old(labels)@[k],
            ),
{
    let ghost s = instructions@;
    let count: usize = labels.len();
    let mut table: Vec<(usize, usize, Label)> = Vec::new();
    let mut k: usize = 0;
    while k < count
        invariant
            0 <= k <= count,
            count == labels@.len(),
            labels@ == old(labels)@,
            table@.len() == k,
            forall|j: int|
                0 <= j < k ==> #[trigger] table@[j] == (labels@[j].0, labels@[j].0, labels@[j].1),
        decreases count - k,
    {
        let entry: (usize, Label) = labels[k];
        table.push((entry.0, entry.0, entry.1));
        k = k + 1;
    }
    let n: usize = instructions.len();
    let mut out: Vec<Instr> = Vec::new();
    let mut head: usize = 0;
    proof {
        assert(s.skip(0) =~= s);
        assert(out@ + pass_spec(s.skip(0)) =~= pass_spec(s));
    }
    while head < n
        invariant
            0 <= head <= n,
            n == s.len(),
            s == instructions@,
            count == old(labels)@.len(),
            table@.len() == count,
            out@.len() <= head,
            out@ + pass_spec(s.skip(head as int)) == pass_spec(s),
            forall|j: int|
                0 <= j < count ==> (#[trigger] table@[j]).0 == old(labels)@[j].0 && table@[j].2
                    == old(labels)@[j].1,
            forall|j: int|
                0 <= j < count && (#[trigger] table@[j]).0 < head ==> table@[j].1 == new_index(
                    s,
                    table@[j].0 as int,
                ),
            forall|j: int|
                0 <= j < count && (#[trigger] table@[j]).0 >= head ==> table@[j].1 == table@[j].0
                    - head + out@.len() && new_index(s, table@[j].0 as int) == out@.len()
                    + new_index(s.skip(head as int), table@[j].0 - head),
        decreases n - head,
    {
        let ghost t = s.skip(head as int);
        let ghost before = table@;
        let ghost emitted = out@;
        let a: Instr = instructions[head];
        let mut taken: usize = 1;
        let mut kept: usize = 1;
        proof {
            lemma_group_bounds(t);
            assert(t[0] == a);
        }
        let mut handled: bool = false;
        if n - head >= 2 {
            let b: Instr = instructions[head + 1];
            assert(t[1] == b);
            match (a, b) {
                (Instr::Push(src), Instr::Pop(dst)) => {
                    out.push(Instr::Mov { dst, src });
                    taken = 2;
                    handled = true;
                },
                (Instr::Mov { dst: d0, src: s0 }, Instr::Mov { dst: d1, src: s1 }) => {
                    if d0 == s1 && d1 == s0 {
                        taken = 2;
                        kept = 0;
                        handled = true;
                    }
                },
                _ => {},
            }
        }
        if !handled {
            match a {
                Instr::Mov { dst, src } => {
                    if dst == src {
                        kept = 0;
                    } else {
                        out.push(a);
                    }
                },
                _ => {
                    out.push(a);
                },
            }
        }
        proof {
            assert(taken == group_len(t));
            assert(out@ =~= emitted + group_out(t));
            assert(kept == group_out(t).len());
            assert(t.skip(group_len(t)) =~= s.skip(head + taken));
            assert(out@ + pass_spec(s.skip(head + taken)) =~= emitted + pass_spec(t));
            assert forall|j: int|
                0 <= j < count && (#[trigger] before[j]).0 >= head + taken implies before[j].1
                >= taken - kept by {}
        }
        head = head + taken;
        if kept < taken {
            update_labels(&mut table, head, taken - kept);
        }
        proof {
            assert forall|j: int| 0 <= j < count && (#[trigger] table@[j]).0 < head implies table@[j].1
                == new_index(s, table@[j].0 as int) by {
                assert(table@[j].0 == before[j].0);
                if before[j].0 >= head - taken {
                    assert(table@[j].1 == before[j].1);
                }
            }
            assert forall|j: int|
                0 <= j < count && (#[trigger] table@[j]).0 >= head implies table@[j].1 == table@[j].0
                - head + out@.len() && new_index(s, table@[j].0 as int) == out@.len() + new_index(
                s.skip(head as int),
                table@[j].0 - head,
            ) by {
                assert(table@[j].0 == before[j].0);
                lemma_new_index_unfold(s, head - taken, table@[j].0 as int);
            }
        }
    }
    let mut k: usize = 0;
    proof {
        assert(s.skip(n as int) =~= Seq::empty());
        assert(out@ =~= pass_spec(s));
    }
    while k < count
        invariant
            0 <= k <= count,
            head == n,
            n == s.len(),
            count == old(labels)@.len(),
            table@.len() == count,
            labels@.len() == count,
            forall|j: int|
                0 <= j < count ==> (#[trigger] table@[j]).0 == old(labels)@[j].0 && table@[j].2
                    == old(labels)@[j].1,
            forall|j: int|
                0 <= j < count ==> (#[trigger] table@[j]).1 == new_index(s, table@[j].0 as int),
            forall|j: int| 0 <= j < k ==> #[trigger] labels@[j] == relabel(s, old(labels)@[j]),
        decreases count - k,
    {
        let entry: (usize, usize, Label) = table[k];
        labels.set(k, (entry.1, entry.2));
        k = k + 1;
    }
    out
}

/// The optimizer: passes repeated until one changes nothing. `labels` follows
/// the code through every pass.
pub fn optimize(instructions: Vec<Instr>, labels: &mut Vec<(usize, Label)>) -> (out: Vec<Instr>)
    ensures
        out@ == optimize_spec(instructions@),
        pass_spec(out@) == out@,
        final(labels)@.len() == old(labels)@.len(),
        forall|k: int|
            0 <= k < old(labels)@.len() ==> #[trigger] final(labels)@[k] == relabel_final(
                instructions@,
                old(labels)@[k],
            ),
{
    let mut current: Vec<Instr> = instructions;
    proof {
        lemma_optimize_is_fixed_point(instructions@);
    }
    loop
        invariant
            optimize_spec(current@) == optimize_spec(instructions@),
            labels@.len() == old(labels)@.len(),
            forall|k: int|
                0 <= k < labels@.len() ==> final_index(
                    instructions@,
                    old(labels)@[k].0 as int,
                ) == final_index(current@, (#[trigger] labels@[k]).0 as int) && labels@[k].1
                    == old(labels)@[k].1,
            pass_spec(optimize_spec(instructions@)) == optimize_spec(instructions@),
        decreases current@.len(),
    {
        let ghost before = labels@;
        let next: Vec<Instr> = optimize_loop(current.clone(), labels);
        proof {
            lemma_pass_len(current@);
            assert forall|k: int| 0 <= k < labels@.len() implies 0 <= new_index(
                current@,
                (#[trigger] before[k]).0 as int,
            ) <= before[k].0 by {
                lemma_new_index_bounds(current@, before[k].0 as int);
            }
        }
        if next.len() == current.len() {
            proof {
                lemma_pass_same_len(current@);
                assert forall|k: int| 0 <= k < labels@.len() implies #[trigger] labels@[k]
                    == relabel_final(instructions@, old(labels)@[k]) by {
                    lemma_new_index_identity(current@, before[k].0 as int);
                }
            }
            return current;
        }
        current = next;
    }
}

} // verus!
