//! Quilt opcodes emitted as Subleq programs.
//!
//! All addresses are absolute and every program is meant to be placed at the
//! start of the tape (pc 0). The opcodes are BIND, LINK, EFFECT, VIEW, TICK
//! (the five laws) and FORGET, PROOF, ROUTE, CRDT, WORLD, TIME (the six
//! adopted ones). Every emitted program is a whole number of triples and ends
//! with the halt triple `-1, 0, 0`. Literals are embedded in the program as
//! their negations, so that one subtraction adds them.
//!
//! What each program does when run is proved below, for target cells that lie
//! past the program itself:
//! - BIND, LINK, WORLD store a literal: `mem[addr] = value`;
//! - EFFECT, TICK, TIME add one: `mem[addr] += 1`;
//! - VIEW, ROUTE copy: `mem[dst] = mem[src]`, leaving `mem[src]` as it was;
//! - FORGET zeroes: `mem[addr] = 0`;
//! - PROOF compares: `mem[100] = 1` if `mem[addr] == expected`, else `-1`;
//! - CRDT merges a max-register: `mem[addr] = max(mem[addr], value)`.
//! The comparisons of PROOF and CRDT hold for every pair of values.

use vstd::prelude::*;
use crate::subleq::{MachineState, run_ends, run_outcome, run_spec, step_spec, subtract, lemma_run_outcome_unique};

verus! {

/// Opcode ids: the five laws first, then the six adopted opcodes.
pub const OP_BIND: i64 = 1;

pub const OP_LINK: i64 = 2;

pub const OP_EFFECT: i64 = 3;

pub const OP_VIEW: i64 = 4;

pub const OP_TICK: i64 = 5;

pub const OP_FORGET: i64 = 6;

pub const OP_PROOF: i64 = 7;

pub const OP_ROUTE: i64 = 8;

pub const OP_CRDT: i64 = 9;

pub const OP_WORLD: i64 = 10;

pub const OP_TIME: i64 = 11;

/// The status cell: PROOF writes its verdict there, and a compiled VIEW its
/// snapshot. It lies past every program.
pub open spec fn status_cell() -> usize {
    100
}

/// The global clock cell that a compiled TICK advances. It lies past every
/// program.
pub open spec fn clock_cell() -> usize {
    101
}

/// The negation of a literal, as the program stores it.
pub open spec fn neg(v: i64) -> i64 {
    subtract(0, v)
}

/// The cells of the store-literal program (BIND, LINK, WORLD): zero
/// `mem[addr]`, then subtract the cell 3, which holds `-value`.
pub open spec fn store_code(addr: usize, value: i64) -> Seq<i64> {
    let a = addr as i64;
    seq![a, a, 9, neg(value), 0, 0, 0, 0, 0, 3, a, 12, -1i64, 0, 0]
}

/// The cells of the BIND program.
pub open spec fn bind_code(addr: usize, value: i64) -> Seq<i64> {
    store_code(addr, value)
}

/// The cells of the LINK program.
pub open spec fn link_code(addr: usize, link_target: usize) -> Seq<i64> {
    store_code(addr, link_target as i64)
}

/// The cells of the add-one program (EFFECT, TICK, TIME): subtract the cell
/// 4, which holds -1; both branches land on a halt triple.
pub open spec fn increment_code(addr: usize) -> Seq<i64> {
    seq![4, addr as i64, 6, -1i64, -1i64, 0, -1i64, 0, 0]
}

/// The cells of the EFFECT program.
pub open spec fn effect_code(addr: usize) -> Seq<i64> {
    increment_code(addr)
}

/// The cells of the TICK program.
pub open spec fn tick_code(clock: usize) -> Seq<i64> {
    increment_code(clock)
}

/// The cells of the copy program (VIEW, ROUTE): zero the scratch cell 13,
/// subtract the source into it, then zero the destination and subtract the
/// scratch cell into it. The source is read before the destination is
/// cleared, so a copy of a cell onto itself leaves it as it was.
pub open spec fn view_code(addr: usize, status: usize) -> Seq<i64> {
    let a = addr as i64;
    let s = status as i64;
    seq![13, 13, 3, a, 13, 6, s, s, 9, 13, s, 12, -1i64, 0, 0]
}

/// The cells of the FORGET program.
pub open spec fn forget_code(addr: usize) -> Seq<i64> {
    let a = addr as i64;
    seq![a, a, 6, 0, 0, 0, -1i64, 0, 0]
}

/// The cells of the PROOF program. Cell 3 is scratch for `t = expected - x`
/// (wrapping), cell 4 holds `-expected`, cell 5 holds 1, cell 37 is scratch
/// for `-t`; cell 36 (the halt) holds the -1 that makes the verdict 1. The
/// values match exactly when `t == 0`, which the program tells by three
/// tests: `t <= 0`, `-t <= 0` (so `t` is 0 or `i64::MIN`), `t - 1 <= 0`.
pub open spec fn proof_code(addr: usize, expected: i64) -> Seq<i64> {
    let a = addr as i64;
    let s = status_cell() as i64;
    seq![
        3, 3, 6,
        0, neg(expected), 1,
        s, s, 9,
        a, 3, 12,
        4, 3, 18,
        5, s, 36,
        37, 37, 21,
        3, 37, 27,
        5, s, 36,
        5, 3, 33,
        5, s, 36,
        36, s, 36,
        -1i64, 0, 0
    ]
}

/// The cells of the CRDT program for a literal `value >= 0`. Cell 22 holds
/// 0 and cell 19 holds `-value`; cell 20 is scratch. A register `x <= 0`
/// takes `value` at once; otherwise both are positive and the program
/// compares them through `value - x`, which cannot overflow.
pub open spec fn crdt_code_nonneg(addr: usize, value: i64) -> Seq<i64> {
    let a = addr as i64;
    seq![
        22, a, 12,
        20, 20, 6,
        19, 20, 9,
        a, 20, 18,
        a, a, 15,
        19, a, 18,
        -1i64, neg(value), 0,
        -1i64, 0, 0
    ]
}

/// The cells of the CRDT program for a literal `value < 0`. Cell 25 holds
/// 0 and cell 22 holds `-value`; cell 23 is scratch. A register `x > 0`
/// is kept at once; otherwise both are at most 0 and the program compares
/// them through `value - x`, which cannot overflow.
pub open spec fn crdt_code_neg(addr: usize, value: i64) -> Seq<i64> {
    let a = addr as i64;
    seq![
        25, a, 6,
        25, 25, 21,
        23, 23, 9,
        22, 23, 12,
        a, 23, 21,
        a, a, 18,
        22, a, 21,
        -1i64, neg(value), 0,
        -1i64, 0, 0
    ]
}

/// The cells of the CRDT program: the layout follows the literal's sign.
pub open spec fn crdt_code(addr: usize, value: i64) -> Seq<i64> {
    if value >= 0 {
        crdt_code_nonneg(addr, value)
    } else {
        crdt_code_neg(addr, value)
    }
}

/// The program `compile` emits for an opcode and its two arguments.
pub open spec fn compile_code(op: i64, arg_a: usize, arg_b: i64) -> Seq<i64> {
    if op == OP_BIND {
        bind_code(arg_a, arg_b)
    } else if op == OP_LINK {
        link_code(arg_a, arg_b as usize)
    } else if op == OP_EFFECT {
        effect_code(arg_a)
    } else if op == OP_VIEW {
        view_code(arg_a, status_cell())
    } else if op == OP_TICK {
        tick_code(clock_cell())
    } else if op == OP_FORGET {
        forget_code(arg_a)
    } else if op == OP_PROOF {
        proof_code(arg_a, arg_b)
    } else if op == OP_ROUTE {
        view_code(arg_a, arg_b as usize)
    } else if op == OP_CRDT {
        crdt_code(arg_a, arg_b)
    } else if op == OP_WORLD {
        bind_code(arg_a, arg_b)
    } else if op == OP_TIME {
        tick_code(arg_a)
    } else {
        seq![-1i64, 0, 0]
    }
}

/// A program that is a whole number of triples, ending with the halt triple.
pub open spec fn is_halting_program(p: Seq<i64>) -> bool {
    &&& p.len() > 0
    &&& p.len() % 3 == 0
    &&& p[p.len() - 3] == -1
    &&& p[p.len() - 2] == 0
    &&& p[p.len() - 1] == 0
}

fn store_program(addr: usize, value: i64) -> (p: Vec<i64>)
    ensures
        p@ == store_code(addr, value),
{
    let a = addr as i64;
    let n: i64 = 0i64.wrapping_sub(value);
    let p = vec![a, a, 9, n, 0, 0, 0, 0, 0, 3, a, 12, -1i64, 0, 0];
    assert(p@ =~= store_code(addr, value));
    p
}

fn increment_program(addr: usize) -> (p: Vec<i64>)
    ensures
        p@ == increment_code(addr),
{
    let a = addr as i64;
    let p = vec![4, a, 6, -1i64, -1i64, 0, -1i64, 0, 0];
    assert(p@ =~= increment_code(addr));
    p
}

/// BIND(addr, value): `mem[addr] = value`.
pub fn bind_program(addr: usize, value: i64) -> (p: Vec<i64>)
    ensures
        p@ == bind_code(addr, value),
{
    store_program(addr, value)
}

/// LINK(addr, link_target): `mem[addr] = link_target`.
pub fn link_program(addr: usize, link_target: usize) -> (p: Vec<i64>)
    ensures
        p@ == link_code(addr, link_target),
{
    store_program(addr, link_target as i64)
}

/// EFFECT(addr): `mem[addr] += 1`.
pub fn effect_program(addr: usize) -> (p: Vec<i64>)
    ensures
        p@ == effect_code(addr),
{
    increment_program(addr)
}

/// VIEW(addr, status): a read-only snapshot of `mem[addr]` into the status cell.
pub fn view_program(addr: usize, status: usize) -> (p: Vec<i64>)
    ensures
        p@ == view_code(addr, status),
{
    let a = addr as i64;
    let s = status as i64;
    let p = vec![13, 13, 3, a, 13, 6, s, s, 9, 13, s, 12, -1i64, 0, 0];
    assert(p@ =~= view_code(addr, status));
    p
}

/// TICK(clock): increments the clock cell.
pub fn tick_program(clock: usize) -> (p: Vec<i64>)
    ensures
        p@ == tick_code(clock),
{
    increment_program(clock)
}

/// FORGET(addr): `mem[addr] = 0`.
pub fn forget_program(addr: usize) -> (p: Vec<i64>)
    ensures
        p@ == forget_code(addr),
{
    let a = addr as i64;
    let p = vec![a, a, 6, 0, 0, 0, -1i64, 0, 0];
    assert(p@ =~= forget_code(addr));
    p
}

/// PROOF(addr, expected): the status cell becomes 1 if `mem[addr] ==
/// expected`, else -1.
pub fn proof_program(addr: usize, expected: i64) -> (p: Vec<i64>)
    ensures
        p@ == proof_code(addr, expected),
{
    let a = addr as i64;
    let s = status(addr) as i64;
    let n: i64 = 0i64.wrapping_sub(expected);
    let p = vec![
        3, 3, 6,
        0, n, 1,
        s, s, 9,
        a, 3, 12,
        4, 3, 18,
        5, s, 36,
        37, 37, 21,
        3, 37, 27,
        5, s, 36,
        5, 3, 33,
        5, s, 36,
        36, s, 36,
        -1i64, 0, 0
    ];
    assert(p@ =~= proof_code(addr, expected));
    p
}

fn status(_addr: usize) -> (s: usize)
    ensures
        s == status_cell(),
{
    100
}

fn clock() -> (c: usize)
    ensures
        c == clock_cell(),
{
    101
}

/// CRDT(addr, value): merges `value` into the max-register at `addr`:
/// `mem[addr] = max(mem[addr], value)`.
pub fn crdt_program(addr: usize, value: i64) -> (p: Vec<i64>)
    ensures
        p@ == crdt_code(addr, value),
{
    let a = addr as i64;
    let n: i64 = 0i64.wrapping_sub(value);
    if value >= 0 {
        let p = vec![
            22, a, 12,
            20, 20, 6,
            19, 20, 9,
            a, 20, 18,
            a, a, 15,
            19, a, 18,
            -1i64, n, 0,
            -1i64, 0, 0
        ];
        assert(p@ =~= crdt_code(addr, value));
        p
    } else {
        let p = vec![
            25, a, 6,
            25, 25, 21,
            23, 23, 9,
            22, 23, 12,
            a, 23, 21,
            a, a, 18,
            22, a, 21,
            -1i64, n, 0,
            -1i64, 0, 0
        ];
        assert(p@ =~= crdt_code(addr, value));
        p
    }
}

/// Compiles a Quilt opcode to a Subleq program. VIEW snapshots `mem[arg_a]`
/// into the status cell, TICK advances the global clock cell, ROUTE copies `mem[arg_a]`
/// to `mem[arg_b]`, CRDT merges the literal `arg_b` into `mem[arg_a]`, WORLD
/// stores the literal `arg_b` at `arg_a`, TIME advances the clock cell
/// `arg_a`; an unknown opcode gives the bare halt triple.
pub fn compile(op: i64, arg_a: usize, arg_b: i64) -> (p: Vec<i64>)
    ensures
        p@ == compile_code(op, arg_a, arg_b),
{
    match op {
        OP_BIND => bind_program(arg_a, arg_b),
        OP_LINK => link_program(arg_a, arg_b as usize),
        OP_EFFECT => effect_program(arg_a),
        OP_VIEW => view_program(arg_a, status(arg_a)),
        OP_TICK => tick_program(clock()),
        OP_FORGET => forget_program(arg_a),
        OP_PROOF => proof_program(arg_a, arg_b),
        OP_ROUTE => view_program(arg_a, arg_b as usize),
        OP_CRDT => crdt_program(arg_a, arg_b),
        OP_WORLD => bind_program(arg_a, arg_b),
        OP_TIME => tick_program(arg_a),
        _ => {
            let p = vec![-1i64, 0, 0];
            assert(p@ =~= seq![-1i64, 0, 0]);
            p
        },
    }
}

/// Law: every compiled program is a whole number of triples and ends with
/// the halt triple.
pub proof fn lemma_compiled_programs_halt(op: i64, arg_a: usize, arg_b: i64)
    ensures
        is_halting_program(compile_code(op, arg_a, arg_b)),
{
}

/// The machine at pc 0 of a fresh tape.
pub open spec fn start(mem: Seq<i64>) -> MachineState {
    MachineState { mem: mem, pc: 0, halted: false, ticks: 0 }
}

/// The tape begins with the program `code`.
pub open spec fn loaded_with(mem: Seq<i64>, code: Seq<i64>) -> bool {
    &&& code.len() <= mem.len() <= usize::MAX
    &&& forall|i: int| 0 <= i < code.len() ==> #[trigger] mem[i] == code[i]
}

proof fn lemma_loaded(mem: Seq<i64>, code: Seq<i64>)
    requires
        code.len() <= mem.len() <= usize::MAX,
        mem.subrange(0, code.len() as int) == code,
    ensures
        loaded_with(mem, code),
{
    assert forall|i: int| 0 <= i < code.len() implies #[trigger] mem[i] == code[i] by {
        assert(mem.subrange(0, code.len() as int)[i] == mem[i]);
    }
}

/// Law (BIND, LINK, WORLD): on a tape that begins with the store-literal
/// program and an `addr` past it, a run from pc 0 stores `value` at `addr`,
/// changing no other cell, and halts at 12 after two subtractions.
pub proof fn lemma_store_literal(mem: Seq<i64>, addr: usize, value: i64)
    requires
        mem.len() <= usize::MAX,
        mem.subrange(0, 15) == store_code(addr, value),
        15 <= addr < mem.len(),
        addr <= i64::MAX,
    ensures
        run_ends(start(mem)),
        run_outcome(start(mem)) == (
            Ok::<u64, Seq<char>>(2),
            MachineState { mem: mem.update(addr as int, value), pc: 12, halted: true, ticks: 2 },
        ),
{
    lemma_loaded(mem, store_code(addr, value));
    let s0 = start(mem);
    let m1 = mem.update(addr as int, 0);
    let s1 = MachineState { mem: m1, pc: 9, halted: false, ticks: 1 };
    assert(subtract(0, neg(value)) == value);
    let m2 = m1.update(addr as int, value);
    assert(m2 =~= mem.update(addr as int, value));
    let s2 = MachineState { mem: m2, pc: 12, halted: false, ticks: 2 };
    let s3 = MachineState { halted: true, ..s2 };
    assert(step_spec(s0) == (Ok::<bool, Seq<char>>(true), s1));
    assert(step_spec(s1) == (Ok::<bool, Seq<char>>(true), s2));
    assert(step_spec(s2) == (Ok::<bool, Seq<char>>(false), s3));
    assert(run_spec(s3, 0) == Some((Ok::<u64, Seq<char>>(2), s3)));
    assert(run_spec(s2, 1) == run_spec(s3, 0));
    assert(run_spec(s1, 2) == run_spec(s2, 1));
    assert(run_spec(s0, 3) == run_spec(s1, 2));
    lemma_run_outcome_unique(s0, 3);
}

/// Law (BIND): `bind_program(addr, value)` run from pc 0, with `addr` past
/// the program, leaves `mem[addr] == value`.
pub proof fn lemma_bind_stores_value(mem: Seq<i64>, addr: usize, value: i64)
    requires
        mem.len() <= usize::MAX,
        mem.subrange(0, 15) == bind_code(addr, value),
        15 <= addr < mem.len(),
        addr <= i64::MAX,
    ensures
        run_ends(start(mem)),
        run_outcome(start(mem)).0 == Ok::<u64, Seq<char>>(2),
        run_outcome(start(mem)).1.halted,
        run_outcome(start(mem)).1.mem == mem.update(addr as int, value),
{
    lemma_store_literal(mem, addr, value);
}

/// Law (LINK): `link_program(addr, link_target)` run from pc 0, with `addr`
/// past the program, leaves `mem[addr] == link_target`.
pub proof fn lemma_link_stores_target(mem: Seq<i64>, addr: usize, link_target: usize)
    requires
        mem.len() <= usize::MAX,
        mem.subrange(0, 15) == link_code(addr, link_target),
        15 <= addr < mem.len(),
        addr <= i64::MAX,
        link_target <= i64::MAX,
    ensures
        run_ends(start(mem)),
        run_outcome(start(mem)).0 == Ok::<u64, Seq<char>>(2),
        run_outcome(start(mem)).1.halted,
        run_outcome(start(mem)).1.mem == mem.update(addr as int, link_target as i64),
        run_outcome(start(mem)).1.mem[addr as int] == link_target,
{
    lemma_store_literal(mem, addr, link_target as i64);
}

/// Law (EFFECT, TICK, TIME): on a tape that begins with the add-one program
/// and an `addr` past it, a run from pc 0 adds one to `mem[addr]` (wrapping
/// at `i64::MAX`), changing no other cell, after one subtraction.
pub proof fn lemma_increment(mem: Seq<i64>, addr: usize)
    requires
        mem.len() <= usize::MAX,
        mem.subrange(0, 9) == increment_code(addr),
        9 <= addr < mem.len(),
        addr <= i64::MAX,
    ensures
        run_ends(start(mem)),
        run_outcome(start(mem)).0 == Ok::<u64, Seq<char>>(1),
        run_outcome(start(mem)).1.halted,
        run_outcome(start(mem)).1.mem == mem.update(addr as int, subtract(mem[addr as int], -1i64)),
        mem[addr as int] < i64::MAX ==> run_outcome(start(mem)).1.mem[addr as int] == mem[addr as int] + 1,
{
    lemma_loaded(mem, increment_code(addr));
    let x = mem[addr as int];
    let nx = subtract(x, -1i64);
    let s0 = start(mem);
    let m1 = mem.update(addr as int, nx);
    let pc1: usize = if nx <= 0 { 6 } else { 3 };
    let s1 = MachineState { mem: m1, pc: pc1, halted: false, ticks: 1 };
    let s2 = MachineState { halted: true, ..s1 };
    assert(step_spec(s0) == (Ok::<bool, Seq<char>>(true), s1));
    assert(step_spec(s1) == (Ok::<bool, Seq<char>>(false), s2));
    assert(run_spec(s2, 0) == Some((Ok::<u64, Seq<char>>(1), s2)));
    assert(run_spec(s1, 1) == run_spec(s2, 0));
    assert(run_spec(s0, 2) == run_spec(s1, 1));
    lemma_run_outcome_unique(s0, 2);
}

/// Law (VIEW, ROUTE): on a tape that begins with the copy program, with
/// source and destination cells past it, a run from pc 0 copies `mem[addr]`
/// into `mem[status]` and leaves `mem[addr]` as it was (also when the two are
/// the same cell); only the scratch cell 13 changes besides.
pub proof fn lemma_view_copies(mem: Seq<i64>, addr: usize, status: usize)
    requires
        mem.len() <= usize::MAX,
        mem.subrange(0, 15) == view_code(addr, status),
        15 <= addr < mem.len(),
        15 <= status < mem.len(),
        addr <= i64::MAX,
        status <= i64::MAX,
    ensures
        run_ends(start(mem)),
        run_outcome(start(mem)) == (
            Ok::<u64, Seq<char>>(4),
            MachineState {
                mem: mem.update(13, neg(mem[addr as int])).update(status as int, mem[addr as int]),
                pc: 12,
                halted: true,
                ticks: 4,
            },
        ),
        run_outcome(start(mem)).1.mem[status as int] == mem[addr as int],
        run_outcome(start(mem)).1.mem[addr as int] == mem[addr as int],
{
    lemma_loaded(mem, view_code(addr, status));
    let x = mem[addr as int];
    let s0 = start(mem);
    let m1 = mem.update(13, 0);
    let s1 = MachineState { mem: m1, pc: 3, halted: false, ticks: 1 };
    let m2 = m1.update(13, neg(x));
    let s2 = MachineState { mem: m2, pc: 6, halted: false, ticks: 2 };
    let m3 = m2.update(status as int, 0);
    let s3 = MachineState { mem: m3, pc: 9, halted: false, ticks: 3 };
    assert(subtract(0, neg(x)) == x);
    let m4 = m3.update(status as int, x);
    let s4 = MachineState { mem: m4, pc: 12, halted: false, ticks: 4 };
    let s5 = MachineState { halted: true, ..s4 };
    assert(m4 =~= mem.update(13, neg(x)).update(status as int, x));
    assert(step_spec(s0) == (Ok::<bool, Seq<char>>(true), s1));
    assert(step_spec(s1) == (Ok::<bool, Seq<char>>(true), s2));
    assert(step_spec(s2) == (Ok::<bool, Seq<char>>(true), s3));
    assert(step_spec(s3) == (Ok::<bool, Seq<char>>(true), s4));
    assert(step_spec(s4) == (Ok::<bool, Seq<char>>(false), s5));
    assert(run_spec(s5, 0) == Some((Ok::<u64, Seq<char>>(4), s5)));
    assert(run_spec(s4, 1) == run_spec(s5, 0));
    assert(run_spec(s3, 2) == run_spec(s4, 1));
    assert(run_spec(s2, 3) == run_spec(s3, 2));
    assert(run_spec(s1, 4) == run_spec(s2, 3));
    assert(run_spec(s0, 5) == run_spec(s1, 4));
    lemma_run_outcome_unique(s0, 5);
}

/// Law (FORGET): on a tape whose first 9 cells hold `forget_program(addr)`,
/// with `addr` a cell past the program, a run from pc 0 zeroes `mem[addr]`
/// and halts at 6 after one subtraction.
pub proof fn lemma_forget_zeroes(mem: Seq<i64>, addr: usize)
    requires
        mem.len() <= usize::MAX,
        mem.subrange(0, 9) == forget_code(addr),
        9 <= addr < mem.len(),
        addr <= i64::MAX,
    ensures
        run_ends(start(mem)),
        run_outcome(start(mem)) == (
            Ok::<u64, Seq<char>>(1),
            MachineState { mem: mem.update(addr as int, 0), pc: 6, halted: true, ticks: 1 },
        ),
{
    lemma_loaded(mem, forget_code(addr));
    let s0 = start(mem);
    let s1 = MachineState { mem: mem.update(addr as int, 0), pc: 6, halted: false, ticks: 1 };
    let s2 = MachineState { halted: true, ..s1 };
    assert(subtract(mem[addr as int], mem[addr as int]) == 0);
    assert(step_spec(s0) == (Ok::<bool, Seq<char>>(true), s1));
    assert(step_spec(s1) == (Ok::<bool, Seq<char>>(false), s2));
    assert(run_spec(s2, 0) == Some((Ok::<u64, Seq<char>>(1), s2)));
    assert(run_spec(s1, 1) == run_spec(s2, 0));
    assert(run_spec(s0, 2) == run_spec(s1, 1));
    lemma_run_outcome_unique(s0, 2);
}

/// The verdict PROOF writes: 1 on a match, -1 otherwise.
pub open spec fn verdict(x: i64, expected: i64) -> i64 {
    if x == expected {
        1
    } else {
        -1i64
    }
}

/// The three tests of PROOF decide equality for every pair of values:
/// `t = expected - x` wraps to 0 exactly on a match, and when `t <= 0` and
/// `-t <= 0` hold, `t` is 0 or `i64::MIN`, which `t - 1` tells apart.
proof fn lemma_equality_tests(x: i64, e: i64)
    ensures
        ({
            let t = subtract(subtract(0, x), neg(e));
            let u = subtract(0, t);
            let w = subtract(t, 1);
            &&& t > 0 ==> x != e
            &&& t <= 0 && u > 0 ==> x != e
            &&& t <= 0 && u <= 0 && w > 0 ==> x != e
            &&& t <= 0 && u <= 0 && w <= 0 ==> x == e
        }),
{
}

/// Law (PROOF): on a tape that begins with `proof_program(addr, expected)`,
/// with `addr` past the program and distinct from the status cell 100, a run
/// from pc 0 halts with 1 in the status cell when `mem[addr] == expected` and
/// -1 otherwise, for every pair of values, leaving `mem[addr]` as it was.
#[verifier::rlimit(60)]
#[verifier::spinoff_prover]
pub proof fn lemma_proof_verdict(mem: Seq<i64>, addr: usize, expected: i64)
    requires
        mem.len() <= usize::MAX,
        mem.subrange(0, 39) == proof_code(addr, expected),
        39 <= addr < mem.len(),
        status_cell() < mem.len(),
        addr != status_cell(),
        addr <= i64::MAX,
    ensures
        run_ends(start(mem)),
        run_outcome(start(mem)).0 is Ok,
        run_outcome(start(mem)).1.halted,
        run_outcome(start(mem)).1.mem[status_cell() as int] == verdict(mem[addr as int], expected),
        run_outcome(start(mem)).1.mem[addr as int] == mem[addr as int],
{
    lemma_loaded(mem, proof_code(addr, expected));
    let x = mem[addr as int];
    let e = expected;
    lemma_equality_tests(x, e);
    let t1 = subtract(0, x);
    let t = subtract(t1, neg(e));
    let u = subtract(0, t);
    let w = subtract(t, 1);
    let s0 = start(mem);
    assert(mem.update(3, 0) =~= mem);
    let s1 = MachineState { mem: mem, pc: 6, halted: false, ticks: 1 };
    let m2 = mem.update(100, 0);
    let s2 = MachineState { mem: m2, pc: 9, halted: false, ticks: 2 };
    let m3 = m2.update(3, t1);
    let s3 = MachineState { mem: m3, pc: 12, halted: false, ticks: 3 };
    let m4 = m3.update(3, t);
    assert(step_spec(s0) == (Ok::<bool, Seq<char>>(true), s1));
    assert(step_spec(s1) == (Ok::<bool, Seq<char>>(true), s2));
    assert(step_spec(s2) == (Ok::<bool, Seq<char>>(true), s3));
    if t > 0 {
        let s4 = MachineState { mem: m4, pc: 15, halted: false, ticks: 4 };
        let s5 = MachineState { mem: m4.update(100, -1i64), pc: 36, halted: false, ticks: 5 };
        let s6 = MachineState { halted: true, ..s5 };
        assert(step_spec(s3) == (Ok::<bool, Seq<char>>(true), s4));
        assert(step_spec(s4) == (Ok::<bool, Seq<char>>(true), s5));
        assert(step_spec(s5) == (Ok::<bool, Seq<char>>(false), s6));
        assert(run_spec(s6, 0) == Some((Ok::<u64, Seq<char>>(5), s6)));
        assert(run_spec(s5, 1) == run_spec(s6, 0));
        assert(run_spec(s4, 2) == run_spec(s5, 1));
        assert(run_spec(s3, 3) == run_spec(s4, 2));
        assert(run_spec(s2, 4) == run_spec(s3, 3));
        assert(run_spec(s1, 5) == run_spec(s2, 4));
        assert(run_spec(s0, 6) == run_spec(s1, 5));
        lemma_run_outcome_unique(s0, 6);
    } else {
        let s4 = MachineState { mem: m4, pc: 18, halted: false, ticks: 4 };
        let m5 = m4.update(37, 0);
        let s5 = MachineState { mem: m5, pc: 21, halted: false, ticks: 5 };
        let m6 = m5.update(37, u);
        assert(step_spec(s3) == (Ok::<bool, Seq<char>>(true), s4));
        assert(step_spec(s4) == (Ok::<bool, Seq<char>>(true), s5));
        if u > 0 {
            let s6 = MachineState { mem: m6, pc: 24, halted: false, ticks: 6 };
            let s7 = MachineState { mem: m6.update(100, -1i64), pc: 36, halted: false, ticks: 7 };
            let s8 = MachineState { halted: true, ..s7 };
            assert(step_spec(s5) == (Ok::<bool, Seq<char>>(true), s6));
            assert(step_spec(s6) == (Ok::<bool, Seq<char>>(true), s7));
            assert(step_spec(s7) == (Ok::<bool, Seq<char>>(false), s8));
            assert(run_spec(s8, 0) == Some((Ok::<u64, Seq<char>>(7), s8)));
            assert(run_spec(s7, 1) == run_spec(s8, 0));
            assert(run_spec(s6, 2) == run_spec(s7, 1));
            assert(run_spec(s5, 3) == run_spec(s6, 2));
            assert(run_spec(s4, 4) == run_spec(s5, 3));
            assert(run_spec(s3, 5) == run_spec(s4, 4));
            assert(run_spec(s2, 6) == run_spec(s3, 5));
            assert(run_spec(s1, 7) == run_spec(s2, 6));
            assert(run_spec(s0, 8) == run_spec(s1, 7));
            lemma_run_outcome_unique(s0, 8);
        } else {
            let s6 = MachineState { mem: m6, pc: 27, halted: false, ticks: 6 };
            let m7 = m6.update(3, w);
            assert(step_spec(s5) == (Ok::<bool, Seq<char>>(true), s6));
            if w > 0 {
                let s7 = MachineState { mem: m7, pc: 30, halted: false, ticks: 7 };
                let s8 = MachineState { mem: m7.update(100, -1i64), pc: 36, halted: false, ticks: 8 };
                let s9 = MachineState { halted: true, ..s8 };
                assert(step_spec(s6) == (Ok::<bool, Seq<char>>(true), s7));
                assert(step_spec(s7) == (Ok::<bool, Seq<char>>(true), s8));
                assert(step_spec(s8) == (Ok::<bool, Seq<char>>(false), s9));
                assert(run_spec(s9, 0) == Some((Ok::<u64, Seq<char>>(8), s9)));
                assert(run_spec(s8, 1) == run_spec(s9, 0));
                assert(run_spec(s7, 2) == run_spec(s8, 1));
                assert(run_spec(s6, 3) == run_spec(s7, 2));
                assert(run_spec(s5, 4) == run_spec(s6, 3));
                assert(run_spec(s4, 5) == run_spec(s5, 4));
                assert(run_spec(s3, 6) == run_spec(s4, 5));
                assert(run_spec(s2, 7) == run_spec(s3, 6));
                assert(run_spec(s1, 8) == run_spec(s2, 7));
                assert(run_spec(s0, 9) == run_spec(s1, 8));
                lemma_run_outcome_unique(s0, 9);
            } else {
                let s7 = MachineState { mem: m7, pc: 33, halted: false, ticks: 7 };
                let s8 = MachineState { mem: m7.update(100, 1i64), pc: 36, halted: false, ticks: 8 };
                let s9 = MachineState { halted: true, ..s8 };
                assert(step_spec(s6) == (Ok::<bool, Seq<char>>(true), s7));
                assert(step_spec(s7) == (Ok::<bool, Seq<char>>(true), s8));
                assert(step_spec(s8) == (Ok::<bool, Seq<char>>(false), s9));
                assert(run_spec(s9, 0) == Some((Ok::<u64, Seq<char>>(8), s9)));
                assert(run_spec(s8, 1) == run_spec(s9, 0));
                assert(run_spec(s7, 2) == run_spec(s8, 1));
                assert(run_spec(s6, 3) == run_spec(s7, 2));
                assert(run_spec(s5, 4) == run_spec(s6, 3));
                assert(run_spec(s4, 5) == run_spec(s5, 4));
                assert(run_spec(s3, 6) == run_spec(s4, 5));
                assert(run_spec(s2, 7) == run_spec(s3, 6));
                assert(run_spec(s1, 8) == run_spec(s2, 7));
                assert(run_spec(s0, 9) == run_spec(s1, 8));
                lemma_run_outcome_unique(s0, 9);
            }
        }
    }
}

/// The larger of two values.
pub open spec fn max_i64(a: i64, b: i64) -> i64 {
    if a < b {
        b
    } else {
        a
    }
}

/// The scratch cell of the CRDT program for a literal `value`.
pub open spec fn crdt_scratch(value: i64) -> int {
    if value >= 0 {
        20
    } else {
        23
    }
}

/// The number of cells of the CRDT program for a literal `value`.
pub open spec fn crdt_len(value: i64) -> int {
    if value >= 0 {
        24
    } else {
        27
    }
}

/// Law (CRDT): on a tape that begins with `crdt_program(addr, value)`, with
/// `addr` past the program, a run from pc 0 leaves `max(mem[addr], value)` in
/// `mem[addr]`, for every pair of values; besides that only the scratch cell
/// changes.
#[verifier::rlimit(60)]
#[verifier::spinoff_prover]
pub proof fn lemma_crdt_merges(mem: Seq<i64>, addr: usize, value: i64)
    requires
        mem.len() <= usize::MAX,
        mem.subrange(0, crdt_len(value)) == crdt_code(addr, value),
        crdt_len(value) <= addr < mem.len(),
        addr <= i64::MAX,
    ensures
        run_ends(start(mem)),
        run_outcome(start(mem)).0 is Ok,
        run_outcome(start(mem)).1.halted,
        run_outcome(start(mem)).1.mem.len() == mem.len(),
        run_outcome(start(mem)).1.mem[addr as int] == max_i64(mem[addr as int], value),
        forall|i: int|
            0 <= i < mem.len() && i != addr && i != crdt_scratch(value) ==> #[trigger] run_outcome(
                start(mem),
            ).1.mem[i] == mem[i],
{
    lemma_loaded(mem, crdt_code(addr, value));
    let x = mem[addr as int];
    let v = value;
    let s0 = start(mem);
    assert(subtract(x, 0) == x);
    assert(mem.update(addr as int, x) =~= mem);
    assert(subtract(0, neg(v)) == v);
    if v >= 0 {
        let t = 20int;
        if x <= 0 {
            let s1 = MachineState { mem: mem, pc: 12, halted: false, ticks: 1 };
            let m2 = mem.update(addr as int, 0);
            let s2 = MachineState { mem: m2, pc: 15, halted: false, ticks: 2 };
            let m3 = m2.update(addr as int, v);
            let s3 = MachineState { mem: m3, pc: 18, halted: false, ticks: 3 };
            let s4 = MachineState { halted: true, ..s3 };
            assert(step_spec(s0) == (Ok::<bool, Seq<char>>(true), s1));
            assert(step_spec(s1) == (Ok::<bool, Seq<char>>(true), s2));
            assert(step_spec(s2) == (Ok::<bool, Seq<char>>(true), s3));
            assert(step_spec(s3) == (Ok::<bool, Seq<char>>(false), s4));
            assert(run_spec(s4, 0) == Some((Ok::<u64, Seq<char>>(3), s4)));
            assert(run_spec(s3, 1) == run_spec(s4, 0));
            assert(run_spec(s2, 2) == run_spec(s3, 1));
            assert(run_spec(s1, 3) == run_spec(s2, 2));
            assert(run_spec(s0, 4) == run_spec(s1, 3));
            lemma_run_outcome_unique(s0, 4);
        } else {
            let s1 = MachineState { mem: mem, pc: 3, halted: false, ticks: 1 };
            let m2 = mem.update(t, 0);
            let s2 = MachineState { mem: m2, pc: 6, halted: false, ticks: 2 };
            let m3 = m2.update(t, v);
            let s3 = MachineState { mem: m3, pc: 9, halted: false, ticks: 3 };
            let d = subtract(v, x);
            assert(d == v - x);
            let m4 = m3.update(t, d);
            assert(step_spec(s0) == (Ok::<bool, Seq<char>>(true), s1));
            assert(step_spec(s1) == (Ok::<bool, Seq<char>>(true), s2));
            assert(step_spec(s2) == (Ok::<bool, Seq<char>>(true), s3));
            if d <= 0 {
                let s4 = MachineState { mem: m4, pc: 18, halted: false, ticks: 4 };
                let s5 = MachineState { halted: true, ..s4 };
                assert(step_spec(s3) == (Ok::<bool, Seq<char>>(true), s4));
                assert(step_spec(s4) == (Ok::<bool, Seq<char>>(false), s5));
                assert(run_spec(s5, 0) == Some((Ok::<u64, Seq<char>>(4), s5)));
                assert(run_spec(s4, 1) == run_spec(s5, 0));
                assert(run_spec(s3, 2) == run_spec(s4, 1));
                assert(run_spec(s2, 3) == run_spec(s3, 2));
                assert(run_spec(s1, 4) == run_spec(s2, 3));
                assert(run_spec(s0, 5) == run_spec(s1, 4));
                lemma_run_outcome_unique(s0, 5);
            } else {
                let s4 = MachineState { mem: m4, pc: 12, halted: false, ticks: 4 };
                let m5 = m4.update(addr as int, 0);
                let s5 = MachineState { mem: m5, pc: 15, halted: false, ticks: 5 };
                let m6 = m5.update(addr as int, v);
                let s6 = MachineState { mem: m6, pc: 18, halted: false, ticks: 6 };
                let s7 = MachineState { halted: true, ..s6 };
                assert(step_spec(s3) == (Ok::<bool, Seq<char>>(true), s4));
                assert(step_spec(s4) == (Ok::<bool, Seq<char>>(true), s5));
                assert(step_spec(s5) == (Ok::<bool, Seq<char>>(true), s6));
                assert(step_spec(s6) == (Ok::<bool, Seq<char>>(false), s7));
                assert(run_spec(s7, 0) == Some((Ok::<u64, Seq<char>>(6), s7)));
                assert(run_spec(s6, 1) == run_spec(s7, 0));
                assert(run_spec(s5, 2) == run_spec(s6, 1));
                assert(run_spec(s4, 3) == run_spec(s5, 2));
                assert(run_spec(s3, 4) == run_spec(s4, 3));
                assert(run_spec(s2, 5) == run_spec(s3, 4));
                assert(run_spec(s1, 6) == run_spec(s2, 5));
                assert(run_spec(s0, 7) == run_spec(s1, 6));
                lemma_run_outcome_unique(s0, 7);
            }
        }
    } else {
        let t = 23int;
        if x > 0 {
            let s1 = MachineState { mem: mem, pc: 3, halted: false, ticks: 1 };
            let s2 = MachineState { mem: mem, pc: 21, halted: false, ticks: 2 };
            let s3 = MachineState { halted: true, ..s2 };
            assert(mem.update(25, 0) =~= mem);
            assert(step_spec(s0) == (Ok::<bool, Seq<char>>(true), s1));
            assert(step_spec(s1) == (Ok::<bool, Seq<char>>(true), s2));
            assert(step_spec(s2) == (Ok::<bool, Seq<char>>(false), s3));
            assert(run_spec(s3, 0) == Some((Ok::<u64, Seq<char>>(2), s3)));
            assert(run_spec(s2, 1) == run_spec(s3, 0));
            assert(run_spec(s1, 2) == run_spec(s2, 1));
            assert(run_spec(s0, 3) == run_spec(s1, 2));
            lemma_run_outcome_unique(s0, 3);
        } else {
            let s1 = MachineState { mem: mem, pc: 6, halted: false, ticks: 1 };
            let m2 = mem.update(t, 0);
            let s2 = MachineState { mem: m2, pc: 9, halted: false, ticks: 2 };
            let m3 = m2.update(t, v);
            let s3 = MachineState { mem: m3, pc: 12, halted: false, ticks: 3 };
            let d = subtract(v, x);
            assert(d == v - x);
            let m4 = m3.update(t, d);
            assert(step_spec(s0) == (Ok::<bool, Seq<char>>(true), s1));
            assert(step_spec(s1) == (Ok::<bool, Seq<char>>(true), s2));
            assert(step_spec(s2) == (Ok::<bool, Seq<char>>(true), s3));
            if d <= 0 {
                let s4 = MachineState { mem: m4, pc: 21, halted: false, ticks: 4 };
                let s5 = MachineState { halted: true, ..s4 };
                assert(step_spec(s3) == (Ok::<bool, Seq<char>>(true), s4));
                assert(step_spec(s4) == (Ok::<bool, Seq<char>>(false), s5));
                assert(run_spec(s5, 0) == Some((Ok::<u64, Seq<char>>(4), s5)));
                assert(run_spec(s4, 1) == run_spec(s5, 0));
                assert(run_spec(s3, 2) == run_spec(s4, 1));
                assert(run_spec(s2, 3) == run_spec(s3, 2));
                assert(run_spec(s1, 4) == run_spec(s2, 3));
                assert(run_spec(s0, 5) == run_spec(s1, 4));
                lemma_run_outcome_unique(s0, 5);
            } else {
                let s4 = MachineState { mem: m4, pc: 15, halted: false, ticks: 4 };
                let m5 = m4.update(addr as int, 0);
                let s5 = MachineState { mem: m5, pc: 18, halted: false, ticks: 5 };
                let m6 = m5.update(addr as int, v);
                let s6 = MachineState { mem: m6, pc: 21, halted: false, ticks: 6 };
                let s7 = MachineState { halted: true, ..s6 };
                assert(step_spec(s3) == (Ok::<bool, Seq<char>>(true), s4));
                assert(step_spec(s4) == (Ok::<bool, Seq<char>>(true), s5));
                assert(step_spec(s5) == (Ok::<bool, Seq<char>>(true), s6));
                assert(step_spec(s6) == (Ok::<bool, Seq<char>>(false), s7));
                assert(run_spec(s7, 0) == Some((Ok::<u64, Seq<char>>(6), s7)));
                assert(run_spec(s6, 1) == run_spec(s7, 0));
                assert(run_spec(s5, 2) == run_spec(s6, 1));
                assert(run_spec(s4, 3) == run_spec(s5, 2));
                assert(run_spec(s3, 4) == run_spec(s4, 3));
                assert(run_spec(s2, 5) == run_spec(s3, 4));
                assert(run_spec(s1, 6) == run_spec(s2, 5));
                assert(run_spec(s0, 7) == run_spec(s1, 6));
                lemma_run_outcome_unique(s0, 7);
            }
        }
    }
}

/// The machine that runs a program placed at the start of `mem`.
pub open spec fn fresh(mem: Seq<i64>) -> MachineState {
    MachineState { mem: mem, pc: 0, halted: false, ticks: 0 }
}

/// The tape begins with `p`, and the cell `target` lies past it, on the tape.
pub open spec fn placed(mem: Seq<i64>, p: Seq<i64>, target: int) -> bool {
    &&& mem.len() <= usize::MAX
    &&& p.len() <= target < mem.len()
    &&& mem.subrange(0, p.len() as int) == p
}

/// Law (compiled BIND and WORLD): the program for `BIND(arg_a, arg_b)` or
/// `WORLD(arg_a, arg_b)`, placed at the start of a tape with `arg_a` past it,
/// runs to a halt with `mem[arg_a] == arg_b` and every other cell unchanged.
pub proof fn lemma_compiled_store(op: i64, mem: Seq<i64>, arg_a: usize, arg_b: i64)
    requires
        op == OP_BIND || op == OP_WORLD,
        placed(mem, compile_code(op, arg_a, arg_b), arg_a as int),
        arg_a <= i64::MAX,
    ensures
        run_ends(fresh(mem)),
        run_outcome(fresh(mem)).0 is Ok,
        run_outcome(fresh(mem)).1.halted,
        run_outcome(fresh(mem)).1.mem.len() == mem.len(),
        run_outcome(fresh(mem)).1.mem[arg_a as int] == arg_b,
        forall|i: int|
            0 <= i < mem.len() && i != arg_a ==> #[trigger] run_outcome(fresh(mem)).1.mem[i] == mem[i],
{
    lemma_store_literal(mem, arg_a, arg_b);
}

/// Law (compiled LINK): the program for `LINK(arg_a, arg_b)`, placed at the
/// start of a tape with `arg_a` past it, runs to a halt with the link target
/// `arg_b` in `mem[arg_a]` and every other cell unchanged.
pub proof fn lemma_compiled_link(mem: Seq<i64>, arg_a: usize, arg_b: i64)
    requires
        placed(mem, compile_code(OP_LINK, arg_a, arg_b), arg_a as int),
        arg_a <= i64::MAX,
        0 <= arg_b <= usize::MAX,
    ensures
        run_ends(fresh(mem)),
        run_outcome(fresh(mem)).0 is Ok,
        run_outcome(fresh(mem)).1.halted,
        run_outcome(fresh(mem)).1.mem.len() == mem.len(),
        run_outcome(fresh(mem)).1.mem[arg_a as int] == arg_b,
        forall|i: int|
            0 <= i < mem.len() && i != arg_a ==> #[trigger] run_outcome(fresh(mem)).1.mem[i] == mem[i],
{
    lemma_store_literal(mem, arg_a, (arg_b as usize) as i64);
}

/// Law (compiled EFFECT and TIME): the program for `EFFECT(arg_a)` or
/// `TIME(arg_a)`, placed at the start of a tape with `arg_a` past it, runs
/// to a halt with one added to `mem[arg_a]` and every other cell unchanged.
pub proof fn lemma_compiled_adds_one(op: i64, mem: Seq<i64>, arg_a: usize, arg_b: i64)
    requires
        op == OP_EFFECT || op == OP_TIME,
        placed(mem, compile_code(op, arg_a, arg_b), arg_a as int),
        arg_a <= i64::MAX,
        mem[arg_a as int] < i64::MAX,
    ensures
        run_ends(fresh(mem)),
        run_outcome(fresh(mem)).0 is Ok,
        run_outcome(fresh(mem)).1.halted,
        run_outcome(fresh(mem)).1.mem.len() == mem.len(),
        run_outcome(fresh(mem)).1.mem[arg_a as int] == mem[arg_a as int] + 1,
        forall|i: int|
            0 <= i < mem.len() && i != arg_a ==> #[trigger] run_outcome(fresh(mem)).1.mem[i] == mem[i],
{
    lemma_increment(mem, arg_a);
}

/// Law (compiled TICK): the program for `TICK`, placed at the start of a
/// tape that reaches the global clock cell 101, runs to a halt with one
/// added to `mem[101]` and every other cell unchanged.
pub proof fn lemma_compiled_tick(mem: Seq<i64>, arg_a: usize, arg_b: i64)
    requires
        placed(mem, compile_code(OP_TICK, arg_a, arg_b), 101),
        mem[101] < i64::MAX,
    ensures
        run_ends(fresh(mem)),
        run_outcome(fresh(mem)).0 is Ok,
        run_outcome(fresh(mem)).1.halted,
        run_outcome(fresh(mem)).1.mem.len() == mem.len(),
        run_outcome(fresh(mem)).1.mem[101] == mem[101] + 1,
        forall|i: int|
            0 <= i < mem.len() && i != 101 ==> #[trigger] run_outcome(fresh(mem)).1.mem[i] == mem[i],
{
    lemma_increment(mem, 101);
}

/// Law (compiled VIEW): the program for `VIEW(arg_a)`, placed at the start
/// of a tape that reaches the status cell 100, with `arg_a` past it, runs to
/// a halt with `mem[arg_a]` copied into `mem[100]` and `mem[arg_a]` kept.
pub proof fn lemma_compiled_view(mem: Seq<i64>, arg_a: usize, arg_b: i64)
    requires
        placed(mem, compile_code(OP_VIEW, arg_a, arg_b), arg_a as int),
        placed(mem, compile_code(OP_VIEW, arg_a, arg_b), 100),
        arg_a <= i64::MAX,
    ensures
        run_ends(fresh(mem)),
        run_outcome(fresh(mem)).0 is Ok,
        run_outcome(fresh(mem)).1.halted,
        run_outcome(fresh(mem)).1.mem[100] == mem[arg_a as int],
        run_outcome(fresh(mem)).1.mem[arg_a as int] == mem[arg_a as int],
{
    lemma_view_copies(mem, arg_a, 100);
}

/// Law (compiled ROUTE): the program for `ROUTE(arg_a, arg_b)`, placed at
/// the start of a tape with both cells past it, runs to a halt with
/// `mem[arg_a]` copied into `mem[arg_b]` and `mem[arg_a]` kept.
pub proof fn lemma_compiled_route(mem: Seq<i64>, arg_a: usize, arg_b: i64)
    requires
        placed(mem, compile_code(OP_ROUTE, arg_a, arg_b), arg_a as int),
        placed(mem, compile_code(OP_ROUTE, arg_a, arg_b), arg_b as int),
        arg_a <= i64::MAX,
    ensures
        run_ends(fresh(mem)),
        run_outcome(fresh(mem)).0 is Ok,
        run_outcome(fresh(mem)).1.halted,
        run_outcome(fresh(mem)).1.mem[arg_b as int] == mem[arg_a as int],
        run_outcome(fresh(mem)).1.mem[arg_a as int] == mem[arg_a as int],
{
    lemma_view_copies(mem, arg_a, arg_b as usize);
}

/// Law (compiled FORGET): the program for `FORGET(arg_a)`, placed at the
/// start of a tape with `arg_a` past it, runs to a halt with `mem[arg_a] == 0`
/// and every other cell unchanged.
pub proof fn lemma_compiled_forget(mem: Seq<i64>, arg_a: usize, arg_b: i64)
    requires
        placed(mem, compile_code(OP_FORGET, arg_a, arg_b), arg_a as int),
        arg_a <= i64::MAX,
    ensures
        run_ends(fresh(mem)),
        run_outcome(fresh(mem)).0 is Ok,
        run_outcome(fresh(mem)).1.halted,
        run_outcome(fresh(mem)).1.mem.len() == mem.len(),
        run_outcome(fresh(mem)).1.mem[arg_a as int] == 0,
        forall|i: int|
            0 <= i < mem.len() && i != arg_a ==> #[trigger] run_outcome(fresh(mem)).1.mem[i] == mem[i],
{
    lemma_forget_zeroes(mem, arg_a);
}

/// Law (compiled PROOF): the program for `PROOF(arg_a, arg_b)`, placed at the
/// start of a tape that reaches cell 100, with `arg_a` past it and not 100,
/// runs to a halt with 1 in `mem[100]` when `mem[arg_a] == arg_b` and -1
/// otherwise, keeping `mem[arg_a]`.
pub proof fn lemma_compiled_proof(mem: Seq<i64>, arg_a: usize, arg_b: i64)
    requires
        placed(mem, compile_code(OP_PROOF, arg_a, arg_b), arg_a as int),
        100 < mem.len(),
        arg_a != 100,
        arg_a <= i64::MAX,
    ensures
        run_ends(fresh(mem)),
        run_outcome(fresh(mem)).0 is Ok,
        run_outcome(fresh(mem)).1.halted,
        run_outcome(fresh(mem)).1.mem[100] == (if mem[arg_a as int] == arg_b {
            1i64
        } else {
            -1i64
        }),
        run_outcome(fresh(mem)).1.mem[arg_a as int] == mem[arg_a as int],
{
    lemma_proof_verdict(mem, arg_a, arg_b);
}

/// Law (compiled CRDT): the program for `CRDT(arg_a, arg_b)`, placed at the
/// start of a tape with `arg_a` past it, runs to a halt with the larger of
/// `mem[arg_a]` and `arg_b` in `mem[arg_a]`.
pub proof fn lemma_compiled_crdt(mem: Seq<i64>, arg_a: usize, arg_b: i64)
    requires
        placed(mem, compile_code(OP_CRDT, arg_a, arg_b), arg_a as int),
        arg_a <= i64::MAX,
    ensures
        run_ends(fresh(mem)),
        run_outcome(fresh(mem)).0 is Ok,
        run_outcome(fresh(mem)).1.halted,
        run_outcome(fresh(mem)).1.mem[arg_a as int] == (if mem[arg_a as int] < arg_b {
            arg_b
        } else {
            mem[arg_a as int]
        }),
{
    lemma_crdt_merges(mem, arg_a, arg_b);
}

/// Law (unknown opcodes): any other opcode compiles to a program that halts
/// at once and changes nothing.
pub proof fn lemma_compiled_unknown(op: i64, mem: Seq<i64>, arg_a: usize, arg_b: i64)
    requires
        op < 1 || op > 11,
        compile_code(op, arg_a, arg_b).len() <= mem.len() <= usize::MAX,
        mem.subrange(0, compile_code(op, arg_a, arg_b).len() as int) == compile_code(op, arg_a, arg_b),
    ensures
        run_ends(fresh(mem)),
        run_outcome(fresh(mem)) == (
            Ok::<u64, Seq<char>>(0),
            MachineState { mem: mem, pc: 0, halted: true, ticks: 0 },
        ),
{
    let s0 = fresh(mem);
    assert(mem.subrange(0, 3)[0] == mem[0]);
    let s1 = MachineState { halted: true, ..s0 };
    assert(step_spec(s0) == (Ok::<bool, Seq<char>>(false), s1));
    assert(run_spec(s1, 0) == Some((Ok::<u64, Seq<char>>(0), s1)));
    assert(run_spec(s0, 1) == run_spec(s1, 0));
    lemma_run_outcome_unique(s0, 1);
}

} // verus!
