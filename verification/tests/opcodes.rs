use quilt_subleq::quilt_as_subleq::{
    bind_program, compile, crdt_program, effect_program, forget_program, link_program,
    proof_program, tick_program, view_program, OP_BIND, OP_CRDT, OP_EFFECT, OP_FORGET, OP_LINK,
    OP_PROOF, OP_ROUTE, OP_TICK, OP_TIME, OP_VIEW, OP_WORLD,
};
use quilt_subleq::subleq::Machine;

#[test]
fn test_compile_each_opcode() {
    for op in 1..=11 {
        let p = compile(op, 0, 0);
        assert!(!p.is_empty(), "op {} produced empty program", op);
        assert!(p.len() % 3 == 0, "op {} produced non-aligned program (len={})", op, p.len());
    }
}

#[test]
fn test_bind_program_is_subleq() {
    let p = bind_program(5, 42);
    assert!(p.len() % 3 == 0, "Subleq programs must be 3-aligned");
    assert_eq!(p[0], 5);
    assert_eq!(p[1], 5);
    assert_eq!(p[2], 9);
    assert_eq!(p[p.len() - 3], -1, "HALT triplet must be at the end");
}

#[test]
fn test_bind_executes_correctly() {
    let mut mem = vec![0i64; 60];
    const LIT: usize = 50;
    mem[LIT] = 99;
    let prog = vec![
        40, 40, 9,
        0, 0, 0,
        0, 0, 0,
        12, 12, 15,
        0, 0, 0,
        50, 12, 18,
        12, 40, 21,
        -1, 0, 0,
    ];
    for (i, &v) in prog.iter().enumerate() {
        mem[i] = v;
    }
    let mut m = Machine::new(mem);
    m.run().unwrap();
    assert_eq!(m.mem[40], 99, "mem[40] should be 99 after BIND");
}

#[test]
fn all_eleven_opcodes_compile() {
    for op in [OP_BIND, OP_LINK, OP_EFFECT, OP_VIEW, OP_TICK, OP_FORGET, OP_PROOF, OP_ROUTE, OP_CRDT, OP_WORLD, OP_TIME] {
        let p = compile(op, 0, 0);
        assert!(p.len() % 3 == 0, "op {} produced non-aligned program (len={})", op, p.len());
    }
}

#[test]
fn programs_have_exact_layouts() {
    assert_eq!(bind_program(30, 70), vec![30, 30, 9, -70, 0, 0, 0, 0, 0, 3, 30, 12, -1, 0, 0]);
    assert_eq!(link_program(4, 8), vec![4, 4, 9, -8, 0, 0, 0, 0, 0, 3, 4, 12, -1, 0, 0]);
    assert_eq!(effect_program(7), vec![4, 7, 6, -1, -1, 0, -1, 0, 0]);
    assert_eq!(view_program(7, 8), vec![13, 13, 3, 7, 13, 6, 8, 8, 9, 13, 8, 12, -1, 0, 0]);
    assert_eq!(tick_program(2), vec![4, 2, 6, -1, -1, 0, -1, 0, 0]);
    assert_eq!(forget_program(9), vec![9, 9, 6, 0, 0, 0, -1, 0, 0]);
    assert_eq!(
        proof_program(3, 5),
        vec![
            3, 3, 6, 0, -5, 1, 100, 100, 9, 3, 3, 12, 4, 3, 18, 5, 100, 36, 37, 37, 21, 3, 37, 27,
            5, 100, 36, 5, 3, 33, 5, 100, 36, 36, 100, 36, -1, 0, 0
        ]
    );
    assert_eq!(
        crdt_program(40, 6),
        vec![22, 40, 12, 20, 20, 6, 19, 20, 9, 40, 20, 18, 40, 40, 15, 19, 40, 18, -1, -6, 0, -1, 0, 0]
    );
    assert_eq!(
        crdt_program(40, -6),
        vec![
            25, 40, 6, 25, 25, 21, 23, 23, 9, 22, 23, 12, 40, 23, 21, 40, 40, 18, 22, 40, 21, -1, 6,
            0, -1, 0, 0
        ]
    );
    assert_eq!(bind_program(30, i64::MIN)[3], i64::MIN);
}

#[test]
fn compile_dispatches_arguments() {
    assert_eq!(compile(OP_BIND, 30, 70), bind_program(30, 70));
    assert_eq!(compile(OP_LINK, 4, 8), link_program(4, 8));
    assert_eq!(compile(OP_VIEW, 7, 1), view_program(7, 100));
    assert_eq!(compile(OP_TICK, 7, 1), tick_program(101));
    assert_eq!(compile(OP_PROOF, 3, 5), proof_program(3, 5));
    assert_eq!(compile(OP_ROUTE, 3, 5), view_program(3, 5));
    assert_eq!(compile(OP_CRDT, 3, 5), crdt_program(3, 5));
    assert_eq!(compile(OP_WORLD, 3, 5), bind_program(3, 5));
    assert_eq!(compile(OP_TIME, 3, 5), tick_program(3));
    assert_eq!(compile(99, 3, 5), vec![-1, 0, 0]);
    for op in [OP_ROUTE, OP_CRDT, OP_WORLD, OP_TIME] {
        assert_ne!(compile(op, 40, 2), vec![-1, 0, 0]);
    }
}

/// Runs `program` placed at the start of a tape of `len` cells, after the
/// given cells are set.
fn run_on_tape(program: Vec<i64>, len: usize, cells: &[(usize, i64)]) -> Machine {
    let mut mem = vec![0i64; len];
    for &(a, v) in cells {
        mem[a] = v;
    }
    for (i, &v) in program.iter().enumerate() {
        mem[i] = v;
    }
    let mut m = Machine::new(mem);
    m.run().unwrap();
    assert!(m.halted);
    m
}

#[test]
fn link_stores_its_target() {
    let m = run_on_tape(link_program(20, 33), 40, &[(20, 5)]);
    assert_eq!(m.mem[20], 33);
    assert_eq!(m.ticks, 2);
}

#[test]
fn world_stores_its_literal() {
    let m = run_on_tape(compile(OP_WORLD, 20, -9), 40, &[(20, 5)]);
    assert_eq!(m.mem[20], -9);
}

#[test]
fn effect_tick_and_time_add_one() {
    for x in [-3i64, 0, 7] {
        let m = run_on_tape(effect_program(20), 30, &[(20, x)]);
        assert_eq!(m.mem[20], x + 1);
        assert_eq!(m.ticks, 1);
        let m = run_on_tape(tick_program(25), 30, &[(25, x)]);
        assert_eq!(m.mem[25], x + 1);
        let m = run_on_tape(compile(OP_TIME, 12, 0), 30, &[(12, x)]);
        assert_eq!(m.mem[12], x + 1);
    }
    let m = run_on_tape(effect_program(20), 30, &[(20, i64::MAX)]);
    assert_eq!(m.mem[20], i64::MIN);
}

#[test]
fn view_and_route_copy() {
    let m = run_on_tape(view_program(20, 21), 30, &[(20, -5), (21, -10)]);
    assert_eq!(m.mem[21], -5);
    assert_eq!(m.mem[20], -5);
    assert_eq!(m.ticks, 4);
    let m = run_on_tape(view_program(20, 20), 30, &[(20, -5)]);
    assert_eq!(m.mem[20], -5);
    let m = run_on_tape(compile(OP_VIEW, 20, 0), 120, &[(20, 17)]);
    assert_eq!(m.mem[100], 17);
    let m = run_on_tape(compile(OP_TICK, 0, 0), 120, &[(101, 41)]);
    assert_eq!(m.mem[101], 42);
    let m = run_on_tape(compile(OP_ROUTE, 22, 27), 30, &[(22, 123), (27, 4)]);
    assert_eq!(m.mem[27], 123);
    assert_eq!(m.mem[22], 123);
}

#[test]
fn proof_writes_its_verdict() {
    let m = run_on_tape(proof_program(40, 5), 120, &[(40, 5), (100, 77)]);
    assert_eq!(m.mem[100], 1);
    assert_eq!(m.mem[40], 5);
    let m = run_on_tape(proof_program(40, -1), 120, &[(40, 5)]);
    assert_eq!(m.mem[100], -1);
    let m = run_on_tape(proof_program(40, 9), 120, &[(40, 5)]);
    assert_eq!(m.mem[100], -1);
    let m = run_on_tape(proof_program(40, -7), 120, &[(40, -7)]);
    assert_eq!(m.mem[100], 1);
    // Differences of 2^63 wrap to i64::MIN; they are still mismatches.
    let m = run_on_tape(proof_program(40, -1), 120, &[(40, i64::MAX)]);
    assert_eq!(m.mem[100], -1);
    let m = run_on_tape(proof_program(40, i64::MIN), 120, &[(40, 0)]);
    assert_eq!(m.mem[100], -1);
    let m = run_on_tape(proof_program(40, i64::MIN), 120, &[(40, i64::MIN)]);
    assert_eq!(m.mem[100], 1);
    let m = run_on_tape(proof_program(40, i64::MAX), 120, &[(40, i64::MIN)]);
    assert_eq!(m.mem[100], -1);
}

#[test]
fn crdt_keeps_the_maximum() {
    let m = run_on_tape(crdt_program(30, 6), 40, &[(30, 2)]);
    assert_eq!(m.mem[30], 6);
    let m = run_on_tape(crdt_program(30, 6), 40, &[(30, 11)]);
    assert_eq!(m.mem[30], 11);
    let m = run_on_tape(crdt_program(30, -4), 40, &[(30, -4)]);
    assert_eq!(m.mem[30], -4);
    let m = run_on_tape(crdt_program(30, -4), 40, &[(30, -9)]);
    assert_eq!(m.mem[30], -4);
    let m = run_on_tape(crdt_program(30, -4), 40, &[(30, 3)]);
    assert_eq!(m.mem[30], 3);
    // Differences that do not fit in an i64.
    let m = run_on_tape(crdt_program(30, i64::MAX), 40, &[(30, -2)]);
    assert_eq!(m.mem[30], i64::MAX);
    let m = run_on_tape(crdt_program(30, i64::MIN), 40, &[(30, 5)]);
    assert_eq!(m.mem[30], 5);
    let m = run_on_tape(crdt_program(30, 0), 40, &[(30, i64::MIN)]);
    assert_eq!(m.mem[30], 0);
    let m = run_on_tape(crdt_program(30, -1), 40, &[(30, i64::MIN)]);
    assert_eq!(m.mem[30], -1);
}

#[test]
fn every_compiled_program_ends_in_halt() {
    for op in -2..=13 {
        let p = compile(op, 17, 23);
        let n = p.len();
        assert!(n > 0 && n % 3 == 0);
        assert_eq!(&p[n - 3..], &[-1, 0, 0]);
    }
}

#[test]
fn bind_stores_the_literal() {
    let m = run_on_tape(bind_program(40, -1234), 60, &[(40, 77)]);
    assert_eq!(m.mem[40], -1234);
    assert_eq!(m.ticks, 2);
    assert_eq!(m.pc, 12);
}

#[test]
fn forget_zeroes_its_cell() {
    let mut mem = vec![0i64; 20];
    mem[15] = 321;
    for (i, &v) in forget_program(15).iter().enumerate() {
        mem[i] = v;
    }
    let mut m = Machine::new(mem);
    assert_eq!(m.run(), Ok(1));
    assert_eq!(m.mem[15], 0);
    assert_eq!(m.pc, 6);
    assert!(m.halted);
}
