use quilt_subleq::subleq::{add_immediate_program, Machine};

#[test]
fn test_add_immediate() {
    // The snippet is exercised on its own in `add_immediate_layout`.
}

#[test]
fn test_halt() {
    let mut m = Machine::new(vec![-1, 0, 0]);
    let _ticks = m.run().unwrap();
    assert!(m.halted);
    assert!(_ticks <= 1);
}

#[test]
fn test_branch() {
    let mut m = Machine::new(vec![1, 0, 3, -1, 0, 0]);
    m.run().unwrap();
    assert!(m.halted);
    assert_eq!(m.pc, 3, "pc should be at pc+3 (the halt)");
}

#[test]
fn subleq_runs_until_halt() {
    let m = Machine::new(vec![-1, 0, 0]);
    let mut m = m;
    let _ticks = m.run().unwrap();
    assert!(m.halted);
}

#[test]
fn add_immediate_layout() {
    assert_eq!(add_immediate_program(7, 5), vec![4, 10, 5, 10, -1]);
    assert_eq!(add_immediate_program(0, -3), vec![4, 3, 5, 3, -1]);
    // Its first triple adds one to mem[B].
    let mut mem = add_immediate_program(2, 9);
    mem.push(0);
    let mut m = Machine::new(mem);
    assert_eq!(m.step(), Ok(true));
    assert_eq!(m.mem[5], 1);
}

#[test]
fn step_subtracts_and_branches() {
    // mem[4] -= mem[3]: 2 - 7 = -5 <= 0, so pc jumps to mem[2] = 9.
    let mut m = Machine::new(vec![3, 4, 9, 7, 2]);
    assert_eq!(m.step(), Ok(true));
    assert_eq!(m.mem, vec![3, 4, 9, 7, -5]);
    assert_eq!(m.pc, 9);
    assert_eq!(m.ticks, 1);
    // pc 9 leaves no room for a triple: the next step halts.
    assert_eq!(m.step(), Ok(false));
    assert!(m.halted);
    assert_eq!(m.ticks, 1);
    // A halted machine stays put.
    assert_eq!(m.step(), Ok(false));
    assert_eq!(m.pc, 9);
}

#[test]
fn step_falls_through_on_positive() {
    // mem[4] -= mem[3]: 9 - 2 = 7 > 0, so pc advances by 3.
    let mut m = Machine::new(vec![3, 4, 0, 2, 9, 0]);
    assert_eq!(m.step(), Ok(true));
    assert_eq!(m.mem[4], 7);
    assert_eq!(m.pc, 3);
}

#[test]
fn same_operand_zeroes_and_branches() {
    let mut m = Machine::new(vec![3, 3, 6, 42, 0, 0]);
    assert_eq!(m.step(), Ok(true));
    assert_eq!(m.mem[3], 0);
    assert_eq!(m.pc, 6);
}

#[test]
fn subtraction_wraps() {
    // mem[4] = i64::MIN - 1 wraps to i64::MAX (> 0): fall through.
    let mut m = Machine::new(vec![3, 4, 0, 1, i64::MIN]);
    assert_eq!(m.step(), Ok(true));
    assert_eq!(m.mem[4], i64::MAX);
    assert_eq!(m.pc, 3);
}

#[test]
fn operand_b_out_of_bounds() {
    let mut m = Machine::new(vec![0, 7, 0]);
    assert_eq!(m.step(), Err("addr_b 7 out of bounds (mem=3)".to_string()));
    assert!(!m.halted);
    assert_eq!(m.pc, 0);
    let mut m = Machine::new(vec![0, -12, 0]);
    assert_eq!(m.step(), Err("addr_b -12 out of bounds (mem=3)".to_string()));
}

#[test]
fn operand_a_out_of_bounds() {
    let mut m = Machine::new(vec![15, 1, 0]);
    assert_eq!(m.step(), Err("addr_a 15 out of bounds (mem=3)".to_string()));
    assert_eq!(m.run(), Err("addr_a 15 out of bounds (mem=3)".to_string()));
}

#[test]
fn run_counts_steps() {
    // Two subtractions, then the halt triple.
    let mut m = Machine::new(vec![9, 10, 3, 9, 10, 6, -1, 0, 0, 1, 5]);
    assert_eq!(m.run(), Ok(2));
    assert_eq!(m.mem[10], 3);
    assert!(m.halted);
}

#[test]
fn dump_windows() {
    let m = Machine::new(vec![1, 2, 3, 4, 5]);
    assert_eq!(m.dump(None), &[1, 2, 3, 4, 5]);
    assert_eq!(m.dump(Some((1, 3))), &[2, 3]);
    assert_eq!(m.dump(Some((3, 100))), &[4, 5]);
    assert_eq!(m.dump(Some((7, 9))), &[] as &[i64]);
}
