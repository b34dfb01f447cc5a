use quilt_subleq::block::{Block, BlockRef, Encoding};
use quilt_subleq::cell::{Sheet, SubleqCell};
use quilt_subleq::port::{Port, PortRegistry};
use quilt_subleq::quilt_as_subleq::bind_program;
use quilt_subleq::scaling::{subleq, ScalingContext};
use quilt_subleq::store::Store;

#[test]
fn test_subleq_cell_run() {
    // The tape cell where the caller places the literal's negation.
    const VALUE_LOC: usize = 42;
    let mut cell = SubleqCell::new("a", bind_program(50, 42), 100);
    cell.write(VALUE_LOC, -42);
    let _ = cell.run().unwrap();
    assert_eq!(cell.read(50), 42, "mem[50] should be 42 after BIND");
}

#[test]
fn cell_runs_subleq_program() {
    let prog = bind_program(10, 7);
    let mut cell = SubleqCell::new("test", prog, 20);
    let ticks = cell.run().unwrap();
    assert!(ticks > 0);
}

#[test]
fn scaling_function_resolves_memory() {
    let mut tape = vec![0i64; 10];
    let mut cells = Store::new();
    let mut ports = Store::new();
    {
        let mut ctx = ScalingContext::new(&mut tape, &mut cells, &mut ports);
        let r = BlockRef::Memory(5);
        let mut b = ctx.resolve(&r).unwrap();
        b.write(99).unwrap();
    }
    assert_eq!(tape[5], 99);
}

#[test]
fn scaling_function_resolves_cell() {
    let mut tape = vec![];
    let mut cells = Store::new();
    cells.insert("cell-a".into(), 42);
    let mut ports = Store::new();
    let mut ctx = ScalingContext::new(&mut tape, &mut cells, &mut ports);

    let r = BlockRef::Cell("cell-a".into());
    let b = ctx.resolve(&r).unwrap();
    assert_eq!(b.read().unwrap(), 42);
}

#[test]
fn scaling_function_resolves_port() {
    let mut tape = vec![];
    let mut cells = Store::new();
    let mut ports = Store::new();
    ports.insert("remote::node-7".into(), 100);
    let mut ctx = ScalingContext::new(&mut tape, &mut cells, &mut ports);

    let r = BlockRef::Port {
        url: "remote".into(),
        sig: "node-7".into(),
        encoding: Encoding::Raw,
    };
    let mut b = ctx.resolve(&r).unwrap();
    assert_eq!(b.read().unwrap(), 100);
    b.write(200).unwrap();
}

#[test]
fn port_registry_roundtrip() {
    let mut reg = PortRegistry::new();
    reg.register(Port::new("quilt://alpha", "input", 13));
    assert!(reg.get("quilt://alpha", "input").is_some());
    assert_eq!(reg.get("quilt://alpha", "input").unwrap().buffer.get(), 13);
}

#[test]
fn registry_misses_other_keys() {
    let mut reg = PortRegistry::new();
    reg.register(Port::new("quilt://alpha", "input", 13));
    reg.register(Port::new("quilt://alpha", "input", 21));
    assert_eq!(reg.len(), 1);
    assert_eq!(reg.get("quilt://alpha", "input").unwrap().buffer.get(), 21);
    assert!(reg.get("quilt://alpha", "output").is_none());
    assert!(reg.get("quilt://beta", "input").is_none());
    // The pair is the key: no other split of the same text finds the port.
    reg.register(Port::new("a::b", "c", 1));
    assert!(reg.get("a", "b::c").is_none());
    assert_eq!(reg.get("a::b", "c").unwrap().buffer.get(), 1);
}

#[test]
fn port_as_block_copies_value() {
    let p = Port::new("quilt://beta", "in", 5);
    let mut b = p.as_block();
    assert_eq!(b.read(), Ok(5));
    assert_eq!(b.block_ref().to_string(), "port://quilt://beta?sig=in&enc=raw");
    b.write(9).unwrap();
    assert_eq!(b.read(), Ok(9));
    assert_eq!(p.buffer.get(), 5);
}

#[test]
fn block_ref_text() {
    assert_eq!(BlockRef::Memory(20).to_string(), "mem://20");
    assert_eq!(BlockRef::Cell("quilt://alpha.cell.value".into()).to_string(), "cell://quilt://alpha.cell.value");
    let p = BlockRef::Port { url: "node-c".into(), sig: "branch_signal".into(), encoding: Encoding::Json };
    assert_eq!(p.to_string(), "port://node-c?sig=branch_signal&enc=json");
    assert_eq!(Encoding::Bincode.to_string(), "bincode");
    assert_eq!(Encoding::Msgpack.to_string(), "msgpack");
    assert_eq!(BlockRef::Cell("x".into()).as_cell_id(), Some("x".to_string()));
    assert_eq!(BlockRef::Memory(3).as_cell_id(), None);
}

#[test]
fn resolvers_reject_other_kinds() {
    let mut tape = vec![0i64; 4];
    let mut cells = Store::new();
    let mut ports = Store::new();
    let mut ctx = ScalingContext::new(&mut tape, &mut cells, &mut ports);
    let c = BlockRef::Cell("k".into());
    let m = BlockRef::Memory(2);
    assert_eq!(ctx.memory(&c).err(), Some("not a memory ref: cell://k".to_string()));
    assert_eq!(ctx.cell(&m).err(), Some("not a cell ref: mem://2".to_string()));
    assert_eq!(ctx.port(&m).err(), Some("not a port ref: mem://2".to_string()));
}

#[test]
fn memory_block_reads_and_grows() {
    let mut tape = vec![1i64, 2, 3];
    let mut cells = Store::new();
    let mut ports = Store::new();
    {
        let mut ctx = ScalingContext::new(&mut tape, &mut cells, &mut ports);
        let r = BlockRef::Memory(6);
        let mut b = ctx.resolve(&r).unwrap();
        assert_eq!(b.read(), Err("mem out of bounds: 6".to_string()));
        b.write(8).unwrap();
        assert_eq!(b.read(), Ok(8));
    }
    assert_eq!(tape, vec![1, 2, 3, 0, 0, 0, 8]);
}

#[test]
fn cell_block_defaults_to_zero_and_stores() {
    let mut tape = vec![];
    let mut cells = Store::new();
    let mut ports = Store::new();
    {
        let mut ctx = ScalingContext::new(&mut tape, &mut cells, &mut ports);
        let r = BlockRef::Cell("fresh".into());
        let mut b = ctx.resolve(&r).unwrap();
        assert_eq!(b.read(), Ok(0));
        b.write(-4).unwrap();
    }
    assert_eq!(cells.get(&"fresh".to_string()), Some(&-4));
}

#[test]
fn port_lookup_falls_back_to_signature() {
    let mut tape = vec![];
    let mut cells = Store::new();
    let mut ports = Store::new();
    ports.insert("branch_signal".into(), 3);
    let mut ctx = ScalingContext::new(&mut tape, &mut cells, &mut ports);
    let r = BlockRef::Port { url: "node-c".into(), sig: "branch_signal".into(), encoding: Encoding::Raw };
    assert_eq!(ctx.port(&r).unwrap().read(), Ok(3));
    let missing = BlockRef::Port { url: "node-c".into(), sig: "other".into(), encoding: Encoding::Raw };
    assert_eq!(ctx.port(&missing).unwrap().read(), Ok(0));
}

#[test]
fn subleq_over_cells_branches_to_memory_target() {
    let mut tape = vec![0i64; 32];
    let mut cells = Store::new();
    cells.insert("quilt://alpha.cell.value".to_string(), 50);
    cells.insert("quilt://alpha.cell.delta".to_string(), 10);
    let mut ports = Store::new();
    let a = BlockRef::Cell("quilt://alpha.cell.value".into());
    let b = BlockRef::Cell("quilt://alpha.cell.delta".into());
    let c = BlockRef::Memory(20);
    {
        let mut ctx = ScalingContext::new(&mut tape, &mut cells, &mut ports);
        assert_eq!(subleq(&a, &b, &c, &mut ctx), Ok(20));
    }
    assert_eq!(cells.get(&"quilt://alpha.cell.delta".to_string()), Some(&-40));
}

#[test]
fn subleq_over_memory() {
    let mut tape = vec![0i64; 16];
    tape[10] = 5;
    tape[11] = 3;
    tape[12] = 1;
    let mut cells = Store::new();
    let mut ports = Store::new();
    {
        let mut ctx = ScalingContext::new(&mut tape, &mut cells, &mut ports);
        let r = subleq(&BlockRef::Memory(10), &BlockRef::Memory(11), &BlockRef::Memory(0), &mut ctx);
        assert_eq!(r, Ok(0));
        // 5 - 1 = 4 > 0: no branch.
        let r = subleq(&BlockRef::Memory(12), &BlockRef::Memory(10), &BlockRef::Memory(0), &mut ctx);
        assert_eq!(r, Ok(usize::MAX - 1));
        // The halt sentinel.
        let r = subleq(&BlockRef::Memory(usize::MAX), &BlockRef::Memory(10), &BlockRef::Memory(0), &mut ctx);
        assert_eq!(r, Ok(usize::MAX));
    }
    assert_eq!(tape[11], -2);
    assert_eq!(tape[10], 4);
}

#[test]
fn subleq_errors() {
    let mut tape = vec![0i64; 4];
    let mut cells = Store::new();
    let mut ports = Store::new();
    let mut ctx = ScalingContext::new(&mut tape, &mut cells, &mut ports);
    let r = subleq(&BlockRef::Memory(9), &BlockRef::Memory(1), &BlockRef::Memory(0), &mut ctx);
    assert_eq!(r, Err("mem out of bounds: 9".to_string()));
    let c = BlockRef::Cell("target".into());
    let r = subleq(&BlockRef::Memory(1), &BlockRef::Memory(2), &c, &mut ctx);
    assert_eq!(r, Err("branch target must be a memory (pc) ref, got: cell://target".to_string()));
}

#[test]
fn subleq_port_write_is_local() {
    let mut tape = vec![0i64, 7];
    let mut cells = Store::new();
    let mut ports = Store::new();
    ports.insert("n::p".into(), 10);
    {
        let mut ctx = ScalingContext::new(&mut tape, &mut cells, &mut ports);
        let b = BlockRef::Port { url: "n".into(), sig: "p".into(), encoding: Encoding::Raw };
        assert_eq!(subleq(&BlockRef::Memory(1), &b, &BlockRef::Memory(0), &mut ctx), Ok(usize::MAX - 1));
    }
    assert_eq!(ports.get(&"n::p".to_string()), Some(&10));
}

#[test]
fn cell_read_write_and_run() {
    let mut cell = SubleqCell::new("c", bind_program(30, 40), 10);
    assert_eq!(cell.read(3), 0);
    assert_eq!(cell.read(100), 0);
    cell.write(40, 11);
    assert_eq!(cell.tape.len(), 41);
    assert_eq!(cell.run(), Ok(3));
    assert_eq!(cell.read(30), 40);
    assert_eq!(cell.read(40), 11);
    assert_eq!(&cell.tape[..3], &[30, 30, 9]);
}

#[test]
fn cell_budget_is_an_error() {
    // A two-instruction loop that never halts.
    let mut cell = SubleqCell::new("loop", vec![3, 3, 0], 6);
    assert_eq!(
        cell.run_with_max_ticks(10),
        Err("subleq exceeded max_ticks=10 (likely infinite loop)".to_string())
    );
    assert_eq!(cell.tape.len(), 6);
    // A program that halts at once is within any budget.
    let mut cell = SubleqCell::new("halt", vec![-1, 0, 0], 3);
    assert_eq!(cell.run_with_max_ticks(1), Ok(1));
    assert_eq!(cell.tape, vec![-1, 0, 0]);
    let mut cell = SubleqCell::new("halt", vec![-1, 0, 0], 3);
    assert_eq!(cell.run_with_max_ticks(0), Ok(1));
    // One instruction, then the halt: two calls, within a budget of 2.
    let mut cell = SubleqCell::new("one", vec![4, 4, 3, -1, 0, 0], 6);
    assert_eq!(cell.run_with_max_ticks(2), Ok(2));
    let mut cell = SubleqCell::new("one", vec![4, 4, 3, -1, 0, 0], 6);
    assert_eq!(cell.run_with_max_ticks(1), Err("subleq exceeded max_ticks=1 (likely infinite loop)".to_string()));
}

#[test]
fn cell_step_error_empties_tape() {
    let mut cell = SubleqCell::new("bad", vec![0, 50, 0], 4);
    assert_eq!(cell.run(), Err("addr_b 50 out of bounds (mem=4)".to_string()));
    assert!(cell.tape.is_empty());
}

#[test]
fn sheet_runs_cells_in_order() {
    let mut sheet = Sheet::new();
    let mut a = SubleqCell::new("A", bind_program(40, 100), 128);
    a.write(100, 100);
    a.write(40, 42);
    sheet.add(a);
    let mut b = SubleqCell::new("B", bind_program(50, 200), 256);
    b.write(200, 200);
    b.write(50, 99);
    sheet.add(b);
    let ticks = sheet.run_all().unwrap();
    assert_eq!(ticks.get(&"A".to_string()), Some(&3));
    assert_eq!(ticks.get(&"B".to_string()), Some(&3));
    assert_eq!(sheet.cells.get(&"A".to_string()).unwrap().read(40), 100);
    assert_eq!(sheet.cells.get(&"B".to_string()).unwrap().read(50), 200);
    assert_eq!(sheet.pc_order.len(), 2);
}

#[test]
fn sheet_stops_at_first_error() {
    let mut sheet = Sheet::new();
    sheet.add(SubleqCell::new("bad", vec![0, 50, 0], 4));
    sheet.add(SubleqCell::new("ok", vec![-1, 0, 0], 3));
    assert_eq!(sheet.run_all().err(), Some("addr_b 50 out of bounds (mem=4)".to_string()));
}

#[test]
fn store_keeps_one_value_per_key() {
    let mut s: Store<String, i64> = Store::new();
    assert_eq!(s.len(), 0);
    s.insert("k".to_string(), 1);
    s.insert("j".to_string(), 2);
    s.insert("k".to_string(), 3);
    assert_eq!(s.len(), 2);
    assert_eq!(s.get(&"k".to_string()), Some(&3));
    assert_eq!(s.remove(&"k".to_string()), Some(3));
    assert_eq!(s.get(&"k".to_string()), None);
    assert_eq!(s.remove(&"k".to_string()), None);
    assert_eq!(s.len(), 1);
}
