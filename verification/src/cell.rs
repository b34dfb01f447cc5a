//! A Quilt cell that runs Subleq internally, and sheets of such cells.
//!
//! The cell's executable substrate is a Subleq machine: running a cell places
//! its program at the start of its tape and runs the machine on that tape.

use vstd::prelude::*;
use crate::store::Store;
use crate::subleq::{Machine, MachineState, step_panics, step_spec, text_result};
use crate::text::{nat_text, push_nat};

verus! {

/// The mathematical state of a cell.
pub struct CellState {
    pub id: Seq<char>,
    pub program: Seq<i64>,
    pub tape: Seq<i64>,
    pub inbound: Seq<String>,
    pub outbound: Seq<String>,
}

/// The tape a run starts from: the program over the first cells, the old
/// tape after it, grown with zeros when it was shorter than the program.
pub open spec fn loaded_tape(tape: Seq<i64>, program: Seq<i64>) -> Seq<i64> {
    let len = if tape.len() < program.len() {
        program.len()
    } else {
        tape.len()
    };
    Seq::new(len, |j: int| if j < program.len() { program[j] } else { tape[j] })
}

/// The message of a run stopped by its tick budget.
pub open spec fn max_ticks_message(max_ticks: u64) -> Seq<char> {
    "subleq exceeded max_ticks="@ + nat_text(max_ticks as nat) + " (likely infinite loop)"@
}

/// A bounded run after `count` step calls: the value `run_with_max_ticks`
/// returns and the tape the cell keeps, or `None` when a step would overflow.
/// Every call of `step` counts, the halting one too. A run that halts returns
/// its count whatever the budget; otherwise reaching the budget is an error
/// that keeps the tape. A step error leaves the cell with an empty tape.
pub open spec fn bounded_run(s: MachineState, count: u64, max_ticks: u64) -> Option<
    (Result<u64, Seq<char>>, Seq<i64>),
>
    decreases max_ticks - count,
{
    if s.halted {
        Some((Ok(count), s.mem))
    } else if step_panics(s) {
        None
    } else {
        let (r, s2) = step_spec(s);
        match r {
            Err(e) => Some((Err(e), Seq::empty())),
            Ok(_) => if s2.halted {
                Some((Ok((count + 1) as u64), s2.mem))
            } else if count + 1 >= max_ticks {
                Some((Err(max_ticks_message(max_ticks)), s2.mem))
            } else {
                bounded_run(s2, (count + 1) as u64, max_ticks)
            },
        }
    }
}

/// Running a cell with a tick budget: the value returned and the tape kept.
pub open spec fn cell_run(c: CellState, max_ticks: u64) -> Option<(Result<u64, Seq<char>>, Seq<i64>)> {
    bounded_run(
        MachineState { mem: loaded_tape(c.tape, c.program), pc: 0, halted: false, ticks: 0 },
        0,
        max_ticks,
    )
}

/// The machine a cell run starts from.
pub open spec fn cell_start(c: CellState) -> MachineState {
    MachineState { mem: loaded_tape(c.tape, c.program), pc: 0, halted: false, ticks: 0 }
}

/// The state after `n` instructions that each execute (`step` returns
/// `Ok(true)`), or `None` when the machine halts, fails or would overflow first.
pub open spec fn exec_n(s: MachineState, n: nat) -> Option<MachineState>
    decreases n,
{
    if n == 0 {
        Some(s)
    } else if s.halted || step_panics(s) {
        None
    } else {
        let (r, s2) = step_spec(s);
        if r == Ok::<bool, Seq<char>>(true) {
            exec_n(s2, (n - 1) as nat)
        } else {
            None
        }
    }
}

/// A budget of 0 still lets the first step run.
pub open spec fn budget(max_ticks: u64) -> nat {
    if max_ticks == 0 {
        1
    } else {
        max_ticks as nat
    }
}

proof fn lemma_bounded_halts(s: MachineState, c: u64, max_ticks: u64, n: nat)
    requires
        exec_n(s, n) is Some,
        !exec_n(s, n).unwrap().halted,
        !step_panics(exec_n(s, n).unwrap()),
        step_spec(exec_n(s, n).unwrap()).0 == Ok::<bool, Seq<char>>(false),
        n == 0 || c + n < max_ticks,
        c + n < u64::MAX,
    ensures
        bounded_run(s, c, max_ticks) == Some(
            (Ok::<u64, Seq<char>>((c + n + 1) as u64), step_spec(exec_n(s, n).unwrap()).1.mem),
        ),
    decreases n,
{
    if n > 0 {
        let (r, s1) = step_spec(s);
        lemma_bounded_halts(s1, (c + 1) as u64, max_ticks, (n - 1) as nat);
    }
}

proof fn lemma_bounded_budget(s: MachineState, c: u64, max_ticks: u64, j: nat)
    requires
        j >= 1,
        exec_n(s, j) is Some,
        c + j == budget(max_ticks),
    ensures
        bounded_run(s, c, max_ticks) == Some(
            (Err::<u64, Seq<char>>(max_ticks_message(max_ticks)), exec_n(s, j).unwrap().mem),
        ),
    decreases j,
{
    let (r, s1) = step_spec(s);
    if j > 1 {
        lemma_bounded_budget(s1, (c + 1) as u64, max_ticks, (j - 1) as nat);
    } else {
        assert(exec_n(s1, 0) == Some(s1));
    }
}

/// Law: a cell run is the machine run on the loaded tape. When the machine
/// executes `n` instructions and then halts, with `n` under the budget (or
/// `n == 0`), the cell run returns `Ok(n + 1)` (the halting call counts) and
/// the cell keeps the machine's final tape.
pub proof fn lemma_cell_run_halts(c: CellState, max_ticks: u64, n: nat)
    requires
        exec_n(cell_start(c), n) is Some,
        !exec_n(cell_start(c), n).unwrap().halted,
        !step_panics(exec_n(cell_start(c), n).unwrap()),
        step_spec(exec_n(cell_start(c), n).unwrap()).0 == Ok::<bool, Seq<char>>(false),
        n == 0 || n < max_ticks,
    ensures
        cell_run(c, max_ticks) == Some(
            (
                Ok::<u64, Seq<char>>((n + 1) as u64),
                step_spec(exec_n(cell_start(c), n).unwrap()).1.mem,
            ),
        ),
{
    lemma_bounded_halts(cell_start(c), 0, max_ticks, n);
}

/// Law: a cell run whose machine is still running after the budget's worth
/// of executed instructions (at least one) stops with the budget error, and
/// the cell keeps the machine's tape after those instructions.
pub proof fn lemma_cell_run_budget(c: CellState, max_ticks: u64)
    requires
        exec_n(cell_start(c), budget(max_ticks)) is Some,
    ensures
        cell_run(c, max_ticks) == Some(
            (
                Err::<u64, Seq<char>>(max_ticks_message(max_ticks)),
                exec_n(cell_start(c), budget(max_ticks)).unwrap().mem,
            ),
        ),
{
    lemma_bounded_budget(cell_start(c), 0, max_ticks, budget(max_ticks));
}

proof fn lemma_bounded_step_error(s: MachineState, c: u64, max_ticks: u64, n: nat)
    requires
        exec_n(s, n) is Some,
        !exec_n(s, n).unwrap().halted,
        !step_panics(exec_n(s, n).unwrap()),
        step_spec(exec_n(s, n).unwrap()).0 is Err,
        n == 0 || c + n < max_ticks,
    ensures
        bounded_run(s, c, max_ticks) == Some(
            (
                Err::<u64, Seq<char>>(step_spec(exec_n(s, n).unwrap()).0->Err_0),
                Seq::<i64>::empty(),
            ),
        ),
    decreases n,
{
    if n > 0 {
        let (r, s1) = step_spec(s);
        lemma_bounded_step_error(s1, (c + 1) as u64, max_ticks, (n - 1) as nat);
    }
}

/// Law: when the machine on the loaded tape executes `n` instructions (under
/// the budget, or `n == 0`) and the next step fails with `Err(e)`, the cell
/// run returns `Err(e)` and the cell is left with an empty tape.
pub proof fn lemma_cell_run_step_error(c: CellState, max_ticks: u64, n: nat)
    requires
        exec_n(cell_start(c), n) is Some,
        !exec_n(cell_start(c), n).unwrap().halted,
        !step_panics(exec_n(cell_start(c), n).unwrap()),
        step_spec(exec_n(cell_start(c), n).unwrap()).0 is Err,
        n == 0 || n < max_ticks,
    ensures
        cell_run(c, max_ticks) == Some(
            (
                Err::<u64, Seq<char>>(step_spec(exec_n(cell_start(c), n).unwrap()).0->Err_0),
                Seq::<i64>::empty(),
            ),
        ),
{
    lemma_bounded_step_error(cell_start(c), 0, max_ticks, n);
}

/// The tick budget of `run`.
pub open spec fn default_max_ticks() -> u64 {
    1_000_000
}

/// A Quilt cell, projected down to its Subleq substrate.
pub struct SubleqCell {
    /// The cell's id (or signature).
    pub id: String,
    /// The cell's executable: a Subleq program.
    pub program: Vec<i64>,
    /// The tape the cell reads and writes.
    pub tape: Vec<i64>,
    /// Cells feeding into this one.
    pub inbound: Vec<String>,
    /// Cells this one feeds.
    pub outbound: Vec<String>,
}

impl View for SubleqCell {
    type V = CellState;

    open spec fn view(&self) -> CellState {
        CellState {
            id: self.id@,
            program: self.program@,
            tape: self.tape@,
            inbound: self.inbound@,
            outbound: self.outbound@,
        }
    }
}

/// The tape value at `addr`, 0 past the end.
pub open spec fn tape_at(tape: Seq<i64>, addr: int) -> i64 {
    if 0 <= addr < tape.len() {
        tape[addr]
    } else {
        0
    }
}

impl SubleqCell {
    /// A cell with a zeroed tape of `tape_size` cells and no links.
    pub fn new(id: &str, program: Vec<i64>, tape_size: usize) -> (c: Self)
        ensures
            c@ == (CellState {
                id: id@,
                program: program@,
                tape: Seq::new(tape_size as nat, |i: int| 0i64),
                inbound: Seq::empty(),
                outbound: Seq::empty(),
            }),
    {
        let tape: Vec<i64> = vec![0; tape_size];
        assert(tape@ =~= Seq::new(tape_size as nat, |i: int| 0i64));
        SubleqCell {
            id: String::from_str(id),
            program,
            tape,
            inbound: Vec::new(),
            outbound: Vec::new(),
        }
    }

    /// Runs the cell's program with a budget of a million ticks.
    pub fn run(&mut self) -> (r: Result<u64, String>)
        requires
            cell_run(old(self)@, default_max_ticks()) is Some,
        ensures
            (text_result(r), final(self)@.tape) == cell_run(old(self)@, default_max_ticks()).unwrap(),
            final(self)@ == (CellState { tape: final(self)@.tape, ..old(self)@ }),
    {
        self.run_with_max_ticks(1_000_000)
    }

    /// Places the program at the start of the tape and runs it; returns the
    /// number of step calls (the halting one included), or an error when a
    /// step fails or the budget is used up before the program halts.
    pub fn run_with_max_ticks(&mut self, max_ticks: u64) -> (r: Result<u64, String>)
        requires
            cell_run(old(self)@, max_ticks) is Some,
        ensures
            (text_result(r), final(self)@.tape) == cell_run(old(self)@, max_ticks).unwrap(),
            final(self)@ == (CellState { tape: final(self)@.tape, ..old(self)@ }),
    {
        let ghost start = self@;
        let mut tape: Vec<i64> = Vec::new();
        std::mem::swap(&mut tape, &mut self.tape);
        let prog_len = self.program.len();
        if tape.len() < prog_len {
            tape.resize(prog_len, 0);
        }
        let ghost grown = tape@;
        let mut i: usize = 0;
        while i < prog_len
            invariant
                prog_len == self.program@.len(),
                i <= prog_len,
                tape@.len() == grown.len(),
                grown.len() >= prog_len,
                forall|j: int| 0 <= j < i ==> tape@[j] == self.program@[j],
                forall|j: int| i <= j < grown.len() ==> tape@[j] == grown[j],
            decreases prog_len - i,
        {
            tape.set(i, self.program[i]);
            i = i + 1;
        }
        assert(tape@ =~= loaded_tape(start.tape, start.program));
        let mut m = Machine::new(tape);
        let mut ticks: u64 = 0;
        while !m.halted
            invariant
                start == old(self)@,
                self@ == (CellState { tape: Seq::empty(), ..start }),
                bounded_run(m@, ticks, max_ticks) == cell_run(start, max_ticks),
                bounded_run(m@, ticks, max_ticks) is Some,
                ticks == 0 || ticks < max_ticks || m.halted,
            decreases (if m.halted { 0int } else { 1int }), max_ticks - ticks,
        {
            let ghost before = m@;
            let r = m.step();
            match r {
                Err(e) => {
                    assert(bounded_run(before, ticks, max_ticks) == Some(
                        (Err::<u64, Seq<char>>(e@), Seq::<i64>::empty()),
                    ));
                    return Err(e);
                },
                Ok(_) => {},
            }
            ticks = ticks + 1;
            if !m.halted && ticks >= max_ticks {
                self.tape = m.mem;
                let mut msg = String::from_str("subleq exceeded max_ticks=");
                push_nat(&mut msg, max_ticks);
                msg.append(" (likely infinite loop)");
                assert(msg@ =~= max_ticks_message(max_ticks));
                return Err(msg);
            }
        }
        self.tape = m.mem;
        Ok(ticks)
    }

    /// The tape value at `addr`, 0 past the end.
    pub fn read(&self, addr: usize) -> (v: i64)
        ensures
            v == tape_at(self.tape@, addr as int),
    {
        if addr < self.tape.len() {
            self.tape[addr]
        } else {
            0
        }
    }

    /// Writes the tape at `addr`, growing it with zeros when it is too short.
    pub fn write(&mut self, addr: usize, v: i64)
        requires
            addr < usize::MAX,
        ensures
            final(self)@ == (CellState {
                tape: crate::block::tape_write(old(self).tape@, addr as nat, v),
                ..old(self)@
            }),
    {
        if addr >= self.tape.len() {
            self.tape.resize(addr + 1, 0);
        }
        self.tape.set(addr, v);
        assert(self.tape@ =~= crate::block::tape_write(old(self).tape@, addr as nat, v));
    }
}

/// The mathematical state of a sheet: its cells by id, and the run order.
pub struct SheetState {
    pub cells: Map<Seq<char>, CellState>,
    pub order: Seq<Seq<char>>,
}

/// Running the cells of a sheet from position `i` of the order, with the
/// tick counts gathered so far: the value `run_all` returns and the cells it
/// leaves, or `None` when a cell run would overflow. Ids without a cell are
/// skipped; an id listed twice runs its cell twice, and the later count wins.
pub open spec fn sheet_run(
    cells: Map<Seq<char>, CellState>,
    order: Seq<Seq<char>>,
    i: nat,
    ticks: Map<Seq<char>, u64>,
) -> Option<(Result<Map<Seq<char>, u64>, Seq<char>>, Map<Seq<char>, CellState>)>
    decreases order.len() - i,
{
    if i >= order.len() {
        Some((Ok(ticks), cells))
    } else {
        let id = order[i as int];
        if !cells.contains_key(id) {
            sheet_run(cells, order, i + 1, ticks)
        } else {
            match cell_run(cells[id], default_max_ticks()) {
                None => None,
                Some((r, tape)) => {
                    let cells2 = cells.insert(id, CellState { tape: tape, ..cells[id] });
                    match r {
                        Err(e) => Some((Err(e), cells2)),
                        Ok(t) => sheet_run(cells2, order, i + 1, ticks.insert(id, t)),
                    }
                },
            }
        }
    }
}

/// Law (a sheet that finishes ran every listed cell): when the sheet run
/// from position `i` returns `Ok(t)`, every id from position `i` on that
/// names a cell has its tick count in `t`, and every count gathered before
/// is kept.
pub proof fn lemma_sheet_ok_counts_every_cell(
    cells: Map<Seq<char>, CellState>,
    order: Seq<Seq<char>>,
    i: nat,
    ticks: Map<Seq<char>, u64>,
)
    requires
        sheet_run(cells, order, i, ticks) is Some,
        sheet_run(cells, order, i, ticks).unwrap().0 is Ok,
    ensures
        forall|j: int|
            i <= j < order.len() && cells.contains_key(order[j]) ==> (#[trigger] sheet_run(
                cells,
                order,
                i,
                ticks,
            ).unwrap().0->Ok_0).contains_key(order[j]),
        forall|k: Seq<char>|
            ticks.contains_key(k) ==> (#[trigger] sheet_run(
                cells,
                order,
                i,
                ticks,
            ).unwrap().0->Ok_0).contains_key(k),
    decreases order.len() - i,
{
    if i < order.len() {
        let id = order[i as int];
        if !cells.contains_key(id) {
            lemma_sheet_ok_counts_every_cell(cells, order, i + 1, ticks);
        } else {
            let (r, tape) = cell_run(cells[id], default_max_ticks()).unwrap();
            let cells2 = cells.insert(id, CellState { tape: tape, ..cells[id] });
            let t0 = r->Ok_0;
            let ticks2 = ticks.insert(id, t0);
            lemma_sheet_ok_counts_every_cell(cells2, order, i + 1, ticks2);
            assert forall|j: int|
                i <= j < order.len() && cells.contains_key(order[j]) implies (#[trigger] sheet_run(
                cells,
                order,
                i,
                ticks,
            ).unwrap().0->Ok_0).contains_key(order[j]) by {
                if j > i {
                    assert(cells2.contains_key(order[j]));
                } else {
                    assert(ticks2.contains_key(id));
                }
            }
            assert forall|k: Seq<char>| ticks.contains_key(k) implies (#[trigger] sheet_run(
                cells,
                order,
                i,
                ticks,
            ).unwrap().0->Ok_0).contains_key(k) by {
                assert(ticks2.contains_key(k));
            }
        }
    }
}

/// Law (the first failing cell stops the sheet): when the run reaches a
/// listed cell whose own run fails with `Err(e)`, the sheet run returns
/// `Err(e)`, whatever tick counts were gathered before.
pub proof fn lemma_sheet_error_stops(
    cells: Map<Seq<char>, CellState>,
    order: Seq<Seq<char>>,
    i: nat,
    ticks: Map<Seq<char>, u64>,
)
    requires
        i < order.len(),
        cells.contains_key(order[i as int]),
        cell_run(cells[order[i as int]], default_max_ticks()) is Some,
        cell_run(cells[order[i as int]], default_max_ticks()).unwrap().0 is Err,
    ensures
        sheet_run(cells, order, i, ticks) is Some,
        sheet_run(cells, order, i, ticks).unwrap().0 is Err,
        sheet_run(cells, order, i, ticks).unwrap().0->Err_0 == cell_run(
            cells[order[i as int]],
            default_max_ticks(),
        ).unwrap().0->Err_0,
{
}

/// A tick table seen through its contents.
pub open spec fn ticks_result(r: Result<Store<String, u64>, String>) -> Result<Map<Seq<char>, u64>, Seq<char>> {
    match r {
        Ok(t) => Ok(t@),
        Err(e) => Err(e@),
    }
}

/// A small sheet of cells, wired together by id.
pub struct Sheet {
    pub cells: Store<String, SubleqCell>,
    pub pc_order: Vec<String>,
}

impl View for Sheet {
    type V = SheetState;

    open spec fn view(&self) -> SheetState {
        SheetState {
            cells: self.cells@.map_values(|c: SubleqCell| c@),
            order: self.pc_order@.map_values(|s: String| s@),
        }
    }
}

impl Sheet {
    /// An empty sheet.
    pub fn new() -> (s: Self)
        ensures
            s@ == (SheetState { cells: Map::empty(), order: Seq::empty() }),
    {
        let s = Sheet { cells: Store::new(), pc_order: Vec::new() };
        assert(s@.cells =~= Map::<Seq<char>, CellState>::empty());
        assert(s@.order =~= Seq::<Seq<char>>::empty());
        s
    }

    /// Adds a cell under its id (replacing a cell with the same id) and
    /// appends the id to the run order.
    pub fn add(&mut self, cell: SubleqCell)
        ensures
            final(self)@ == (SheetState {
                cells: old(self)@.cells.insert(cell.id@, cell@),
                order: old(self)@.order.push(cell.id@),
            }),
    {
        let ghost c = cell@;
        self.pc_order.push(cell.id.clone());
        let id = cell.id.clone();
        self.cells.insert(id, cell);
        assert(self@.cells =~= old(self)@.cells.insert(c.id, c));
        assert(self@.order =~= old(self)@.order.push(c.id));
    }

    /// Runs every cell in the run order, returning each run cell's tick
    /// count by id, or the first cell error.
    pub fn run_all(&mut self) -> (r: Result<Store<String, u64>, String>)
        requires
            sheet_run(old(self)@.cells, old(self)@.order, 0, Map::empty()) is Some,
        ensures
            (ticks_result(r), final(self)@.cells) == sheet_run(
                old(self)@.cells,
                old(self)@.order,
                0,
                Map::empty(),
            ).unwrap(),
            final(self)@.order == old(self)@.order,
    {
        let ghost start = self@;
        let mut ticks: Store<String, u64> = Store::new();
        let order = self.pc_order.clone();
        assert(order@ =~= self.pc_order@);
        let mut i: usize = 0;
        while i < order.len()
            invariant
                start == old(self)@,
                order@ == self.pc_order@,
                self@.order == start.order,
                i <= order@.len(),
                sheet_run(self@.cells, start.order, i as nat, ticks@) == sheet_run(
                    start.cells,
                    start.order,
                    0,
                    Map::empty(),
                ),
                sheet_run(self@.cells, start.order, i as nat, ticks@) is Some,
            decreases order@.len() - i,
        {
            let id = &order[i];
            let ghost cells_before = self@.cells;
            let ghost ticks_before = ticks@;
            assert(start.order[i as int] == id@);
            match self.cells.remove(id) {
                Some(mut cell) => {
                    assert(cell@ == cells_before[id@]);
                    let t = cell.run();
                    let ghost c2 = cell@;
                    self.cells.insert(id.clone(), cell);
                    assert(self@.cells =~= cells_before.insert(id@, c2));
                    match t {
                        Ok(t) => {
                            ticks.insert(id.clone(), t);
                        },
                        Err(e) => {
                            return Err(e);
                        },
                    }
                },
                None => {
                    assert(self@.cells =~= cells_before);
                },
            }
            i = i + 1;
        }
        Ok(ticks)
    }
}

} // verus!
