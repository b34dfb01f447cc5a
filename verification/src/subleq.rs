//! Subleq: the one-instruction computer.
//!
//! The single instruction `subleq A B C` does
//!   mem[B] = mem[B] - mem[A]
//!   if mem[B] <= 0: pc = C
//!   else:           pc += 3
//! with A, B, C absolute tape addresses. A negative A halts the machine,
//! and so does a program counter that leaves no room for a full triple.

use vstd::prelude::*;
use crate::text::{int_text, nat_text, push_int, push_nat};

verus! {

/// The mathematical state of a machine.
pub struct MachineState {
    pub mem: Seq<i64>,
    pub pc: usize,
    pub halted: bool,
    pub ticks: u64,
}

/// A string result seen through the view of its error text.
pub open spec fn text_result<T>(r: Result<T, String>) -> Result<T, Seq<char>> {
    match r {
        Ok(v) => Ok(v),
        Err(e) => Err(e@),
    }
}

/// The message for an operand address outside the tape.
pub open spec fn addr_message(label: Seq<char>, addr: int, len: nat) -> Seq<char> {
    label + int_text(addr) + " out of bounds (mem="@ + nat_text(len) + ")"@
}

/// The new value of `mem[B]` when the tape holds `vb` at B and `va` at A.
pub open spec fn subtract(vb: i64, va: i64) -> i64 {
    vstd::wrapping::i64_specs::wrapping_sub(vb, va)
}

/// One step of the machine: the value `step` returns and the state it leaves.
pub open spec fn step_spec(s: MachineState) -> (Result<bool, Seq<char>>, MachineState) {
    let len = s.mem.len();
    if s.halted {
        (Ok(false), s)
    } else if s.pc + 2 >= len {
        (Ok(false), MachineState { halted: true, ..s })
    } else {
        let a = s.mem[s.pc as int];
        let b = s.mem[s.pc + 1];
        let c = s.mem[s.pc + 2];
        if a < 0 {
            (Ok(false), MachineState { halted: true, ..s })
        } else if b < 0 || b >= len {
            (Err(addr_message("addr_b "@, b as int, len)), s)
        } else if a >= len {
            (Err(addr_message("addr_a "@, a as int, len)), s)
        } else {
            let nb = subtract(s.mem[b as int], s.mem[a as int]);
            let pc = if nb <= 0 {
                c as usize
            } else {
                (s.pc + 3) as usize
            };
            (
                Ok(true),
                MachineState {
                    mem: s.mem.update(b as int, nb),
                    pc: pc,
                    halted: false,
                    ticks: (s.ticks + 1) as u64,
                },
            )
        }
    }
}

/// The states on which a step overflows: a program counter too close to
/// `usize::MAX` to add 2, or a tick counter that cannot count one more step.
pub open spec fn step_panics(s: MachineState) -> bool {
    &&& !s.halted
    &&& (s.pc + 2 > usize::MAX || (step_spec(s).0 == Ok::<bool, Seq<char>>(true) && s.ticks
        == u64::MAX))
}

/// Running from `s` with at most `fuel` steps: `None` when that is not
/// enough or a step on the way would overflow; otherwise the value `run`
/// returns and the state it leaves.
pub open spec fn run_spec(s: MachineState, fuel: nat) -> Option<
    (Result<u64, Seq<char>>, MachineState),
>
    decreases fuel,
{
    if s.halted {
        Some((Ok(s.ticks), s))
    } else if fuel == 0 || step_panics(s) {
        None
    } else {
        let (r, s2) = step_spec(s);
        match r {
            Err(e) => Some((Err(e), s2)),
            Ok(_) => run_spec(s2, (fuel - 1) as nat),
        }
    }
}

/// The run from `s` ends, without overflow, within some number of steps.
pub open spec fn run_ends(s: MachineState) -> bool {
    exists|fuel: nat| run_spec(s, fuel) is Some
}

/// The outcome of running from `s` (meaningful when `run_ends(s)`).
pub open spec fn run_outcome(s: MachineState) -> (Result<u64, Seq<char>>, MachineState) {
    run_spec(s, choose|fuel: nat| run_spec(s, fuel) is Some).unwrap()
}

/// More fuel never changes a finished run.
pub proof fn lemma_run_more_fuel(s: MachineState, f: nat, g: nat)
    requires
        run_spec(s, f) is Some,
        f <= g,
    ensures
        run_spec(s, g) == run_spec(s, f),
    decreases f,
{
    if !s.halted && f > 0 && !step_panics(s) {
        let (r, s2) = step_spec(s);
        if r is Ok {
            lemma_run_more_fuel(s2, (f - 1) as nat, (g - 1) as nat);
        }
    }
}

/// Law: a run that ends has one outcome, whatever fuel shows that it ends.
pub proof fn lemma_run_outcome_unique(s: MachineState, f: nat)
    requires
        run_spec(s, f) is Some,
    ensures
        run_ends(s),
        run_outcome(s) == run_spec(s, f).unwrap(),
{
    let g = choose|fuel: nat| run_spec(s, fuel) is Some;
    if f <= g {
        lemma_run_more_fuel(s, f, g);
    } else {
        lemma_run_more_fuel(s, g, f);
    }
}

/// Law: an instruction whose A and B name the same tape cell zeroes that cell
/// and always takes the branch to C.
pub proof fn lemma_same_operand_branches(s: MachineState)
    requires
        !s.halted,
        s.pc + 2 < s.mem.len(),
        0 <= s.mem[s.pc as int] < s.mem.len(),
        s.mem[s.pc + 1] == s.mem[s.pc as int],
    ensures
        step_spec(s) == (
            Ok::<bool, Seq<char>>(true),
            MachineState {
                mem: s.mem.update(s.mem[s.pc as int] as int, 0),
                pc: s.mem[s.pc + 2] as usize,
                halted: false,
                ticks: (s.ticks + 1) as u64,
            },
        ),
{
    let a = s.mem[s.pc as int];
    assert(subtract(s.mem[a as int], s.mem[a as int]) == 0);
}

/// Law: a halted machine is at rest: a step returns `Ok(false)` and changes
/// nothing, and a run returns its tick count at once.
pub proof fn lemma_halted_is_final(s: MachineState)
    requires
        s.halted,
    ensures
        step_spec(s) == (Ok::<bool, Seq<char>>(false), s),
        run_ends(s),
        run_outcome(s) == (Ok::<u64, Seq<char>>(s.ticks), s),
{
    assert(run_spec(s, 0) == Some((Ok::<u64, Seq<char>>(s.ticks), s)));
    lemma_run_outcome_unique(s, 0);
}

/// Law (the instruction): on a running machine whose pc leaves room for a
/// triple (A, B, C) with `0 <= A` and B on the tape, and A on the tape, a
/// step sets `mem[B]` to `mem[B] - mem[A]` (wrapping), changes no other
/// cell, jumps to C when the new value is at most 0 and to `pc + 3`
/// otherwise, counts one tick and returns `Ok(true)`.
pub proof fn lemma_step_executes(s: MachineState)
    requires
        !s.halted,
        s.mem.len() <= usize::MAX,
        s.ticks < u64::MAX,
        s.pc + 2 < s.mem.len(),
        0 <= s.mem[s.pc as int] < s.mem.len(),
        0 <= s.mem[s.pc + 1] < s.mem.len(),
    ensures
        ({
            let a = s.mem[s.pc as int] as int;
            let b = s.mem[s.pc + 1] as int;
            let c = s.mem[s.pc + 2];
            let nb = vstd::wrapping::i64_specs::wrapping_sub(s.mem[b], s.mem[a]);
            let (r, s2) = step_spec(s);
            &&& r == Ok::<bool, Seq<char>>(true)
            &&& s2.mem.len() == s.mem.len()
            &&& s2.mem[b] == nb
            &&& forall|i: int| 0 <= i < s.mem.len() && i != b ==> #[trigger] s2.mem[i] == s.mem[i]
            &&& nb <= 0 ==> s2.pc == c as usize
            &&& nb > 0 ==> s2.pc == s.pc + 3
            &&& !s2.halted
            &&& s2.ticks == s.ticks + 1
        }),
{
}

/// Law (the terminator): a running machine whose next triple has a negative
/// A halts: the step returns `Ok(false)`, sets `halted`, and leaves the tape,
/// the pc and the tick count as they were.
pub proof fn lemma_negative_a_halts(s: MachineState)
    requires
        !s.halted,
        s.pc + 2 < s.mem.len(),
        s.mem[s.pc as int] < 0,
    ensures
        step_spec(s).0 == Ok::<bool, Seq<char>>(false),
        step_spec(s).1.halted,
        step_spec(s).1.mem == s.mem,
        step_spec(s).1.pc == s.pc,
        step_spec(s).1.ticks == s.ticks,
{
}

/// Law (the end of the tape): a running machine whose pc leaves no room for
/// a full triple halts in the same way, whatever the tape holds.
pub proof fn lemma_short_tape_halts(s: MachineState)
    requires
        !s.halted,
        s.pc + 2 >= s.mem.len(),
    ensures
        step_spec(s).0 == Ok::<bool, Seq<char>>(false),
        step_spec(s).1.halted,
        step_spec(s).1.mem == s.mem,
        step_spec(s).1.pc == s.pc,
        step_spec(s).1.ticks == s.ticks,
{
}

/// Law (bad operands): a running machine whose next triple has `A >= 0` but
/// A or B off the tape fails the step with an error and changes nothing.
pub proof fn lemma_bad_operand_fails(s: MachineState)
    requires
        !s.halted,
        s.pc + 2 < s.mem.len(),
        s.mem[s.pc as int] >= 0,
        s.mem[s.pc as int] >= s.mem.len() || s.mem[s.pc + 1] < 0 || s.mem[s.pc + 1] >= s.mem.len(),
    ensures
        step_spec(s).0 is Err,
        step_spec(s).1 == s,
{
}

/// Law (a run is its steps): a halted machine's run returns its tick count
/// and changes nothing; for a running machine whose run ends, the first step
/// does not overflow, a failing first step is the run's result, and after a
/// successful first step the run goes on from where that step left off.
pub proof fn lemma_run_follows_steps(s: MachineState)
    requires
        run_ends(s),
    ensures
        s.halted ==> run_outcome(s) == (Ok::<u64, Seq<char>>(s.ticks), s),
        !s.halted ==> !step_panics(s),
        !s.halted && step_spec(s).0 is Err ==> run_outcome(s) == (
            Err::<u64, Seq<char>>(step_spec(s).0->Err_0),
            step_spec(s).1,
        ),
        !s.halted && step_spec(s).0 is Ok ==> run_ends(step_spec(s).1) && run_outcome(s)
            == run_outcome(step_spec(s).1),
{
    let f = choose|fuel: nat| run_spec(s, fuel) is Some;
    lemma_run_outcome_unique(s, f);
    if !s.halted {
        let (r, s2) = step_spec(s);
        if r is Ok {
            lemma_run_outcome_unique(s2, (f - 1) as nat);
        }
    }
}

/// A Subleq machine: a flat tape of integers and a program counter.
#[derive(Debug, Clone)]
pub struct Machine {
    pub mem: Vec<i64>,
    pub pc: usize,
    pub halted: bool,
    pub ticks: u64,
}

impl View for Machine {
    type V = MachineState;

    open spec fn view(&self) -> MachineState {
        MachineState { mem: self.mem@, pc: self.pc, halted: self.halted, ticks: self.ticks }
    }
}

fn operand_message(label: &str, addr: i64, len: usize) -> (m: String)
    ensures
        m@ == addr_message(label@, addr as int, len as nat),
{
    let mut m = String::new();
    m.append(label);
    push_int(&mut m, addr);
    m.append(" out of bounds (mem=");
    push_nat(&mut m, len as u64);
    m.append(")");
    proof {
        assert(m@ =~= addr_message(label@, addr as int, len as nat));
    }
    m
}

impl Machine {
    pub fn new(mem: Vec<i64>) -> (m: Self)
        ensures
            m@ == (MachineState { mem: mem@, pc: 0, halted: false, ticks: 0 }),
    {
        Machine { mem, pc: 0, halted: false, ticks: 0 }
    }

    /// Executes one instruction: `Ok(true)` if a step ran, `Ok(false)` if the
    /// machine is (now) halted, `Err` if an operand address is off the tape.
    pub fn step(&mut self) -> (r: Result<bool, String>)
        requires
            !step_panics(old(self)@),
        ensures
            (text_result(r), final(self)@) == step_spec(old(self)@),
    {
        if self.halted {
            return Ok(false);
        }
        let len = self.mem.len();
        if self.pc + 2 >= len {
            self.halted = true;
            return Ok(false);
        }
        let a = self.mem[self.pc];
        let b = self.mem[self.pc + 1];
        let c = self.mem[self.pc + 2];
        if a < 0 {
            self.halted = true;
            return Ok(false);
        }
        if b < 0 || (b as u64) >= (len as u64) {
            return Err(operand_message("addr_b ", b, len));
        }
        if (a as u64) >= (len as u64) {
            return Err(operand_message("addr_a ", a, len));
        }
        let addr_a = a as usize;
        let addr_b = b as usize;
        let nb = self.mem[addr_b].wrapping_sub(self.mem[addr_a]);
        self.mem.set(addr_b, nb);
        if nb <= 0 {
            self.pc = c as usize;
        } else {
            self.pc = self.pc + 3;
        }
        self.ticks = self.ticks + 1;
        Ok(true)
    }

    /// Runs until the machine halts, returning its tick count, or the first
    /// step error.
    pub fn run(&mut self) -> (r: Result<u64, String>)
        requires
            run_ends(old(self)@),
        ensures
            (text_result(r), final(self)@) == run_outcome(old(self)@),
    {
        let ghost start = self@;
        let ghost fuel0 = choose|fuel: nat| run_spec(start, fuel) is Some;
        let ghost mut fuel: nat = fuel0;
        while !self.halted
            invariant
                start == old(self)@,
                run_spec(self@, fuel) is Some,
                run_spec(self@, fuel) == run_spec(start, fuel0),
                run_outcome(start) == run_spec(start, fuel0).unwrap(),
            decreases fuel,
        {
            let ghost before = self@;
            let r = self.step();
            match r {
                Err(e) => {
                    assert(run_spec(before, fuel) == Some((Err::<u64, Seq<char>>(e@), self@)));
                    return Err(e);
                },
                Ok(_) => {},
            }
            proof {
                fuel = (fuel - 1) as nat;
            }
        }
        Ok(self.ticks)
    }

    /// The whole tape, or the window `lo..hi` of it clipped to its length.
    pub fn dump(&self, range: Option<(usize, usize)>) -> (r: &[i64])
        requires
            range matches Some((lo, hi)) ==> min_len(lo, self.mem.len()) <= min_len(
                hi,
                self.mem.len(),
            ),
        ensures
            r@ == match range {
                Some((lo, hi)) => self.mem@.subrange(
                    min_len(lo, self.mem.len()) as int,
                    min_len(hi, self.mem.len()) as int,
                ),
                None => self.mem@,
            },
    {
        match range {
            Some((lo, hi)) => {
                let len = self.mem.len();
                let l = if lo < len {
                    lo
                } else {
                    len
                };
                let h = if hi < len {
                    hi
                } else {
                    len
                };
                &self.mem[l..h]
            },
            None => self.mem.as_slice(),
        }
    }
}

/// The smaller of an index and a length.
pub open spec fn min_len(i: usize, len: usize) -> usize {
    if i < len {
        i
    } else {
        len
    }
}

/// The add-immediate snippet: the five cells `addr_A, addr_B, addr_C,
/// addr_B, -1` with `addr_A = 4` (the cell holding -1), `addr_B =
/// b_offset + 3` and `addr_C = 5`. Its first triple subtracts -1 from
/// `mem[addr_B]`; the literal `k` is not encoded in this layout.
pub fn add_immediate_program(b_offset: usize, k: i64) -> (p: Vec<i64>)
    requires
        b_offset + 3 <= usize::MAX,
    ensures
        p@ == seq![4i64, (b_offset + 3) as i64, 5i64, (b_offset + 3) as i64, -1i64],
{
    let _ = k;
    let target: i64 = (b_offset + 3) as i64;
    vec![4, target, 5, target, -1i64]
}

} // verus!
