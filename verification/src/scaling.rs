//! The scaling function: typed-pointer resolution.
//!
//! A scaling context owns (by borrow) the local tape, the cell store and the
//! port table. It resolves a `BlockRef` to the block the instruction reads or
//! writes, and runs one Subleq instruction over typed pointers.

use vstd::prelude::*;
use crate::block::{Block, BlockRef, Buffer, CellBlock, MemoryBlock, PortBlock, block_ref_text, cell_read, tape_read, tape_write};
use crate::subleq::{MachineState, step_spec, subtract, text_result};
use crate::store::Store;

verus! {

/// The key of a port in the port table: `URL::SIG`.
pub open spec fn port_key(url: Seq<char>, sig: Seq<char>) -> Seq<char> {
    url + "::"@ + sig
}

/// The value a port block starts from: the entry `URL::SIG`, else `SIG`, else 0.
pub open spec fn port_value(ports: Map<Seq<char>, i64>, url: Seq<char>, sig: Seq<char>) -> i64 {
    if ports.contains_key(port_key(url, sig)) {
        ports[port_key(url, sig)]
    } else if ports.contains_key(sig) {
        ports[sig]
    } else {
        0
    }
}

/// A resolved block of any kind.
pub enum ResolvedBlock<'b> {
    Memory(MemoryBlock<'b>),
    Cell(CellBlock<'b>),
    Port(PortBlock),
}

impl<'b> Block for ResolvedBlock<'b> {
    open spec fn writable(&self) -> bool {
        match self {
            ResolvedBlock::Memory(m) => m.writable(),
            _ => true,
        }
    }

    fn read(&self) -> (r: Result<i64, String>)
        ensures
            match self {
                ResolvedBlock::Memory(m) => text_result(r) == tape_read(m.tape@, m.addr as nat),
                ResolvedBlock::Cell(c) => text_result(r) == cell_read(c.store@, c.block_ref),
                ResolvedBlock::Port(p) => r == Ok::<i64, String>(p.buffer@),
            },
    {
        match self {
            ResolvedBlock::Memory(m) => m.read(),
            ResolvedBlock::Cell(c) => c.read(),
            ResolvedBlock::Port(p) => p.read(),
        }
    }

    fn write(&mut self, v: i64) -> (r: Result<(), String>)
        ensures
            match *old(self) {
                ResolvedBlock::Memory(m) => {
                    &&& r is Ok
                    &&& *final(self) is Memory
                    &&& (*final(self))->Memory_0.block_ref == m.block_ref
                    &&& (*final(self))->Memory_0.addr == m.addr
                    &&& (*final(self))->Memory_0.tape@ == tape_write(m.tape@, m.addr as nat, v)
                    &&& *final((*final(self))->Memory_0.tape) == *final(m.tape)
                },
                ResolvedBlock::Cell(c) => {
                    &&& *final(self) is Cell
                    &&& (*final(self))->Cell_0.block_ref == c.block_ref
                    &&& *final((*final(self))->Cell_0.store) == *final(c.store)
                    &&& match c.block_ref {
                        BlockRef::Cell(id) => r is Ok && (*final(self))->Cell_0.store@
                            == c.store@.insert(id@, v),
                        _ => text_result(r) == Err::<(), Seq<char>>("not a cell ref"@)
                            && (*final(self))->Cell_0.store@ == c.store@,
                    }
                },
                ResolvedBlock::Port(p) => {
                    &&& r is Ok
                    &&& *final(self) is Port
                    &&& (*final(self))->Port_0.block_ref == p.block_ref
                    &&& (*final(self))->Port_0.buffer@ == v
                },
            },
    {
        match self {
            ResolvedBlock::Memory(m) => m.write(v),
            ResolvedBlock::Cell(c) => c.write(v),
            ResolvedBlock::Port(p) => p.write(v),
        }
    }

    fn block_ref(&self) -> (r: &BlockRef)
        ensures
            *r == match self {
                ResolvedBlock::Memory(m) => m.block_ref,
                ResolvedBlock::Cell(c) => c.block_ref,
                ResolvedBlock::Port(p) => p.block_ref,
            },
    {
        match self {
            ResolvedBlock::Memory(m) => m.block_ref(),
            ResolvedBlock::Cell(c) => c.block_ref(),
            ResolvedBlock::Port(p) => p.block_ref(),
        }
    }
}

/// The resolution context: the local tape, the cell store, the port table.
pub struct ScalingContext<'a> {
    pub tape: &'a mut Vec<i64>,
    pub cells: &'a mut Store<String, i64>,
    pub ports: &'a mut Store<String, i64>,
}

impl<'a> ScalingContext<'a> {
    pub fn new(tape: &'a mut Vec<i64>, cells: &'a mut Store<String, i64>, ports: &'a mut Store<String, i64>) -> (ctx: Self)
        ensures
            *ctx.tape == *old(tape),
            *ctx.cells == *old(cells),
            *ctx.ports == *old(ports),
            *final(ctx.tape) == *final(tape),
            *final(ctx.cells) == *final(cells),
            *final(ctx.ports) == *final(ports),
    {
        ScalingContext { tape, cells, ports }
    }

    /// Resolves a cell pointer to a block over the cell store.
    pub fn cell<'b>(&'b mut self, r: &'b BlockRef) -> (res: Result<CellBlock<'b>, String>)
        ensures
            match *r {
                BlockRef::Cell(_) => {
                    &&& res is Ok
                    &&& res->Ok_0.block_ref == *r
                    &&& *res->Ok_0.store == *old(self).cells
                    &&& *final(self).cells == *final(res->Ok_0.store)
                },
                _ => text_result(res) == Err::<CellBlock<'b>, Seq<char>>(
                    "not a cell ref: "@ + block_ref_text(*r),
                ) && *final(self).cells == *old(self).cells,
            },
            *final(final(self).cells) == *final(old(self).cells),
            *final(self).tape == *old(self).tape,
            *final(self).ports == *old(self).ports,
            *final(final(self).tape) == *final(old(self).tape),
            *final(final(self).ports) == *final(old(self).ports),
    {
        match r {
            BlockRef::Cell(_) => Ok(CellBlock { block_ref: r.clone(), store: self.cells }),
            _ => {
                let mut m = String::from_str("not a cell ref: ");
                let t = r.to_string();
                m.append(t.as_str());
                Err(m)
            },
        }
    }

    /// Resolves a port pointer to a block holding a copy of the port's value:
    /// the entry `URL::SIG` of the port table, else the entry `SIG`, else 0.
    pub fn port<'b>(&'b mut self, r: &'b BlockRef) -> (res: Result<PortBlock, String>)
        ensures
            match *r {
                BlockRef::Port { url, sig, .. } => {
                    &&& res is Ok
                    &&& res->Ok_0.block_ref == *r
                    &&& res->Ok_0.buffer@ == port_value(old(self).ports@, url@, sig@)
                },
                _ => text_result(res) == Err::<PortBlock, Seq<char>>(
                    "not a port ref: "@ + block_ref_text(*r),
                ),
            },
            *final(self) == *old(self),
    {
        match r {
            BlockRef::Port { url, sig, .. } => {
                let mut key = url.clone();
                key.append("::");
                key.append(sig.as_str());
                let v = match self.ports.get(&key) {
                    Some(v) => *v,
                    None => match self.ports.get(sig) {
                        Some(v) => *v,
                        None => 0,
                    },
                };
                Ok(PortBlock { block_ref: r.clone(), buffer: Buffer::new(v) })
            },
            _ => {
                let mut m = String::from_str("not a port ref: ");
                let t = r.to_string();
                m.append(t.as_str());
                Err(m)
            },
        }
    }

    /// Resolves any pointer to its block: the scaling function proper.
    pub fn resolve<'b>(&'b mut self, r: &'b BlockRef) -> (res: Result<ResolvedBlock<'b>, String>)
        ensures
            res is Ok,
            match *r {
                BlockRef::Memory(addr) => {
                    &&& res->Ok_0 is Memory
                    &&& res->Ok_0->Memory_0.block_ref == *r
                    &&& res->Ok_0->Memory_0.addr == addr
                    &&& *res->Ok_0->Memory_0.tape == *old(self).tape
                    &&& *final(self).tape == *final(res->Ok_0->Memory_0.tape)
                    &&& *final(self).cells == *old(self).cells
                },
                BlockRef::Cell(_) => {
                    &&& res->Ok_0 is Cell
                    &&& res->Ok_0->Cell_0.block_ref == *r
                    &&& *res->Ok_0->Cell_0.store == *old(self).cells
                    &&& *final(self).cells == *final(res->Ok_0->Cell_0.store)
                    &&& *final(self).tape == *old(self).tape
                },
                BlockRef::Port { url, sig, .. } => {
                    &&& res->Ok_0 is Port
                    &&& res->Ok_0->Port_0.block_ref == *r
                    &&& res->Ok_0->Port_0.buffer@ == port_value(old(self).ports@, url@, sig@)
                    &&& *final(self).tape == *old(self).tape
                    &&& *final(self).cells == *old(self).cells
                },
            },
            *final(self).ports == *old(self).ports,
            *final(final(self).tape) == *final(old(self).tape),
            *final(final(self).cells) == *final(old(self).cells),
            *final(final(self).ports) == *final(old(self).ports),
    {
        match r {
            BlockRef::Memory(_) => match self.memory(r) {
                Ok(b) => Ok(ResolvedBlock::Memory(b)),
                Err(e) => Err(e),
            },
            BlockRef::Cell(_) => match self.cell(r) {
                Ok(b) => Ok(ResolvedBlock::Cell(b)),
                Err(e) => Err(e),
            },
            BlockRef::Port { .. } => match self.port(r) {
                Ok(b) => Ok(ResolvedBlock::Port(b)),
                Err(e) => Err(e),
            },
        }
    }

    /// Resolves a memory pointer to a block over the tape.
    pub fn memory<'b>(&'b mut self, r: &'b BlockRef) -> (res: Result<MemoryBlock<'b>, String>)
        ensures
            match *r {
                BlockRef::Memory(addr) => {
                    &&& res is Ok
                    &&& res->Ok_0.block_ref == *r
                    &&& res->Ok_0.addr == addr
                    &&& *res->Ok_0.tape == *old(self).tape
                    &&& *final(self).tape == *final(res->Ok_0.tape)
                },
                _ => text_result(res) == Err::<MemoryBlock<'b>, Seq<char>>(
                    "not a memory ref: "@ + block_ref_text(*r),
                ) && *final(self).tape == *old(self).tape,
            },
            *final(final(self).tape) == *final(old(self).tape),
            *final(self).cells == *old(self).cells,
            *final(self).ports == *old(self).ports,
            *final(final(self).cells) == *final(old(self).cells),
            *final(final(self).ports) == *final(old(self).ports),
    {
        match r {
            BlockRef::Memory(addr) => Ok(MemoryBlock { block_ref: r.clone(), tape: self.tape, addr: *addr }),
            _ => {
                let mut m = String::from_str("not a memory ref: ");
                let t = r.to_string();
                m.append(t.as_str());
                Err(m)
            },
        }
    }
}

/// What a pointer reads, over a tape, a cell store and a port table.
pub open spec fn ref_read(
    tape: Seq<i64>,
    cells: Map<Seq<char>, i64>,
    ports: Map<Seq<char>, i64>,
    r: BlockRef,
) -> Result<i64, Seq<char>> {
    match r {
        BlockRef::Memory(addr) => tape_read(tape, addr as nat),
        BlockRef::Cell(_) => cell_read(cells, r),
        BlockRef::Port { url, sig, .. } => Ok(port_value(ports, url@, sig@)),
    }
}

/// The contents a scaling context reaches.
pub struct Substrate {
    pub tape: Seq<i64>,
    pub cells: Map<Seq<char>, i64>,
    pub ports: Map<Seq<char>, i64>,
}

/// The pc `subleq` returns for a halting instruction.
pub open spec fn halt_signal() -> usize {
    usize::MAX
}

/// The pc `subleq` returns when the branch is not taken.
pub open spec fn no_branch_signal() -> usize {
    (usize::MAX - 1) as usize
}

/// One Subleq instruction over typed pointers: `B = B - A`, then the branch
/// target (or a signal), and the substrate it leaves. A write to a port
/// pointer lands in a local copy only, so the port table never changes.
pub open spec fn subleq_spec(a: BlockRef, b: BlockRef, c: BlockRef, s: Substrate) -> (
    Result<usize, Seq<char>>,
    Substrate,
) {
    if a == BlockRef::Memory(usize::MAX) {
        (Ok(halt_signal()), s)
    } else {
        match ref_read(s.tape, s.cells, s.ports, a) {
            Err(e) => (Err(e), s),
            Ok(va) => match ref_read(s.tape, s.cells, s.ports, b) {
                Err(e) => (Err(e), s),
                Ok(vb) => {
                    let nb = subtract(vb, va);
                    let s2 = match b {
                        BlockRef::Memory(addr) => Substrate {
                            tape: tape_write(s.tape, addr as nat, nb),
                            ..s
                        },
                        BlockRef::Cell(id) => Substrate { cells: s.cells.insert(id@, nb), ..s },
                        BlockRef::Port { .. } => s,
                    };
                    let r = if nb <= 0 {
                        match c {
                            BlockRef::Memory(pc) => Ok(pc),
                            _ => Err(
                                "branch target must be a memory (pc) ref, got: "@ + block_ref_text(c),
                            ),
                        }
                    } else {
                        Ok(no_branch_signal())
                    };
                    (r, s2)
                },
            },
        }
    }
}

/// Law: on memory pointers the scaling function performs the machine's own
/// instruction. For the triple (A, B, C) at the pc of a running machine, with
/// A and B on the tape, `subleq` leaves the tape that `step` leaves, touches
/// no cell or port, and returns the step's new pc exactly when the branch is
/// taken (the pc then being C), and the no-branch signal otherwise.
pub proof fn lemma_scaling_matches_machine(
    s: MachineState,
    cells: Map<Seq<char>, i64>,
    ports: Map<Seq<char>, i64>,
)
    requires
        !s.halted,
        s.mem.len() <= usize::MAX,
        s.pc + 2 < s.mem.len(),
        0 <= s.mem[s.pc as int] < s.mem.len(),
        0 <= s.mem[s.pc + 1] < s.mem.len(),
    ensures
        ({
            let a = s.mem[s.pc as int];
            let b = s.mem[s.pc + 1];
            let c = s.mem[s.pc + 2];
            let (r, sub) = subleq_spec(
                BlockRef::Memory(a as usize),
                BlockRef::Memory(b as usize),
                BlockRef::Memory(c as usize),
                Substrate { tape: s.mem, cells: cells, ports: ports },
            );
            let (r2, s2) = step_spec(s);
            let taken = subtract(s.mem[b as int], s.mem[a as int]) <= 0;
            &&& r2 == Ok::<bool, Seq<char>>(true)
            &&& sub.tape == s2.mem
            &&& sub.cells == cells
            &&& sub.ports == ports
            &&& taken ==> r == Ok::<usize, Seq<char>>(s2.pc) && s2.pc == c as usize
            &&& !taken ==> r == Ok::<usize, Seq<char>>(no_branch_signal()) && s2.pc == s.pc + 3
        }),
{
    let b = s.mem[s.pc + 1];
    let nb = subtract(s.mem[b as int], s.mem[s.mem[s.pc as int] as int]);
    assert(tape_write(s.mem, b as nat, nb) =~= s.mem.update(b as int, nb));
}

/// Law (port lookup order): a port pointer reads the entry `URL::SIG` when
/// the table has it, whatever the table holds under the bare `SIG`; else the
/// entry `SIG`; else 0.
pub proof fn lemma_port_lookup_order(ports: Map<Seq<char>, i64>, url: Seq<char>, sig: Seq<char>)
    ensures
        ports.contains_key(url + "::"@ + sig) ==> port_value(ports, url, sig) == ports[url + "::"@
            + sig],
        !ports.contains_key(url + "::"@ + sig) && ports.contains_key(sig) ==> port_value(
            ports,
            url,
            sig,
        ) == ports[sig],
        !ports.contains_key(url + "::"@ + sig) && !ports.contains_key(sig) ==> port_value(
            ports,
            url,
            sig,
        ) == 0,
{
}

/// The pointer `r` reads the value `v` in the substrate: a tape cell on the
/// tape, a cell's value (0 for an absent id), or a port's looked-up value.
pub open spec fn points_to(s: Substrate, r: BlockRef, v: i64) -> bool {
    match r {
        BlockRef::Memory(i) => i < s.tape.len() && s.tape[i as int] == v,
        BlockRef::Cell(id) => v == (if s.cells.contains_key(id@) {
            s.cells[id@]
        } else {
            0
        }),
        BlockRef::Port { url, sig, .. } => v == port_value(s.ports, url@, sig@),
    }
}

/// What an instruction leaves behind when B read `vb` and now holds `nb`:
/// a memory B holds `nb` on the tape, a cell B holds it in the store, a port
/// B changes nothing; the port table never changes.
pub open spec fn b_holds(s: Substrate, s2: Substrate, b: BlockRef, nb: i64) -> bool {
    &&& s2.ports == s.ports
    &&& match b {
        BlockRef::Memory(i) => s2.tape == s.tape.update(i as int, nb) && s2.cells == s.cells,
        BlockRef::Cell(id) => s2.cells == s.cells.insert(id@, nb) && s2.tape == s.tape,
        BlockRef::Port { .. } => s2 == s,
    }
}

/// Law (no branch): when A (not the halt sentinel) reads `va`, B reads `vb`
/// and `vb - va` (wrapping) is positive, `subleq` stores the difference in B
/// and returns the no-branch signal `usize::MAX - 1`, whatever kind of
/// pointer C is.
pub proof fn lemma_subleq_no_branch(a: BlockRef, b: BlockRef, c: BlockRef, s: Substrate, va: i64, vb: i64)
    requires
        a != BlockRef::Memory(usize::MAX),
        points_to(s, a, va),
        points_to(s, b, vb),
        vstd::wrapping::i64_specs::wrapping_sub(vb, va) > 0,
    ensures
        subleq_spec(a, b, c, s).0 == Ok::<usize, Seq<char>>((usize::MAX - 1) as usize),
        b_holds(s, subleq_spec(a, b, c, s).1, b, vstd::wrapping::i64_specs::wrapping_sub(vb, va)),
{
    let nb = vstd::wrapping::i64_specs::wrapping_sub(vb, va);
    if let BlockRef::Memory(i) = b {
        assert(tape_write(s.tape, i as nat, nb) =~= s.tape.update(i as int, nb));
    }
}

/// Law (branch): when A (not the halt sentinel) reads `va`, B reads `vb` and
/// `vb - va` (wrapping) is at most 0, `subleq` stores the difference in B and
/// returns the pc of C when C is a memory pointer, and an error otherwise.
pub proof fn lemma_subleq_branch(a: BlockRef, b: BlockRef, c: BlockRef, s: Substrate, va: i64, vb: i64)
    requires
        a != BlockRef::Memory(usize::MAX),
        points_to(s, a, va),
        points_to(s, b, vb),
        vstd::wrapping::i64_specs::wrapping_sub(vb, va) <= 0,
    ensures
        c matches BlockRef::Memory(pc) ==> subleq_spec(a, b, c, s).0 == Ok::<usize, Seq<char>>(pc),
        !(c is Memory) ==> subleq_spec(a, b, c, s).0 is Err,
        b_holds(s, subleq_spec(a, b, c, s).1, b, vstd::wrapping::i64_specs::wrapping_sub(vb, va)),
{
    let nb = vstd::wrapping::i64_specs::wrapping_sub(vb, va);
    if let BlockRef::Memory(i) = b {
        assert(tape_write(s.tape, i as nat, nb) =~= s.tape.update(i as int, nb));
    }
}

/// Law (halt and unreadable operands): the halt sentinel `Memory(usize::MAX)`
/// as A returns `usize::MAX` and changes nothing; a memory A or B off the
/// tape is an error that changes nothing.
pub proof fn lemma_subleq_halt_and_errors(a: BlockRef, b: BlockRef, c: BlockRef, s: Substrate)
    ensures
        a == BlockRef::Memory(usize::MAX) ==> subleq_spec(a, b, c, s) == (
            Ok::<usize, Seq<char>>(usize::MAX),
            s,
        ),
        a != BlockRef::Memory(usize::MAX) && (a matches BlockRef::Memory(i) && i >= s.tape.len())
            ==> subleq_spec(a, b, c, s).0 is Err && subleq_spec(a, b, c, s).1 == s,
        a != BlockRef::Memory(usize::MAX) && (b matches BlockRef::Memory(i) && i >= s.tape.len())
            ==> subleq_spec(a, b, c, s).0 is Err && subleq_spec(a, b, c, s).1 == s,
{
}

/// The scaling function: runs `subleq A B C` over typed pointers. Returns the
/// branch target when `B - A <= 0`, `usize::MAX - 1` when the branch is not
/// taken, and `usize::MAX` when A is the halt sentinel `Memory(usize::MAX)`.
pub fn subleq(a: &BlockRef, b: &BlockRef, c: &BlockRef, ctx: &mut ScalingContext) -> (r: Result<usize, String>)
    ensures
        (text_result(r), Substrate { tape: final(ctx).tape@, cells: final(ctx).cells@, ports: final(ctx).ports@ })
            == subleq_spec(*a, *b, *c, Substrate { tape: old(ctx).tape@, cells: old(ctx).cells@, ports: old(ctx).ports@ }),
        *final(final(ctx).tape) == *final(old(ctx).tape),
        *final(final(ctx).cells) == *final(old(ctx).cells),
        *final(final(ctx).ports) == *final(old(ctx).ports),
{
    if let BlockRef::Memory(x) = a {
        if *x == usize::MAX {
            return Ok(usize::MAX);
        }
    }
    let va = {
        let blk_a = match ctx.resolve(a) {
            Ok(blk) => blk,
            Err(e) => {
                return Err(e);
            },
        };
        match blk_a.read() {
            Ok(v) => v,
            Err(e) => {
                return Err(e);
            },
        }
    };
    let new_b = {
        let mut blk_b = match ctx.resolve(b) {
            Ok(blk) => blk,
            Err(e) => {
                return Err(e);
            },
        };
        let vb = match blk_b.read() {
            Ok(v) => v,
            Err(e) => {
                return Err(e);
            },
        };
        let nb = vb.wrapping_sub(va);
        proof {
            if blk_b is Memory {
                assert(blk_b->Memory_0.tape@.len() == blk_b->Memory_0.tape.len());
            }
        }
        match blk_b.write(nb) {
            Ok(_) => {},
            Err(e) => {
                return Err(e);
            },
        }
        nb
    };
    if new_b <= 0 {
        match c {
            BlockRef::Memory(pc) => Ok(*pc),
            _ => {
                let mut m = String::from_str("branch target must be a memory (pc) ref, got: ");
                let t = c.to_string();
                m.append(t.as_str());
                Err(m)
            },
        }
    } else {
        Ok(usize::MAX - 1)
    }
}

} // verus!
