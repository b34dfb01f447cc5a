//! Blocks: what a Quilt-Subleq instruction reads or writes.
//!
//! A typed pointer (`BlockRef`) names a memory cell of the local tape, a
//! Quilt cell by id, or a remote quilt's input-port. A block is the resolved
//! target behind such a pointer.

use vstd::prelude::*;
use crate::store::Store;
use crate::text::{nat_text, push_nat};

verus! {

/// How a port's bytes are framed.
#[derive(Debug, Clone, Copy, PartialEq, Eq, Hash)]
pub enum Encoding {
    Json,
    Bincode,
    Msgpack,
    Raw,
}

/// The name of an encoding, as it appears in port addresses.
pub open spec fn encoding_text(e: Encoding) -> Seq<char> {
    match e {
        Encoding::Json => "json"@,
        Encoding::Bincode => "bincode"@,
        Encoding::Msgpack => "msgpack"@,
        Encoding::Raw => "raw"@,
    }
}

impl Encoding {
    /// The encoding's name: `json`, `bincode`, `msgpack` or `raw`.
    pub fn to_string(&self) -> (s: String)
        ensures
            s@ == encoding_text(*self),
    {
        match self {
            Encoding::Json => String::from_str("json"),
            Encoding::Bincode => String::from_str("bincode"),
            Encoding::Msgpack => String::from_str("msgpack"),
            Encoding::Raw => String::from_str("raw"),
        }
    }
}

/// A typed pointer into the substrate.
#[derive(Debug, PartialEq, Eq, Hash)]
pub enum BlockRef {
    /// A local memory cell: an index into the integer tape.
    Memory(usize),
    /// A Quilt cell, by its id.
    Cell(String),
    /// A remote quilt's input-port: its address, the cell id or signature
    /// behind it, and how its bytes are framed.
    Port { url: String, sig: String, encoding: Encoding },
}

impl Clone for BlockRef {
    fn clone(&self) -> (r: Self)
        ensures
            r == *self,
    {
        match self {
            BlockRef::Memory(a) => BlockRef::Memory(*a),
            BlockRef::Cell(id) => BlockRef::Cell(id.clone()),
            BlockRef::Port { url, sig, encoding } => BlockRef::Port {
                url: url.clone(),
                sig: sig.clone(),
                encoding: *encoding,
            },
        }
    }
}

/// The text of a pointer: `mem://ADDR`, `cell://ID` or `port://URL?sig=SIG&enc=ENC`.
pub open spec fn block_ref_text(r: BlockRef) -> Seq<char> {
    match r {
        BlockRef::Memory(a) => "mem://"@ + nat_text(a as nat),
        BlockRef::Cell(id) => "cell://"@ + id@,
        BlockRef::Port { url, sig, encoding } => "port://"@ + url@ + "?sig="@ + sig@ + "&enc="@
            + encoding_text(encoding),
    }
}

impl BlockRef {
    /// The pointer's text, as it appears in messages.
    pub fn to_string(&self) -> (s: String)
        ensures
            s@ == block_ref_text(*self),
    {
        let mut s = String::new();
        match self {
            BlockRef::Memory(a) => {
                s.append("mem://");
                push_nat(&mut s, *a as u64);
            },
            BlockRef::Cell(id) => {
                s.append("cell://");
                s.append(id.as_str());
            },
            BlockRef::Port { url, sig, encoding } => {
                s.append("port://");
                s.append(url.as_str());
                s.append("?sig=");
                s.append(sig.as_str());
                s.append("&enc=");
                let e = encoding.to_string();
                s.append(e.as_str());
            },
        }
        assert(s@ =~= block_ref_text(*self));
        s
    }

    /// The cell id, for a cell pointer.
    pub fn as_cell_id(&self) -> (r: Option<String>)
        ensures
            match *self {
                BlockRef::Cell(id) => r == Some(id),
                _ => r is None,
            },
    {
        match self {
            BlockRef::Cell(id) => Some(id.clone()),
            _ => None,
        }
    }
}

/// A uniform read/write interface over every kind of block.
pub trait Block {
    /// Whether a write can proceed without overflow (a memory block at the
    /// last `usize` address cannot grow the tape to reach it).
    spec fn writable(&self) -> bool;

    /// The block's current value.
    fn read(&self) -> Result<i64, String>;

    /// Stores a value in the block.
    fn write(&mut self, v: i64) -> Result<(), String>
        requires
            old(self).writable(),
    ;

    /// The pointer this block was resolved from.
    fn block_ref(&self) -> &BlockRef;
}

/// The tape after a write of `v` at `addr`: grown with zeros up to `addr`
/// when it was shorter.
pub open spec fn tape_write(tape: Seq<i64>, addr: nat, v: i64) -> Seq<i64> {
    let grown = if addr < tape.len() {
        tape
    } else {
        tape + Seq::new((addr + 1 - tape.len()) as nat, |i: int| 0i64)
    };
    grown.update(addr as int, v)
}

/// A memory read: the tape cell, or an error for an address past the end.
pub open spec fn tape_read(tape: Seq<i64>, addr: nat) -> Result<i64, Seq<char>> {
    if addr < tape.len() {
        Ok(tape[addr as int])
    } else {
        Err("mem out of bounds: "@ + nat_text(addr))
    }
}

/// Law: reading a tape cell after writing it gives back the value written;
/// every other cell of the old tape keeps its value.
pub proof fn lemma_tape_read_after_write(tape: Seq<i64>, addr: nat, v: i64, other: nat)
    ensures
        tape_read(tape_write(tape, addr, v), addr) == Ok::<i64, Seq<char>>(v),
        other != addr && other < tape.len() ==> tape_read(tape_write(tape, addr, v), other)
            == tape_read(tape, other),
{
}

/// Law: reading a cell pointer after writing it gives back the value written.
pub proof fn lemma_cell_read_after_write(store: Map<Seq<char>, i64>, id: String, v: i64)
    ensures
        cell_read(store.insert(id@, v), BlockRef::Cell(id)) == Ok::<i64, Seq<char>>(v),
{
}

/// A memory block: one slot of the local integer tape.
pub struct MemoryBlock<'a> {
    pub block_ref: BlockRef,
    pub tape: &'a mut Vec<i64>,
    pub addr: usize,
}

impl<'a> Block for MemoryBlock<'a> {
    open spec fn writable(&self) -> bool {
        self.addr < usize::MAX
    }

    fn read(&self) -> (r: Result<i64, String>)
        ensures
            crate::subleq::text_result(r) == tape_read(old(self.tape)@, self.addr as nat),
    {
        if self.addr < self.tape.len() {
            Ok(self.tape[self.addr])
        } else {
            let mut m = String::from_str("mem out of bounds: ");
            push_nat(&mut m, self.addr as u64);
            Err(m)
        }
    }

    /// Writes the slot, growing the tape with zeros when it is too short.
    fn write(&mut self, v: i64) -> (r: Result<(), String>)
        ensures
            r is Ok,
            final(self).block_ref == old(self).block_ref,
            final(self).addr == old(self).addr,
            final(self).tape@ == tape_write(old(self).tape@, old(self).addr as nat, v),
            *final(final(self).tape) == *final(old(self).tape),
    {
        if self.addr >= self.tape.len() {
            self.tape.resize(self.addr + 1, 0);
        }
        let a = self.addr;
        self.tape.set(a, v);
        Ok(())
    }

    fn block_ref(&self) -> (r: &BlockRef)
        ensures
            *r == self.block_ref,
    {
        &self.block_ref
    }
}

/// A cell read: the cell's value, 0 for an id the store does not hold.
pub open spec fn cell_read(store: Map<Seq<char>, i64>, r: BlockRef) -> Result<i64, Seq<char>> {
    match r {
        BlockRef::Cell(id) => Ok(
            if store.contains_key(id@) {
                store[id@]
            } else {
                0
            },
        ),
        _ => Err("not a cell ref"@),
    }
}

/// A cell block: the integer value slot of a Quilt cell.
pub struct CellBlock<'a> {
    pub block_ref: BlockRef,
    pub store: &'a mut Store<String, i64>,
}

impl<'a> Block for CellBlock<'a> {
    open spec fn writable(&self) -> bool {
        true
    }

    fn read(&self) -> (r: Result<i64, String>)
        ensures
            crate::subleq::text_result(r) == cell_read(old(self.store)@, self.block_ref),
    {
        if let Some(id) = self.block_ref.as_cell_id() {
            match self.store.get(&id) {
                Some(v) => Ok(*v),
                None => Ok(0),
            }
        } else {
            Err(String::from_str("not a cell ref"))
        }
    }

    /// Stores the value under the cell's id.
    fn write(&mut self, v: i64) -> (r: Result<(), String>)
        ensures
            final(self).block_ref == old(self).block_ref,
            *final(final(self).store) == *final(old(self).store),
            match old(self).block_ref {
                BlockRef::Cell(id) => r is Ok && final(self).store@ == old(self).store@.insert(id@, v),
                _ => crate::subleq::text_result(r) == Err::<(), Seq<char>>("not a cell ref"@)
                    && final(self).store@ == old(self).store@,
            },
    {
        if let Some(id) = self.block_ref.as_cell_id() {
            self.store.insert(id, v);
            Ok(())
        } else {
            Err(String::from_str("not a cell ref"))
        }
    }

    fn block_ref(&self) -> (r: &BlockRef)
        ensures
            *r == self.block_ref,
    {
        &self.block_ref
    }
}

/// A local copy of a port's value.
#[derive(Debug, Clone, Copy)]
pub struct Buffer {
    value: i64,
}

impl View for Buffer {
    type V = i64;

    closed spec fn view(&self) -> i64 {
        self.value
    }
}

impl Buffer {
    pub fn new(value: i64) -> (b: Self)
        ensures
            b@ == value,
    {
        Buffer { value }
    }

    /// The buffered value.
    pub fn get(&self) -> (v: i64)
        ensures
            v == self@,
    {
        self.value
    }

    /// Replaces the buffered value.
    pub fn set(&mut self, v: i64)
        ensures
            final(self)@ == v,
    {
        self.value = v;
    }
}

/// A port block: a local buffer standing for a remote quilt's input-port.
pub struct PortBlock {
    pub block_ref: BlockRef,
    pub buffer: Buffer,
}

impl Block for PortBlock {
    open spec fn writable(&self) -> bool {
        true
    }

    fn read(&self) -> (r: Result<i64, String>)
        ensures
            r == Ok::<i64, String>(self.buffer@),
    {
        Ok(self.buffer.get())
    }

    /// Replaces the buffered value; nothing is sent to the remote quilt.
    fn write(&mut self, v: i64) -> (r: Result<(), String>)
        ensures
            r is Ok,
            final(self).block_ref == old(self).block_ref,
            final(self).buffer@ == v,
    {
        self.buffer.set(v);
        Ok(())
    }

    fn block_ref(&self) -> (r: &BlockRef)
        ensures
            *r == self.block_ref,
    {
        &self.block_ref
    }
}

} // verus!
