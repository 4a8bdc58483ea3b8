//! The memory tape: a contiguous, zero-initialized, dynamically growable
//! buffer of 8-bit cells. Reading beyond the allocation yields zero; writing
//! beyond it grows the buffer to at least `max(index + 1, 2 * len, 30000)`
//! cells (the doubling clamped to the machine's address space), preserving
//! existing values and zero-filling the rest.

use vstd::prelude::*;

verus! {

/// The tape a fresh machine starts with: 30000 zeroed cells.
pub open spec fn init_tape() -> Seq<u8> {
    Seq::new(30000, |j: int| 0u8)
}

/// Reading a cell: zero beyond the current allocation.
pub open spec fn mem_read(mem: Seq<u8>, i: int) -> u8 {
    if 0 <= i < mem.len() {
        mem[i]
    } else {
        0
    }
}

/// The allocation a write beyond the current one grows to: at least one past
/// the index, at least double the current length (clamped to the address
/// space), and at least the 30000-cell floor.
pub open spec fn grow_len(len: int, i: int) -> int {
    let doubled = if 2 * len > usize::MAX {
        usize::MAX as int
    } else {
        2 * len
    };
    let lower = if doubled > 30000 {
        doubled
    } else {
        30000
    };
    if i + 1 > lower {
        i + 1
    } else {
        lower
    }
}

/// Writing a cell: in place when allocated, else after zero-filled growth.
pub open spec fn mem_write(mem: Seq<u8>, i: int, v: u8) -> Seq<u8> {
    if 0 <= i < mem.len() {
        mem.update(i, v)
    } else {
        (mem + Seq::new((grow_len(mem.len() as int, i) - mem.len()) as nat, |j: int| 0u8)).update(
            i,
            v,
        )
    }
}

/// Reading after a write sees the written value at that index and the old
/// tape everywhere else; growth only zero-fills, which reads the same as no
/// allocation at all. The written tape never outgrows the address space.
pub proof fn lemma_mem_write_read(mem: Seq<u8>, i: int, v: u8)
    requires
        0 <= i < usize::MAX,
        mem.len() <= usize::MAX,
    ensures
        mem_write(mem, i, v).len() <= usize::MAX,
        mem_write(mem, i, v).len() > i,
        forall|j: int|
            mem_read(#[trigger] mem_write(mem, i, v), j) == if j == i {
                v
            } else {
                mem_read(mem, j)
            },
{
    if i < mem.len() {
        assert forall|j: int|
            mem_read(mem_write(mem, i, v), j) == if j == i {
                v
            } else {
                mem_read(mem, j)
            } by {}
    } else {
        let grown = mem + Seq::new(
            (grow_len(mem.len() as int, i) - mem.len()) as nat,
            |j: int| 0u8,
        );
        assert(grown.len() == grow_len(mem.len() as int, i));
        assert forall|j: int|
            mem_read(mem_write(mem, i, v), j) == if j == i {
                v
            } else {
                mem_read(mem, j)
            } by {
            if j != i && 0 <= j < grown.len() {
                if j < mem.len() {
                    assert(grown[j] == mem[j]);
                } else {
                    assert(grown[j] == 0);
                }
            }
        }
    }
}

/// The memory tape.
pub struct Memory {
    cells: Vec<u8>,
}

impl View for Memory {
    type V = Seq<u8>;

    closed spec fn view(&self) -> Seq<u8> {
        self.cells@
    }
}

impl Memory {
    /// A fresh tape of 30000 zeroed cells.
    pub fn new() -> (m: Memory)
        ensures
            m@ == init_tape(),
    {
        let mut cells: Vec<u8> = Vec::new();
        while cells.len() < 30000
            invariant
                cells@.len() <= 30000,
                forall|j: int| 0 <= j < cells@.len() ==> cells@[j] == 0,
            decreases 30000 - cells@.len(),
        {
            cells.push(0);
        }
        proof {
            assert(cells@ =~= init_tape());
        }
        Memory { cells }
    }

    /// The cell at `i`: zero beyond the current allocation.
    pub fn read(&self, i: usize) -> (r: u8)
        ensures
            r == mem_read(self@, i as int),
    {
        if i < self.cells.len() {
            self.cells[i]
        } else {
            0
        }
    }

    /// Sets the cell at `i`, growing the tape first when `i` lies beyond the
    /// current allocation. The index must leave room for a length of
    /// `i + 1`, a machine limit.
    pub fn write(&mut self, i: usize, v: u8)
        requires
            i < usize::MAX,
        ensures
            final(self)@ == mem_write(old(self)@, i as int, v),
    {
        let ghost mem0 = self.cells@;
        if i >= self.cells.len() {
            let len = self.cells.len();
            let doubled = if len <= usize::MAX / 2 {
                len * 2
            } else {
                usize::MAX
            };
            let mut next = i + 1;
            if doubled > next {
                next = doubled;
            }
            if 30000 > next {
                next = 30000;
            }
            proof {
                assert(next as int == grow_len(mem0.len() as int, i as int));
            }
            while self.cells.len() < next
                invariant
                    mem0.len() <= self.cells@.len() <= next,
                    self.cells@.subrange(0, mem0.len() as int) == mem0,
                    forall|j: int|
                        mem0.len() <= j < self.cells@.len() ==> self.cells@[j] == 0,
                decreases next - self.cells@.len(),
            {
                let ghost c0 = self.cells@;
                self.cells.push(0);
                proof {
                    assert(self.cells@.subrange(0, mem0.len() as int) =~= c0.subrange(
                        0,
                        mem0.len() as int,
                    ));
                }
            }
            proof {
                assert(self.cells@ =~= mem0 + Seq::new(
                    (grow_len(mem0.len() as int, i as int) - mem0.len()) as nat,
                    |j: int| 0u8,
                ));
            }
        }
        self.cells[i] = v;
    }
}

} // verus!
