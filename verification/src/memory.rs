use vstd::prelude::*;

verus! {

/// `s` with `part` laid over it from index `at` on; the length stays that of `s`.
pub open spec fn overlay<T>(s: Seq<T>, at: int, part: Seq<T>) -> Seq<T> {
    Seq::new(
        s.len(),
        |j: int|
            if at <= j < at + part.len() {
                part[j - at]
            } else {
                s[j]
            },
    )
}

/// The 32-bit word held by cells `addr` (low half) and `addr + 1` (high half).
pub open spec fn word_at(cells: Seq<u16>, addr: int) -> u32 {
    (cells[addr] + cells[addr + 1] * 0x1_0000) as u32
}

/// The cells after storing the 32-bit word `val` at `addr`: the low half goes
/// to `addr`, the high half to `addr + 1`.
pub open spec fn cells_after_word_store(cells: Seq<u16>, addr: int, val: u32) -> Seq<u16> {
    cells.update(addr, (val % 0x1_0000) as u16).update(addr + 1, (val / 0x1_0000) as u16)
}

proof fn lemma_join_halves(lo: u32, hi: u32)
    by (bit_vector)
    requires
        lo < 0x1_0000,
        hi < 0x1_0000,
    ensures
        lo | (hi << 16) == lo + hi * 0x1_0000,
{
}

proof fn lemma_split_halves(val: u32)
    by (bit_vector)
    ensures
        val as u16 == val % 0x1_0000,
        (val >> 16) as u16 == val / 0x1_0000,
{
}

/// 16-bit cell-addressed memory.
/// Each address refers to a 16-bit cell. A 32-bit word spans two consecutive cells.
pub struct Memory {
    cells: Vec<u16>,
}

impl View for Memory {
    type V = Seq<u16>;

    closed spec fn view(&self) -> Seq<u16> {
        self.cells@
    }
}

impl Memory {
    /// A memory of `size_cells` cells, all zero.
    pub fn new(size_cells: usize) -> (mem: Self)
        ensures
            mem@ == Seq::new(size_cells as nat, |i: int| 0u16),
    {
        let cells: Vec<u16> = vec![0; size_cells];
        let mem = Memory { cells };
        assert(mem@ =~= Seq::new(size_cells as nat, |i: int| 0u16));
        mem
    }

    /// The number of cells.
    pub fn len(&self) -> (n: usize)
        ensures
            n == self@.len(),
    {
        self.cells.len()
    }

    /// The cell at `addr`.
    pub fn load16(&self, addr: u32) -> (val: u16)
        requires
            addr < self@.len(),
        ensures
            val == self@[addr as int],
    {
        self.cells[addr as usize]
    }

    /// Writes `val` to the cell at `addr`.
    pub fn store16(&mut self, addr: u32, val: u16)
        requires
            addr < old(self)@.len(),
        ensures
            final(self)@ == old(self)@.update(addr as int, val),
    {
        self.cells.set(addr as usize, val);
    }

    /// The word at `addr`: the low 16 bits from `addr`, the high 16 bits from `addr + 1`.
    pub fn load32(&self, addr: u32) -> (val: u32)
        requires
            addr + 1 < self@.len(),
        ensures
            val == word_at(self@, addr as int),
    {
        let a = addr as usize;
        assert(a + 1 < self.cells.len());
        let lo = self.cells[a] as u32;
        let hi = self.cells[a + 1] as u32;
        proof {
            lemma_join_halves(lo, hi);
        }
        lo | (hi << 16)
    }

    /// Writes the word `val` at `addr`: the low 16 bits to `addr`, the high 16 bits to `addr + 1`.
    pub fn store32(&mut self, addr: u32, val: u32)
        requires
            addr + 1 < old(self)@.len(),
        ensures
            final(self)@ == cells_after_word_store(old(self)@, addr as int, val),
    {
        proof {
            lemma_split_halves(val);
        }
        let a = addr as usize;
        assert(a + 1 < self.cells.len());
        self.cells.set(a, val as u16);
        self.cells.set(a + 1, (val >> 16) as u16);
    }
}

/// A cell stored at `addr` reads back unchanged, and no other cell changes.
pub proof fn lemma_cell_round_trip(cells: Seq<u16>, addr: int, val: u16, other: int)
    requires
        0 <= addr < cells.len(),
        0 <= other < cells.len(),
    ensures
        cells.update(addr, val)[addr] == val,
        other != addr ==> cells.update(addr, val)[other] == cells[other],
        cells.update(addr, val).len() == cells.len(),
{
}

/// A word stored at `addr` reads back unchanged, and so do the two cells that
/// hold it, low half first.
pub proof fn lemma_word_round_trip(cells: Seq<u16>, addr: int, val: u32)
    requires
        0 <= addr,
        addr + 1 < cells.len(),
    ensures
        word_at(cells_after_word_store(cells, addr, val), addr) == val,
        cells_after_word_store(cells, addr, val)[addr] == val % 0x1_0000,
        cells_after_word_store(cells, addr, val)[addr + 1] == val / 0x1_0000,
        cells_after_word_store(cells, addr, val).len() == cells.len(),
{
    let c = cells_after_word_store(cells, addr, val);
    assert(c[addr] + c[addr + 1] * 0x1_0000 == val) by (nonlinear_arith)
        requires
            c[addr] == val % 0x1_0000,
            c[addr + 1] == val / 0x1_0000,
    ;
}

/// Storing a word changes only its two cells.
pub proof fn lemma_word_store_frame(cells: Seq<u16>, addr: int, val: u32, other: int)
    requires
        0 <= addr,
        addr + 1 < cells.len(),
        0 <= other < cells.len(),
        other != addr,
        other != addr + 1,
    ensures
        cells_after_word_store(cells, addr, val)[other] == cells[other],
{
}

} // verus!
