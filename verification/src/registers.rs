use vstd::prelude::*;

verus! {

/// Number of integer registers in RV32E.
pub const NUM_REGS: usize = 16;

/// The sixteen 32-bit integer registers; `x0` always reads as zero.
pub struct RegisterFile {
    regs: [u32; NUM_REGS],
}

impl View for RegisterFile {
    type V = Seq<u32>;

    closed spec fn view(&self) -> Seq<u32> {
        self.regs@
    }
}

/// The value of the register file after writing `val` to register `idx`:
/// writes to `x0` are discarded.
pub open spec fn regs_after_write(regs: Seq<u32>, idx: int, val: u32) -> Seq<u32> {
    if idx == 0 {
        regs
    } else {
        regs.update(idx, val)
    }
}

impl RegisterFile {
    #[verifier::type_invariant]
    spec fn x0_is_zero(&self) -> bool {
        self.regs@[0] == 0
    }

    /// A register file with every register zero.
    pub fn new() -> (rf: Self)
        ensures
            rf@ == Seq::new(NUM_REGS as nat, |i: int| 0u32),
    {
        let rf = RegisterFile { regs: [0; NUM_REGS] };
        assert(rf@ =~= Seq::new(NUM_REGS as nat, |i: int| 0u32));
        rf
    }

    /// The value of register `idx`.
    pub fn read(&self, idx: u8) -> (val: u32)
        requires
            idx < NUM_REGS,
        ensures
            val == self@[idx as int],
            self@.len() == NUM_REGS,
            self@[0] == 0,
            idx == 0 ==> val == 0,
    {
        proof {
            use_type_invariant(self);
        }
        self.regs[idx as usize]
    }

    /// Writes `val` to register `idx`; a write to `x0` is discarded.
    pub fn write(&mut self, idx: u8, val: u32)
        requires
            idx < NUM_REGS,
        ensures
            final(self)@ == regs_after_write(old(self)@, idx as int, val),
            final(self)@[0] == 0,
    {
        proof {
            use_type_invariant(&*self);
        }
        if idx != 0 {
            self.regs[idx as usize] = val;
        }
    }

    /// All sixteen registers, `x0` first.
    pub fn dump(&self) -> (regs: &[u32; NUM_REGS])
        ensures
            regs@ == self@,
    {
        &self.regs
    }
}

/// Reading a register after a write gives the written value, except that x0
/// stays zero; every other register keeps its value.
pub proof fn lemma_read_after_write(regs: Seq<u32>, idx: int, val: u32, other: int)
    requires
        regs.len() == NUM_REGS,
        regs[0] == 0,
        0 <= idx < NUM_REGS,
        0 <= other < NUM_REGS,
    ensures
        regs_after_write(regs, idx, val).len() == NUM_REGS,
        regs_after_write(regs, idx, val)[0] == 0,
        regs_after_write(regs, idx, val)[other] == if other == idx && idx != 0 {
            val
        } else {
            regs[other]
        },
{
}

} // verus!
