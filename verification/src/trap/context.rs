//! The trap context saved on a trap from user mode.
use vstd::prelude::*;

verus! {

/// Bit of `sstatus` that holds the previous privilege mode (SPP).
pub const SSTATUS_SPP_BIT: usize = 0x100;

/// Registers saved on a trap: the 32 general registers, `sstatus`, `sepc`,
/// and what the trampoline needs to get back into the kernel.
#[derive(Clone, Copy)]
pub struct TrapContext {
    pub x: [usize; 32],
    /// Raw bits of the `sstatus` register.
    pub sstatus: usize,
    pub sepc: usize,
    /// Token of the kernel address space.
    pub kernel_satp: usize,
    /// Top of the kernel stack of the task.
    pub kernel_sp: usize,
    /// Address of the trap handler.
    pub trap_handler: usize,
}

/// The legal bits of `sstatus` (the `riscv` crate's mask for the register:
/// one value for 32-bit targets, another for 64-bit ones).
pub open spec fn sstatus_legal_bits() -> usize {
    if usize::BITS == 32 {
        0x800d_e762usize
    } else {
        0x8000_0003_000d_e762u64 as usize
    }
}

/// `sstatus` with previous privilege User: `bits` with the SPP bit cleared,
/// keeping only the register's legal bits.
pub open spec fn sstatus_user_spp(bits: usize) -> usize {
    bits & sstatus_legal_bits() & !SSTATUS_SPP_BIT
}

/// `riscv::register::sstatus::Sstatus::set_spp` with `SPP::User`, on the
/// value `Sstatus::from_bits(bits)`, read back with `bits()`. Claimed:
/// `from_bits` and `bits` keep the legal bits (`bits & MASK`), and
/// `set_spp(User)` clears bit 8 and touches nothing else.
#[verifier::external_body]
fn sstatus_with_user_spp(bits: usize) -> (r: usize)
    ensures
        r == sstatus_user_spp(bits),
{
    let mut s = riscv::register::sstatus::Sstatus::from_bits(bits);
    s.set_spp(riscv::register::sstatus::SPP::User);
    s.bits()
}

impl TrapContext {
    /// Sets the user stack pointer (`x2`).
    pub fn set_sp(&mut self, sp: usize)
        ensures
            final(self).x@ == old(self).x@.update(2, sp),
            final(self).sstatus == old(self).sstatus,
            final(self).sepc == old(self).sepc,
            final(self).kernel_satp == old(self).kernel_satp,
            final(self).kernel_sp == old(self).kernel_sp,
            final(self).trap_handler == old(self).trap_handler,
    {
        self.x[2] = sp;
    }

    /// The context with which an application starts: all registers zero but
    /// the stack pointer, `sepc` at the entry point, previous privilege User;
    /// `sstatus` is the current value of the register (its legal bits) with
    /// SPP cleared.
    pub fn app_init_context(
        entry: usize,
        sp: usize,
        kernel_satp: usize,
        kernel_sp: usize,
        trap_handler: usize,
        sstatus: usize,
    ) -> (r: Self)
        ensures
            r.x@ == Seq::new(32, |i: int| if i == 2 { sp } else { 0usize }),
            r.sstatus == sstatus_user_spp(sstatus),
            r.sstatus & SSTATUS_SPP_BIT == 0,
            r.sepc == entry,
            r.kernel_satp == kernel_satp,
            r.kernel_sp == kernel_sp,
            r.trap_handler == trap_handler,
    {
        let bits = sstatus;
        let sstatus = sstatus_with_user_spp(bits);
        let ghost legal = sstatus_legal_bits();
        assert(sstatus & SSTATUS_SPP_BIT == 0) by (bit_vector)
            requires sstatus == bits & legal & !0x100usize, SSTATUS_SPP_BIT == 0x100usize;
        let mut cx = TrapContext { x: [0; 32], sstatus, sepc: entry, kernel_satp, kernel_sp, trap_handler };
        cx.set_sp(sp);
        assert(cx.x@ =~= Seq::new(32, |i: int| if i == 2 { sp } else { 0usize }));
        cx
    }
}

} // verus!
