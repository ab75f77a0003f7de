//! Signals that a fault raises on a task, and the errors they mean.
use vstd::prelude::*;

verus! {

/// Highest signal number.
pub const MAX_SIG: usize = 31;

pub const SIGINT: u32 = 1 << 2;
pub const SIGILL: u32 = 1 << 4;
pub const SIGABRT: u32 = 1 << 6;
pub const SIGFPE: u32 = 1 << 8;
pub const SIGKILL: u32 = 1 << 9;
pub const SIGSEGV: u32 = 1 << 11;

/// A set of pending signals: bit `n` stands for signal `n`.
#[derive(Clone, Copy, PartialEq, Eq, Structural)]
pub struct SignalFlags {
    pub bits: u32,
}

/// The exit code that the pending signals `bits` end a task with, the first
/// of SIGINT, SIGILL, SIGABRT, SIGFPE, SIGKILL, SIGSEGV that is set.
pub open spec fn signal_error_code(bits: u32) -> Option<i32> {
    if bits & SIGINT != 0 {
        Some(-2i32)
    } else if bits & SIGILL != 0 {
        Some(-4i32)
    } else if bits & SIGABRT != 0 {
        Some(-6i32)
    } else if bits & SIGFPE != 0 {
        Some(-8i32)
    } else if bits & SIGKILL != 0 {
        Some(-9i32)
    } else if bits & SIGSEGV != 0 {
        Some(-11i32)
    } else {
        None
    }
}

/// The message printed when the pending signals `bits` end a task.
pub open spec fn signal_error_message(bits: u32) -> &'static str {
    if bits & SIGINT != 0 {
        "Killed, SIGINT=2"
    } else if bits & SIGILL != 0 {
        "Illegal Instruction, SIGILL=4"
    } else if bits & SIGABRT != 0 {
        "Aborted, SIGABRT=6"
    } else if bits & SIGFPE != 0 {
        "Erroneous Arithmetic Operation, SIGFPE=8"
    } else if bits & SIGKILL != 0 {
        "Killed, SIGKILL=9"
    } else {
        "Segmentation Fault, SIGSEGV=11"
    }
}

impl SignalFlags {
    /// No signal pending.
    pub fn empty() -> (r: Self)
        ensures
            r.bits == 0,
    {
        SignalFlags { bits: 0 }
    }

    /// The set holding the signals of `bits`.
    pub fn from_bits(bits: u32) -> (r: Self)
        ensures
            r.bits == bits,
    {
        SignalFlags { bits }
    }

    /// Whether every signal of `other` is pending.
    pub fn contains(&self, other: SignalFlags) -> (r: bool)
        ensures
            r == (self.bits & other.bits == other.bits),
    {
        self.bits & other.bits == other.bits
    }

    /// Adds the signals of `other` (`|=`).
    pub fn insert(&mut self, other: SignalFlags)
        ensures
            final(self).bits == old(self).bits | other.bits,
    {
        self.bits = self.bits | other.bits;
    }

    /// The exit code and message of the first error signal pending, if any.
    pub fn check_error(&self) -> (r: Option<(i32, &'static str)>)
        ensures
            r matches Some((code, msg)) ==> signal_error_code(self.bits) == Some(code)
                && msg == signal_error_message(self.bits),
            r is None <==> signal_error_code(self.bits) is None,
    {
        if self.bits & SIGINT != 0 {
            Some((-2, "Killed, SIGINT=2"))
        } else if self.bits & SIGILL != 0 {
            Some((-4, "Illegal Instruction, SIGILL=4"))
        } else if self.bits & SIGABRT != 0 {
            Some((-6, "Aborted, SIGABRT=6"))
        } else if self.bits & SIGFPE != 0 {
            Some((-8, "Erroneous Arithmetic Operation, SIGFPE=8"))
        } else if self.bits & SIGKILL != 0 {
            Some((-9, "Killed, SIGKILL=9"))
        } else if self.bits & SIGSEGV != 0 {
            Some((-11, "Segmentation Fault, SIGSEGV=11"))
        } else {
            None
        }
    }
}

} // verus!
