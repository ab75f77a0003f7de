//! The messages that the kernel writes to the console about tasks.
use vstd::prelude::*;

verus! {

/// The ASCII decimal digits of `n`, most significant first.
pub open spec fn digits(n: nat) -> Seq<u8>
    decreases n,
{
    if n < 10 {
        seq![(48 + n) as u8]
    } else {
        digits(n / 10).push((48 + n % 10) as u8)
    }
}

/// `x` in decimal, with a leading `-` when it is negative.
pub open spec fn decimal(x: int) -> Seq<u8> {
    if x < 0 {
        seq![45u8] + digits((-x) as nat)
    } else {
        digits(x as nat)
    }
}

/// `[kernel] Idle process exit with exit_code `
pub const IDLE_EXIT_PREFIX: [u8; 42] = [
    91, 107, 101, 114, 110, 101, 108, 93, 32, 73, 100, 108, 101, 32, 112, 114, 111, 99, 101, 115, 115,
    32, 101, 120, 105, 116, 32, 119, 105, 116, 104, 32, 101, 120, 105, 116, 95, 99, 111, 100, 101, 32,
];

/// ` ...` and a line break.
pub const IDLE_EXIT_SUFFIX: [u8; 5] = [32, 46, 46, 46, 10];

/// The line written when the initial process exits with `code`:
/// `[kernel] Idle process exit with exit_code <code> ...`.
pub open spec fn idle_exit_message(code: i32) -> Seq<u8> {
    IDLE_EXIT_PREFIX@ + decimal(code as int) + IDLE_EXIT_SUFFIX@
}

/// The decimal digits of `n`.
fn digits_of(n: u64) -> (r: Vec<u8>)
    ensures
        r@ == digits(n as nat),
{
    let mut acc: Vec<u8> = Vec::new();
    let mut m = n;
    while m >= 10
        invariant
            digits(n as nat) == digits(m as nat) + acc@,
        decreases m,
    {
        let d = (48 + m % 10) as u8;
        let ghost old_acc = acc@;
        acc.insert(0, d);
        proof {
            assert(digits(m as nat) == digits((m / 10) as nat).push(d));
            assert(digits(m as nat) + old_acc =~= digits((m / 10) as nat) + acc@);
        }
        m = m / 10;
    }
    let d = (48 + m) as u8;
    acc.insert(0, d);
    assert(acc@ =~= digits(m as nat) + (acc@.subrange(1, acc@.len() as int)));
    acc
}

/// `x` in decimal.
pub fn decimal_of(x: i32) -> (r: Vec<u8>)
    ensures
        r@ == decimal(x as int),
{
    if x < 0 {
        let n = (0i64 - x as i64) as u64;
        let mut r: Vec<u8> = Vec::new();
        r.push(45u8);
        let mut ds = digits_of(n);
        r.append(&mut ds);
        assert(r@ =~= seq![45u8] + digits((-x) as nat));
        r
    } else {
        digits_of(x as u64)
    }
}

/// The line written when the initial process exits with `code`.
pub fn idle_exit_line(code: i32) -> (r: Vec<u8>)
    ensures
        r@ == idle_exit_message(code),
{
    let mut r: Vec<u8> = Vec::new();
    let mut i: usize = 0;
    while i < 42
        invariant
            i <= 42,
            r@ == IDLE_EXIT_PREFIX@.subrange(0, i as int),
        decreases 42 - i,
    {
        r.push(IDLE_EXIT_PREFIX[i]);
        i = i + 1;
        assert(r@ =~= IDLE_EXIT_PREFIX@.subrange(0, i as int));
    }
    let mut ds = decimal_of(code);
    r.append(&mut ds);
    let mut j: usize = 0;
    let ghost mid = r@;
    while j < 5
        invariant
            j <= 5,
            r@ == mid + IDLE_EXIT_SUFFIX@.subrange(0, j as int),
        decreases 5 - j,
    {
        r.push(IDLE_EXIT_SUFFIX[j]);
        j = j + 1;
        assert(r@ =~= mid + IDLE_EXIT_SUFFIX@.subrange(0, j as int));
    }
    assert(IDLE_EXIT_PREFIX@.subrange(0, 42) =~= IDLE_EXIT_PREFIX@);
    assert(IDLE_EXIT_SUFFIX@.subrange(0, 5) =~= IDLE_EXIT_SUFFIX@);
    assert(r@ =~= idle_exit_message(code));
    r
}

} // verus!
