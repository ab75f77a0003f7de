//! File-related system calls.
use vstd::prelude::*;
use crate::config::PAGE_SIZE;
use crate::mm::page_table::{chunks_cover, translated_byte_buffer, translated_byte_buffer_checked, UserMemory};
use crate::task::Kernel;
use crate::task::processor::current_task;

verus! {

/// The `len` bytes of `bytes` from `buf` on.
pub open spec fn user_bytes(bytes: Seq<u8>, buf: int, len: int) -> Seq<u8> {
    Seq::new(len as nat, |i: int| bytes[buf + i])
}

/// A continuation byte of a UTF-8 sequence.
pub open spec fn utf8_cont(b: u8) -> bool {
    0x80 <= b <= 0xBF
}

/// `s` is well-formed UTF-8 (the byte sequences that `core::str::from_utf8`
/// accepts: no overlong forms, no surrogates, nothing above U+10FFFF).
pub open spec fn utf8_valid(s: Seq<u8>) -> bool
    decreases s.len(),
{
    if s.len() == 0 {
        true
    } else {
        let b = s[0];
        if b < 0x80 {
            utf8_valid(s.skip(1))
        } else if 0xC2 <= b <= 0xDF {
            s.len() >= 2 && utf8_cont(s[1]) && utf8_valid(s.skip(2))
        } else if 0xE0 <= b <= 0xEF {
            &&& s.len() >= 3
            &&& (if b == 0xE0 {
                0xA0 <= s[1] <= 0xBF
            } else if b == 0xED {
                0x80 <= s[1] <= 0x9F
            } else {
                utf8_cont(s[1])
            })
            &&& utf8_cont(s[2])
            &&& utf8_valid(s.skip(3))
        } else if 0xF0 <= b <= 0xF4 {
            &&& s.len() >= 4
            &&& (if b == 0xF0 {
                0x90 <= s[1] <= 0xBF
            } else if b == 0xF4 {
                0x80 <= s[1] <= 0x8F
            } else {
                utf8_cont(s[1])
            })
            &&& utf8_cont(s[2])
            &&& utf8_cont(s[3])
            &&& utf8_valid(s.skip(4))
        } else {
            false
        }
    }
}

/// The bytes of `[buf, buf + len)` that lie in page `p`.
pub open spec fn page_piece(bytes: Seq<u8>, buf: int, len: int, p: int) -> Seq<u8> {
    let lo = if buf > p * PAGE_SIZE { buf } else { p * PAGE_SIZE };
    let hi = if buf + len < (p + 1) * PAGE_SIZE { buf + len } else { (p + 1) * PAGE_SIZE };
    bytes.subrange(lo, hi)
}

/// The part of `[buf, buf + len)` in each page is well-formed UTF-8 (each
/// such part is printed as a string of its own).
pub open spec fn pages_utf8(bytes: Seq<u8>, buf: int, len: int) -> bool {
    forall|p: int|
        buf / (PAGE_SIZE as int) <= p && p * PAGE_SIZE < buf + len ==> utf8_valid(
            #[trigger] page_piece(bytes, buf, len, p),
        )
}

/// File descriptor of standard output.
pub const FD_STDOUT: usize = 1;

/// What `sys_write` does, from kernel `o` to kernel `f`.
pub open spec fn sys_write_spec(o: Kernel, f: Kernel, buf: usize, len: usize, r: isize) -> bool {
    let m = o.tasks[o.processor.current.unwrap() as int].memory_set;
    if !m.range_mapped(buf as int, len as int) {
        r == -1 && f == o
    } else {
        sys_write_done(o, f, buf, len, r)
    }
}

/// `f` is `o` with the `len` bytes at `buf` of the current task appended to
/// the console, and `r` is `len`.
pub open spec fn sys_write_done(o: Kernel, f: Kernel, buf: usize, len: usize, r: isize) -> bool {
    &&& r == len as isize
    &&& (f.console@ == o.console@ + user_bytes(
            o.tasks[o.processor.current.unwrap() as int].memory_set.bytes@,
            buf as int,
            len as int))
    &&& f.tasks == o.tasks
    &&& f.task_manager == o.task_manager
    &&& f.pid2tcb == o.pid2tcb
    &&& f.processor == o.processor
    &&& f.apps == o.apps
    &&& f.shutdown == o.shutdown
    &&& f.kernel_root_ppn == o.kernel_root_ppn
    &&& f.trap_handler_addr == o.trap_handler_addr
    &&& f.trap_return_addr == o.trap_return_addr
    &&& f.sstatus == o.sstatus
    &&& f.free_pids == o.free_pids
}

/// Writes `len` bytes of the current task's buffer at `buf` to standard
/// output (the kernel's console buffer) and returns `len`; -1, writing
/// nothing, when some byte of the buffer is not mapped. A mapped buffer must
/// be, page by page, UTF-8.
pub fn sys_write(k: &mut Kernel, fd: usize, buf: usize, len: usize) -> (r: isize)
    requires
        old(k).wf(),
        old(k).processor.current is Some,
        fd == FD_STDOUT,
        old(k).tasks[old(k).processor.current.unwrap() as int].memory_set.range_mapped(buf as int, len as int)
            ==> pages_utf8(old(k).tasks[old(k).processor.current.unwrap() as int].memory_set.bytes@, buf as int, len as int),
    ensures
        final(k).wf(),
        sys_write_spec(*old(k), *final(k), buf, len, r),
{
    let cur = current_task(k).unwrap();
    proof {
        assert(k.tasks[cur as int].wf_at(cur as int, k.tasks.len() as int));
    }
    if translated_byte_buffer_checked(&k.tasks[cur].memory_set, buf, len).is_none() {
        return -1;
    }
    if len == 0 {
        assert(k.console@ =~= old(k).console@ + user_bytes(old(k).tasks[cur as int].memory_set.bytes@, buf as int, len as int));
        return 0;
    }
    let mut out = gather_user_bytes(&k.tasks[cur].memory_set, buf, len);
    assert(out@ =~= user_bytes(old(k).tasks[cur as int].memory_set.bytes@, buf as int, len as int));
    k.console.append(&mut out);
    len as isize
}

/// The bytes of the mapped user range `[buf, buf + len)`, read chunk by chunk.
fn gather_user_bytes(mem: &UserMemory, buf: usize, len: usize) -> (r: Vec<u8>)
    requires
        mem.wf(),
        len > 0,
        mem.range_mapped(buf as int, len as int),
    ensures
        buf + len <= mem.bytes.len(),
        r@ == mem.bytes@.subrange(buf as int, buf + len),
{
    assert(mem.is_mapped(buf + len - 1));
    let buffers = translated_byte_buffer(mem, buf, len);
    let ghost bytes = mem.bytes@;
    let mut out: Vec<u8> = Vec::new();
    let mut bi: usize = 0;
    let mut pos: usize = buf;
    assert(out@ =~= bytes.subrange(buf as int, pos as int));
    while bi < buffers.len()
        invariant
            chunks_cover(buffers@, buf as int, len as int),
            bi <= buffers.len(),
            buf <= pos <= buf + len,
            buf + len <= bytes.len(),
            bytes == mem.bytes@,
            buf + len <= mem.bytes.len(),
            bi < buffers.len() ==> buffers@[bi as int].0 == pos,
            bi == buffers.len() ==> pos == buf + len,
            out@ == bytes.subrange(buf as int, pos as int),
        decreases buffers.len() - bi,
    {
        let (addr, blen) = buffers[bi];
        proof {
            crate::syscall::process::lemma_chunks_bounded(buffers@, buf as int, len as int, bi as int);
        }
        let mut j: usize = 0;
        while j < blen
            invariant
                addr == pos,
                buf <= pos,
                pos + blen <= buf + len,
                buf + len <= bytes.len(),
                bytes == mem.bytes@,
                buf + len <= mem.bytes.len(),
                j <= blen,
                out@ == bytes.subrange(buf as int, pos + j),
            decreases blen - j,
        {
            out.push(mem.bytes[addr + j]);
            j = j + 1;
            assert(out@ =~= bytes.subrange(buf as int, pos + j));
        }
        pos = pos + blen;
        bi = bi + 1;
        proof {
            if bi < buffers.len() {
                assert(buffers@[bi - 1].0 + buffers@[bi - 1].1 == buffers@[bi as int].0);
            } else {
                assert(buffers@.last() == buffers@[bi - 1]);
            }
        }
    }
    out
}

} // verus!
