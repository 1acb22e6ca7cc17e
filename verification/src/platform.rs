//! The computations of the page cache backends: how many pages a range
//! covers, which pages a residency vector marks as cached, and how a long
//! advice is cut into chunks. The system calls themselves are made by the
//! caller.
use vstd::prelude::*;

verus! {

/// The largest range that one `F_RDADVISE` advice covers on macOS (1 GiB;
/// its count is a C `int`).
pub const RDADVISE_CHUNK: u64 = 1073741824;

/// The I/O priority that puts a Linux process in the idle class
/// (`IOPRIO_CLASS_IDLE << 13`, data 0).
pub const IOPRIO_IDLE: i32 = 24576;

/// The number of pages of `page_size` bytes that `len` bytes span (the
/// last one partly).
pub open spec fn spec_pages_for(len: nat, page_size: nat) -> nat {
    (len + page_size - 1) as nat / page_size
}

fn pages_for(len: usize, page_size: usize) -> (r: usize)
    requires
        page_size > 0,
    ensures
        r == spec_pages_for(len as nat, page_size as nat),
{
    let q = len / page_size;
    let m = len % page_size;
    proof {
        assert((len + page_size - 1) as nat / (page_size as nat) == if m == 0 {
            q as nat
        } else {
            (q + 1) as nat
        }) by (nonlinear_arith)
            requires
                page_size > 0,
                q == len / page_size,
                m == len % page_size,
        ;
        assert(q * page_size <= len) by (nonlinear_arith)
            requires
                page_size > 0,
                q == len / page_size,
        ;
        assert(q < usize::MAX || m == 0) by (nonlinear_arith)
            requires
                page_size > 0,
                q == len / page_size,
                m == len % page_size,
                len <= usize::MAX,
        ;
    }
    if m == 0 {
        q
    } else {
        q + 1
    }
}

/// The residency of each page from what `mincore` wrote for it: the page
/// is in memory where the lowest bit is set.
pub fn residency_from(flags: &Vec<u8>) -> (r: Vec<bool>)
    ensures
        r@.len() == flags@.len(),
        forall|i: int| 0 <= i < flags@.len() ==> r@[i] == (#[trigger] flags@[i] & 1u8 != 0),
{
    let mut r: Vec<bool> = Vec::new();
    let mut i: usize = 0;
    while i < flags.len()
        invariant
            i <= flags@.len(),
            r@.len() == i,
            forall|j: int| 0 <= j < i ==> r@[j] == (#[trigger] flags@[j] & 1u8 != 0),
        decreases flags@.len() - i,
    {
        r.push(flags[i] & 1 != 0);
        i += 1;
    }
    r
}

/// The chunks, of at most `chunk` bytes each, that cover the `len` bytes
/// from `offset`: contiguous, in order, all full but the last.
pub fn chunk_ranges(offset: u64, len: u64, chunk: u64) -> (r: Vec<(u64, u64)>)
    requires
        chunk > 0,
        offset + len <= u64::MAX,
    ensures
        (r@.len() == 0) == (len == 0),
        r@.len() > 0 ==> r@[0].0 == offset,
        r@.len() > 0 ==> r@.last().0 + r@.last().1 == offset + len,
        forall|i: int| 0 <= i < r@.len() ==> 0 < (#[trigger] r@[i]).1 <= chunk,
        forall|i: int| 0 <= i < r@.len() - 1 ==> (#[trigger] r@[i]).1 == chunk,
        forall|i: int|
            0 <= i < r@.len() - 1 ==> #[trigger] r@[i + 1].0 == r@[i].0 + r@[i].1,
        forall|i: int| 0 <= i < r@.len() ==> (#[trigger] r@[i]).0 == offset + i * chunk,
        r@.len() == (len + chunk - 1) / (chunk as int),
{
    let mut r: Vec<(u64, u64)> = Vec::new();
    let mut at = offset;
    let mut remaining = len;
    while remaining > 0
        invariant
            chunk > 0,
            at + remaining == offset + len,
            offset <= at,
            offset + len <= u64::MAX,
            (r@.len() == 0) == (at == offset),
            r@.len() > 0 ==> r@[0].0 == offset,
            r@.len() > 0 ==> r@.last().0 + r@.last().1 == at,
            forall|i: int| 0 <= i < r@.len() ==> 0 < (#[trigger] r@[i]).1 <= chunk,
            forall|i: int| 0 <= i < r@.len() - 1 ==> (#[trigger] r@[i]).1 == chunk,
            r@.len() > 0 && remaining > 0 ==> r@.last().1 == chunk,
            forall|i: int|
                0 <= i < r@.len() - 1 ==> #[trigger] r@[i + 1].0 == r@[i].0 + r@[i].1,
            forall|i: int| 0 <= i < r@.len() ==> (#[trigger] r@[i]).0 == offset + i * chunk,
            remaining > 0 ==> at == offset + r@.len() * chunk,
        decreases remaining,
    {
        let this = if remaining < chunk {
            remaining
        } else {
            chunk
        };
        let ghost old_r = r@;
        r.push((at, this));
        proof {
            assert forall|i: int| 0 <= i < r@.len() - 1 implies #[trigger] r@[i + 1].0 == r@[i].0
                + r@[i].1 by {
                if i + 1 < old_r.len() {
                    assert(r@[i + 1] == old_r[i + 1] && r@[i] == old_r[i]);
                }
            }
        }
        proof {
            let n = old_r.len();
            assert((n + 1) * chunk == n * chunk + chunk) by (nonlinear_arith);
        }
        at = at + this;
        remaining = remaining - this;
    }
    proof {
        let k = r@.len() as int;
        let c = chunk as int;
        if k == 0 {
            assert((len + c - 1) / c == 0) by (nonlinear_arith)
                requires
                    len == 0,
                    c > 0,
            ;
        } else {
            let l = r@.last().1 as int;
            assert(r@[k - 1].0 == offset + (k - 1) * c);
            assert(len == (k - 1) * c + l);
            assert((len + c - 1) / c == k) by (nonlinear_arith)
                requires
                    len == (k - 1) * c + l,
                    0 < l <= c,
                    k >= 1,
            ;
        }
    }
    r
}

/// The Linux page cache backend (`posix_fadvise`, `mincore`).
pub struct LinuxBackend {
    page_size: usize,
}

/// The macOS page cache backend (`fcntl(F_RDADVISE)`, `madvise`, `mincore`).
pub struct MacOSBackend {
    page_size: usize,
}

impl LinuxBackend {
    /// A backend for a system of the given page size.
    pub fn with_page_size(page_size: usize) -> (r: Self)
        requires
            page_size > 0,
        ensures
            r.page_size() == page_size,
    {
        LinuxBackend { page_size }
    }

    pub closed spec fn page_size_spec(&self) -> usize {
        self.page_size
    }

    #[verifier::when_used_as_spec(page_size_spec)]
    pub fn page_size(&self) -> (r: usize)
        ensures
            r == self.page_size_spec(),
    {
        self.page_size
    }

    /// The number of residency entries for a range of `len` bytes: one per
    /// page it spans.
    pub fn pages_for(&self, len: usize) -> (r: usize)
        requires
            self.page_size() > 0,
        ensures
            r == spec_pages_for(len as nat, self.page_size() as nat),
    {
        pages_for(len, self.page_size)
    }
}

impl MacOSBackend {
    /// A backend for a system of the given page size.
    pub fn with_page_size(page_size: usize) -> (r: Self)
        requires
            page_size > 0,
        ensures
            r.page_size() == page_size,
    {
        MacOSBackend { page_size }
    }

    pub closed spec fn page_size_spec(&self) -> usize {
        self.page_size
    }

    #[verifier::when_used_as_spec(page_size_spec)]
    pub fn page_size(&self) -> (r: usize)
        ensures
            r == self.page_size_spec(),
    {
        self.page_size
    }

    /// The number of residency entries for a range of `len` bytes: one per
    /// page it spans.
    pub fn pages_for(&self, len: usize) -> (r: usize)
        requires
            self.page_size() > 0,
        ensures
            r == spec_pages_for(len as nat, self.page_size() as nat),
    {
        pages_for(len, self.page_size)
    }

    /// The range to map for advising `len` bytes from `offset`: its start
    /// moved down to a page boundary, its length grown by as much.
    pub fn aligned_range(&self, offset: u64, len: u64) -> (r: (u64, u64))
        requires
            self.page_size() > 0,
            len + (offset as nat) % (self.page_size() as nat) <= u64::MAX,
        ensures
            r.0 == offset - (offset as nat) % (self.page_size() as nat),
            r.1 == len + (offset as nat) % (self.page_size() as nat),
    {
        let ps = self.page_size as u64;
        let page_offset = offset % ps;
        assert(page_offset <= offset) by (nonlinear_arith)
            requires
                ps > 0,
                page_offset == offset % ps,
        ;
        (offset - page_offset, len + page_offset)
    }
}

} // verus!
