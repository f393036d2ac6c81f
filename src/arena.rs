//! Bump allocation of guest memory in arenas obtained from the guest's own
//! allocator.
use vstd::prelude::*;
use crate::error::HostError;

verus! {

/// The smallest arena requested from the guest's allocator.
pub const MIN_ARENA_SIZE: u32 = 10_000;

/// The state of the heap: the first free byte of the current arena and the
/// number of free bytes from there.
#[derive(Clone, Copy, Debug, PartialEq, Eq, Structural)]
pub struct ArenaView {
    pub start_ptr: u32,
    pub free_bytes: u32,
}

/// The size of the arena requested for an allocation of `size` bytes.
pub open spec fn arena_size_for(size: u32) -> u32 {
    if size > MIN_ARENA_SIZE {
        size
    } else {
        MIN_ARENA_SIZE
    }
}

/// Whether an allocation of `size` bytes needs a new arena.
pub open spec fn needs_arena(h: ArenaView, size: u32) -> bool {
    size > h.free_bytes
}

/// One allocation of `size` bytes: the next state and the result.
/// `new_arena` is what the guest's allocator returned when it was asked for
/// an arena, `None` when it failed.
pub open spec fn alloc_step(h: ArenaView, size: u32, new_arena: Option<u32>) -> (ArenaView, Result<u32, HostError>) {
    if !needs_arena(h, size) {
        (ArenaView { start_ptr: (h.start_ptr + size) as u32, free_bytes: (h.free_bytes - size) as u32 }, Ok(h.start_ptr))
    } else {
        match new_arena {
            None => (h, Err(HostError::SandboxMemoryFull)),
            Some(p) => if p + arena_size_for(size) > u32::MAX {
                (h, Err(HostError::SandboxMemoryAccess))
            } else {
                (
                    ArenaView { start_ptr: (p + size) as u32, free_bytes: (arena_size_for(size) - size) as u32 },
                    Ok(p),
                )
            },
        }
    }
}

/// The arena fits the 32-bit address space.
pub open spec fn arena_wf(h: ArenaView) -> bool {
    h.start_ptr + h.free_bytes <= u32::MAX
}

/// Guest memory after `bytes` are written at `ptr`.
pub open spec fn write_at(mem: Seq<u8>, ptr: int, bytes: Seq<u8>) -> Seq<u8> {
    mem.take(ptr) + bytes + mem.skip(ptr + bytes.len())
}

/// The `len` bytes of guest memory at `ptr`.
pub open spec fn read_at(mem: Seq<u8>, ptr: int, len: int) -> Seq<u8> {
    mem.subrange(ptr, ptr + len)
}

/// Whether the regions `[a, a + la)` and `[b, b + lb)` share no byte.
pub open spec fn disjoint(a: int, la: int, b: int, lb: int) -> bool {
    la == 0 || lb == 0 || a + la <= b || b + lb <= a
}

/// A sequence of allocations, each of some bytes and of what the guest's
/// allocator returns if it is asked for an arena, run from the heap `h0` on
/// the memory `mem0`; the bytes of each successful allocation are written at
/// its pointer. Gives the final heap, the final memory and the pointer of each
/// allocation (`None` where it failed).
pub open spec fn run_allocs(h0: ArenaView, reqs: Seq<(Seq<u8>, Option<u32>)>, mem0: Seq<u8>) -> (ArenaView, Seq<u8>, Seq<Option<u32>>)
    decreases reqs.len(),
{
    if reqs.len() == 0 {
        (h0, mem0, Seq::empty())
    } else {
        let (h, mem, ptrs) = run_allocs(h0, reqs.drop_last(), mem0);
        let (bytes, arena) = reqs.last();
        let (h2, r) = alloc_step(h, bytes.len() as u32, arena);
        match r {
            Ok(p) => (h2, write_at(mem, p as int, bytes), ptrs.push(Some(p))),
            Err(_) => (h2, mem, ptrs.push(None)),
        }
    }
}

/// Every arena that the guest's allocator hands out during the run lies in
/// memory and overlaps no allocation made before it.
pub open spec fn arenas_fresh(h0: ArenaView, reqs: Seq<(Seq<u8>, Option<u32>)>, mem0: Seq<u8>) -> bool
    decreases reqs.len(),
{
    if reqs.len() == 0 {
        true
    } else {
        let prev = reqs.drop_last();
        let (h, mem, ptrs) = run_allocs(h0, prev, mem0);
        let (bytes, arena) = reqs.last();
        &&& arenas_fresh(h0, prev, mem0)
        &&& needs_arena(h, bytes.len() as u32) ==> match arena {
            Some(p) => p + arena_size_for(bytes.len() as u32) <= mem0.len() && forall|j: int|
                0 <= j < ptrs.len() ==> (#[trigger] ptrs[j] matches Some(q) ==> disjoint(
                    p as int,
                    arena_size_for(bytes.len() as u32) as int,
                    q as int,
                    prev[j].0.len() as int,
                )),
            None => true,
        }
    }
}

/// What holds after each prefix of a run: every allocation so far lies in
/// memory, outside the free part of the current arena, and still holds its
/// bytes.
spec fn run_inv(h: ArenaView, mem: Seq<u8>, ptrs: Seq<Option<u32>>, reqs: Seq<(Seq<u8>, Option<u32>)>, mem0: Seq<u8>) -> bool {
    &&& ptrs.len() == reqs.len()
    &&& mem.len() == mem0.len()
    &&& arena_wf(h)
    &&& h.start_ptr + h.free_bytes <= mem.len()
    &&& forall|j: int| 0 <= j < ptrs.len() ==> (#[trigger] ptrs[j] matches Some(q) ==> {
        &&& q + reqs[j].0.len() <= mem.len()
        &&& disjoint(q as int, reqs[j].0.len() as int, h.start_ptr as int, h.free_bytes as int)
        &&& read_at(mem, q as int, reqs[j].0.len() as int) == reqs[j].0
    })
}

proof fn lemma_write_keeps_disjoint(mem: Seq<u8>, p: int, bytes: Seq<u8>, q: int, len: int)
    requires
        0 <= p,
        p + bytes.len() <= mem.len(),
        0 <= q,
        0 <= len,
        q + len <= mem.len(),
        disjoint(p, bytes.len() as int, q, len),
    ensures
        write_at(mem, p, bytes).len() == mem.len(),
        read_at(write_at(mem, p, bytes), q, len) == read_at(mem, q, len),
        read_at(write_at(mem, p, bytes), p, bytes.len() as int) == bytes,
{
    let w = write_at(mem, p, bytes);
    assert(w.len() == mem.len());
    assert(read_at(w, q, len) =~= read_at(mem, q, len));
    assert(read_at(w, p, bytes.len() as int) =~= bytes);
}

proof fn lemma_run_inv(h0: ArenaView, reqs: Seq<(Seq<u8>, Option<u32>)>, mem0: Seq<u8>)
    requires
        h0 == (ArenaView { start_ptr: 0, free_bytes: 0 }),
        forall|i: int| 0 <= i < reqs.len() ==> (#[trigger] reqs[i]).0.len() <= u32::MAX,
        arenas_fresh(h0, reqs, mem0),
    ensures
        ({
            let (h, mem, ptrs) = run_allocs(h0, reqs, mem0);
            run_inv(h, mem, ptrs, reqs, mem0)
        }),
    decreases reqs.len(),
{
    if reqs.len() > 0 {
        let prev = reqs.drop_last();
        assert forall|i: int| 0 <= i < prev.len() implies (#[trigger] prev[i]).0.len() <= u32::MAX by {
            assert(prev[i] == reqs[i]);
        }
        lemma_run_inv(h0, prev, mem0);
        let (h, mem, ptrs) = run_allocs(h0, prev, mem0);
        let (bytes, arena) = reqs.last();
        let size = bytes.len() as u32;
        assert(bytes.len() <= u32::MAX) by {
            assert(reqs.last() == reqs[reqs.len() - 1]);
        }
        let (h2, r) = alloc_step(h, size, arena);
        let (h3, mem3, ptrs3) = run_allocs(h0, reqs, mem0);
        assert(h3 == h2);
        if let Ok(p) = r {
            assert(mem3 == write_at(mem, p as int, bytes));
            assert(ptrs3 == ptrs.push(Some(p)));
            if needs_arena(h, size) {
                assert(arena == Some(p));
                assert(p + arena_size_for(size) <= mem0.len());
            }
            assert(p + bytes.len() <= mem.len());
            assert forall|j: int| 0 <= j < ptrs3.len() implies (#[trigger] ptrs3[j] matches Some(q) ==> {
                &&& q + reqs[j].0.len() <= mem3.len()
                &&& disjoint(q as int, reqs[j].0.len() as int, h2.start_ptr as int, h2.free_bytes as int)
                &&& read_at(mem3, q as int, reqs[j].0.len() as int) == reqs[j].0
            }) by {
                if j < ptrs.len() {
                    assert(ptrs3[j] == ptrs[j]);
                    assert(reqs[j] == prev[j]);
                    if let Some(q) = ptrs[j] {
                        lemma_write_keeps_disjoint(mem, p as int, bytes, q as int, reqs[j].0.len() as int);
                    }
                } else {
                    assert(reqs[j] == reqs.last());
                    lemma_write_keeps_disjoint(mem, p as int, bytes, p as int, 0);
                }
            }
        } else {
            assert(mem3 == mem);
            assert(ptrs3 == ptrs.push(None));
            assert forall|j: int| 0 <= j < ptrs3.len() implies (#[trigger] ptrs3[j] matches Some(q) ==> {
                &&& q + reqs[j].0.len() <= mem3.len()
                &&& disjoint(q as int, reqs[j].0.len() as int, h2.start_ptr as int, h2.free_bytes as int)
                &&& read_at(mem3, q as int, reqs[j].0.len() as int) == reqs[j].0
            }) by {
                if j < ptrs.len() {
                    assert(ptrs3[j] == ptrs[j]);
                    assert(reqs[j] == prev[j]);
                }
            }
        }
    }
}

/// Reading back: run from a new heap, where every arena that the guest's
/// allocator hands out lies in memory and overlaps no earlier allocation,
/// each successful allocation still holds its bytes at the end, across arena
/// boundaries.
pub proof fn lemma_allocations_read_back(h0: ArenaView, reqs: Seq<(Seq<u8>, Option<u32>)>, mem0: Seq<u8>)
    requires
        h0 == (ArenaView { start_ptr: 0, free_bytes: 0 }),
        forall|i: int| 0 <= i < reqs.len() ==> (#[trigger] reqs[i]).0.len() <= u32::MAX,
        arenas_fresh(h0, reqs, mem0),
    ensures
        ({
            let (h, mem, ptrs) = run_allocs(h0, reqs, mem0);
            &&& ptrs.len() == reqs.len()
            &&& forall|i: int| 0 <= i < reqs.len() ==> (#[trigger] ptrs[i] matches Some(p) ==> read_at(
                mem,
                p as int,
                reqs[i].0.len() as int,
            ) == reqs[i].0)
        }),
{
    lemma_run_inv(h0, reqs, mem0);
}

/// A sequence of allocations, each of a size and of what the guest's
/// allocator returns if it is asked for an arena, run from the heap `h0`.
/// Gives the final heap, the number of times the guest's allocator was
/// asked, the total size, and the size of the current arena.
pub open spec fn count_allocs(h0: ArenaView, reqs: Seq<(u32, Option<u32>)>) -> (ArenaView, nat, nat, nat)
    decreases reqs.len(),
{
    if reqs.len() == 0 {
        (h0, 0, 0, h0.free_bytes as nat)
    } else {
        let (h, calls, total, arena) = count_allocs(h0, reqs.drop_last());
        let (size, new_arena) = reqs.last();
        let h2 = alloc_step(h, size, new_arena).0;
        if needs_arena(h, size) {
            (h2, calls + 1, total + size as nat, arena_size_for(size) as nat)
        } else {
            (h2, calls, total + size as nat, arena)
        }
    }
}

/// Every allocation of the sequence succeeds.
pub open spec fn allocs_succeed(h0: ArenaView, reqs: Seq<(u32, Option<u32>)>) -> bool {
    forall|i: int| 0 <= i < reqs.len() ==> {
        let h = (#[trigger] count_allocs(h0, reqs.take(i))).0;
        alloc_step(h, reqs[i].0, reqs[i].1).1 is Ok
    }
}

proof fn lemma_count_allocs_inv(h0: ArenaView, reqs: Seq<(u32, Option<u32>)>)
    requires
        h0 == (ArenaView { start_ptr: 0, free_bytes: 0 }),
        allocs_succeed(h0, reqs),
    ensures
        ({
            let (h, calls, total, arena) = count_allocs(h0, reqs);
            &&& h.free_bytes <= arena
            &&& calls == 0 ==> h.free_bytes == 0
            &&& calls > 0 ==> arena >= MIN_ARENA_SIZE && MIN_ARENA_SIZE * (calls - 1) + (arena - h.free_bytes) < 2 * total
        }),
    decreases reqs.len(),
{
    if reqs.len() > 0 {
        let prev = reqs.drop_last();
        assert forall|i: int| 0 <= i < prev.len() implies {
            let h = (#[trigger] count_allocs(h0, prev.take(i))).0;
            alloc_step(h, prev[i].0, prev[i].1).1 is Ok
        } by {
            assert(prev.take(i) =~= reqs.take(i));
            assert(prev[i] == reqs[i]);
            assert({
                let h = count_allocs(h0, reqs.take(i)).0;
                alloc_step(h, reqs[i].0, reqs[i].1).1 is Ok
            });
        }
        lemma_count_allocs_inv(h0, prev);
        let k = reqs.len() - 1;
        assert(reqs.take(k) =~= prev);
        assert({
            let h = count_allocs(h0, reqs.take(k)).0;
            alloc_step(h, reqs[k].0, reqs[k].1).1 is Ok
        });
    }
}

/// Amortized arena requests: a run from a new heap in which every
/// allocation succeeds asks the guest's allocator `calls` times for `total`
/// bytes with `MIN_ARENA_SIZE * (calls - 1) < 2 * total`: two arenas in a
/// row always hold more than `MIN_ARENA_SIZE` allocated bytes between them.
pub proof fn lemma_arena_requests_amortized(h0: ArenaView, reqs: Seq<(u32, Option<u32>)>)
    requires
        h0 == (ArenaView { start_ptr: 0, free_bytes: 0 }),
        allocs_succeed(h0, reqs),
    ensures
        ({
            let (h, calls, total, arena) = count_allocs(h0, reqs);
            calls == 0 || MIN_ARENA_SIZE * (calls - 1) < 2 * total
        }),
{
    lemma_count_allocs_inv(h0, reqs);
}

/// The host-side bump allocator over guest memory.
#[derive(Debug)]
pub struct ArenaHeap {
    arena_start_ptr: u32,
    arena_free_size: u32,
}

impl View for ArenaHeap {
    type V = ArenaView;

    closed spec fn view(&self) -> ArenaView {
        ArenaView { start_ptr: self.arena_start_ptr, free_bytes: self.arena_free_size }
    }
}

impl ArenaHeap {
    /// The current arena fits the 32-bit address space.
    #[verifier::type_invariant]
    spec fn inv(self) -> bool {
        self.arena_start_ptr + self.arena_free_size <= u32::MAX
    }

    /// A heap with no arena yet: the first allocation requests one.
    pub fn new() -> (r: ArenaHeap)
        ensures
            r@ == (ArenaView { start_ptr: 0, free_bytes: 0 }),
            arena_wf(r@),
    {
        ArenaHeap { arena_start_ptr: 0, arena_free_size: 0 }
    }

    /// The current arena: its first free byte and its free bytes.
    pub fn arena(&self) -> (r: ArenaView)
        ensures
            r == self@,
            arena_wf(r),
    {
        proof {
            use_type_invariant(self);
        }
        ArenaView { start_ptr: self.arena_start_ptr, free_bytes: self.arena_free_size }
    }

    /// The arena size to request from the guest's allocator before placing
    /// `size` bytes, or `None` when they fit in the current arena.
    pub fn arena_request(&self, size: u32) -> (r: Option<u32>)
        ensures
            r == (if needs_arena(self@, size) { Some(arena_size_for(size)) } else { None::<u32> }),
    {
        if size > self.arena_free_size {
            Some(if size > MIN_ARENA_SIZE { size } else { MIN_ARENA_SIZE })
        } else {
            None
        }
    }

    /// Places `size` bytes: in the current arena when they fit, else at the
    /// start of the new arena that the guest's allocator returned
    /// (`new_arena`, of the size that `arena_request` gave). The rest of the
    /// previous arena is left unused. Returns the guest pointer.
    pub fn raw_new(&mut self, size: u32, new_arena: Option<u32>) -> (r: Result<u32, HostError>)
        ensures
            (final(self)@, r) == alloc_step(old(self)@, size, new_arena),
            arena_wf(final(self)@),
    {
        proof {
            use_type_invariant(&*self);
        }
        if size > self.arena_free_size {
            let arena_size = if size > MIN_ARENA_SIZE { size } else { MIN_ARENA_SIZE };
            match new_arena {
                None => {
                    return Err(HostError::SandboxMemoryFull);
                },
                Some(p) => {
                    if p > u32::MAX - arena_size {
                        return Err(HostError::SandboxMemoryAccess);
                    }
                    *self = ArenaHeap { arena_start_ptr: p, arena_free_size: arena_size };
                },
            }
        }
        let ptr = self.arena_start_ptr;
        *self = ArenaHeap { arena_start_ptr: ptr + size, arena_free_size: self.arena_free_size - size };
        Ok(ptr)
    }
}

} // verus!
