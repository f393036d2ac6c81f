use graph_runtime_wasm::arena::{ArenaHeap, ArenaView, MIN_ARENA_SIZE};
use graph_runtime_wasm::error::HostError;

/// A guest whose allocator hands out fresh arenas one after the other.
struct Guest {
    memory: Vec<u8>,
    next: u32,
    allocations: usize,
}

impl Guest {
    fn new() -> Guest {
        Guest { memory: vec![0; 200_000], next: 16, allocations: 0 }
    }

    fn allocate(&mut self, size: u32) -> u32 {
        let p = self.next;
        self.next += size;
        self.allocations += 1;
        p
    }

    fn place(&mut self, heap: &mut ArenaHeap, bytes: &[u8]) -> u32 {
        let size = bytes.len() as u32;
        let arena = heap.arena_request(size).map(|a| self.allocate(a));
        let p = heap.raw_new(size, arena).unwrap();
        self.memory[p as usize..p as usize + bytes.len()].copy_from_slice(bytes);
        p
    }

    fn get(&self, p: u32, len: usize) -> Vec<u8> {
        self.memory[p as usize..p as usize + len].to_vec()
    }
}

#[test]
fn two_small_allocations_share_one_arena() {
    let mut heap = ArenaHeap::new();
    let mut guest = Guest::new();
    assert_eq!(heap.arena_request(4096), Some(10_000));
    let a = guest.place(&mut heap, &[1u8; 4096]);
    assert_eq!(guest.allocations, 1);
    assert_eq!(heap.arena_request(4096), None);
    let b = guest.place(&mut heap, &[2u8; 4096]);
    assert_eq!(guest.allocations, 1);
    assert_eq!(b, a + 4096);
    assert_eq!(heap.arena_request(4096), Some(10_000));
    guest.place(&mut heap, &[3u8; 4096]);
    assert_eq!(guest.allocations, 2);
}

#[test]
fn bytes_read_back_across_arena_boundaries() {
    let mut heap = ArenaHeap::new();
    let mut guest = Guest::new();
    let sizes = [3usize, 9_000, 2_000, 0, 15_000, 7, 9_999, 10_000, 1];
    let mut placed = Vec::new();
    for (i, n) in sizes.iter().enumerate() {
        let bytes: Vec<u8> = (0..*n).map(|k| (k * 7 + i) as u8).collect();
        let p = guest.place(&mut heap, &bytes);
        placed.push((p, bytes));
    }
    for (p, bytes) in placed.iter() {
        assert_eq!(&guest.get(*p, bytes.len()), bytes);
    }
}

#[test]
fn large_allocation_gets_an_arena_of_its_own_size() {
    let mut heap = ArenaHeap::new();
    assert_eq!(heap.arena_request(25_000), Some(25_000));
    assert_eq!(heap.raw_new(25_000, Some(100)), Ok(100));
    assert_eq!(heap.arena(), ArenaView { start_ptr: 25_100, free_bytes: 0 });
    assert_eq!(heap.arena_request(1), Some(MIN_ARENA_SIZE));
}

#[test]
fn allocator_failure_is_memory_full() {
    let mut heap = ArenaHeap::new();
    assert_eq!(heap.raw_new(10, None), Err(HostError::SandboxMemoryFull));
    assert_eq!(heap.arena(), ArenaView { start_ptr: 0, free_bytes: 0 });
}

#[test]
fn arena_past_the_address_space_is_refused() {
    let mut heap = ArenaHeap::new();
    assert_eq!(heap.raw_new(10, Some(u32::MAX - 100)), Err(HostError::SandboxMemoryAccess));
    assert_eq!(heap.raw_new(10, Some(u32::MAX - 10_000)), Ok(u32::MAX - 10_000));
}

#[test]
fn zero_bytes_fit_without_an_arena() {
    let mut heap = ArenaHeap::new();
    assert_eq!(heap.arena_request(0), None);
    assert_eq!(heap.raw_new(0, None), Ok(0));
}

#[test]
fn three_mid_sized_allocations_need_three_arenas() {
    // 3 × 6000 bytes: each allocation after the first exceeds what is left
    let mut heap = ArenaHeap::new();
    let mut guest = Guest::new();
    for _ in 0..3 {
        guest.place(&mut heap, &[7u8; 6000]);
    }
    assert_eq!(guest.allocations, 3);
    // MIN_ARENA_SIZE * (calls - 1) < 2 * total
    assert!((MIN_ARENA_SIZE as usize) * (guest.allocations - 1) < 2 * 18_000);
}

#[test]
fn amortized_bound_on_mixed_sizes() {
    let mut heap = ArenaHeap::new();
    let mut guest = Guest::new();
    let sizes = [1usize, 20_000, 1, 20_000, 9_999, 2, 5_000, 5_001, 0, 10_000];
    for n in sizes.iter() {
        guest.place(&mut heap, &vec![1u8; *n]);
    }
    let total: usize = sizes.iter().sum();
    assert_eq!(guest.allocations, 8);
    assert!((MIN_ARENA_SIZE as usize) * (guest.allocations - 1) < 2 * total);
}
