//! The per-invocation execution context: lifecycle of an instance, the
//! cooperative timeout, the store of entity operations, and the arena heap.
use vstd::prelude::*;
use crate::arena::{ArenaHeap, ArenaView, alloc_step, arena_size_for, arena_wf, needs_arena};
use crate::error::{HostError, InstantiationError};
use crate::version::SemVer;

verus! {

/// How many `gas` calls pass between two looks at the clock.
pub const CHECKPOINT_INTERVAL: u64 = 100;

/// Where an instance stands: made, running its start function, ready for a
/// handler, running a handler, or done.
#[derive(Clone, Copy, Debug, PartialEq, Eq, Structural)]
pub enum Phase {
    NotStarted,
    Started,
    Ready,
    Invoking,
    Done,
}

/// The entity that an operation is on: its type and its id.
#[derive(Clone, Debug, PartialEq, Eq)]
pub struct EntityKey {
    pub entity_type: String,
    pub entity_id: String,
}

/// An operation on an entity: its new data, or its removal.
#[derive(Debug)]
pub enum EntityOp {
    Update(Vec<u8>),
    Remove,
}

/// The key of an entity as a pair of character sequences.
pub open spec fn key_view(k: EntityKey) -> (Seq<char>, Seq<char>) {
    (k.entity_type@, k.entity_id@)
}

/// What a handler leaves behind: its entity operations in the order they
/// were made, and the data sources it created.
#[derive(Debug)]
pub struct BlockState {
    pub entity_ops: Vec<(EntityKey, EntityOp)>,
    pub created_data_sources: Vec<String>,
}

impl BlockState {
    pub fn new() -> (r: BlockState)
        ensures
            r.entity_ops@.len() == 0,
            r.created_data_sources@.len() == 0,
    {
        BlockState { entity_ops: Vec::new(), created_data_sources: Vec::new() }
    }
}

/// The position of the last operation on the entity among the first `n`.
pub open spec fn last_op_on(ops: Seq<(EntityKey, EntityOp)>, key: (Seq<char>, Seq<char>), n: nat) -> Option<nat>
    decreases n,
{
    if n == 0 {
        None
    } else if key_view(ops[n - 1].0) == key {
        Some((n - 1) as nat)
    } else {
        last_op_on(ops, key, (n - 1) as nat)
    }
}

/// The observable state of a context.
pub struct ContextView {
    pub api_version: SemVer,
    pub handler_timeout: Option<u64>,
    pub phase: Phase,
    pub checkpoints: u64,
    pub heap: ArenaView,
    pub entity_ops: Seq<(EntityKey, EntityOp)>,
    pub created_data_sources: Seq<String>,
}

/// The state of one instance across its start function and one handler.
pub struct ExecutionContext {
    api_version: SemVer,
    handler_timeout: Option<u64>,
    phase: Phase,
    timeout_checkpoint_count: u64,
    heap: ArenaHeap,
    state: BlockState,
}

impl View for ExecutionContext {
    type V = ContextView;

    closed spec fn view(&self) -> ContextView {
        ContextView {
            api_version: self.api_version,
            handler_timeout: self.handler_timeout,
            phase: self.phase,
            checkpoints: self.timeout_checkpoint_count,
            heap: self.heap@,
            entity_ops: self.state.entity_ops@,
            created_data_sources: self.state.created_data_sources@,
        }
    }
}

impl ContextView {
    /// The store may not be changed until the start function has run.
    pub open spec fn running_start(self) -> bool {
        self.phase == Phase::NotStarted || self.phase == Phase::Started
    }
}

impl ExecutionContext {
    /// A context for a new instance. `handler_timeout` is in nanoseconds.
    pub fn new(api_version: SemVer, handler_timeout: Option<u64>) -> (r: ExecutionContext)
        ensures
            r@.api_version == api_version,
            r@.handler_timeout == handler_timeout,
            r@.phase == Phase::NotStarted,
            r@.checkpoints == 0,
            r@.heap == (ArenaView { start_ptr: 0, free_bytes: 0 }),
            r@.entity_ops.len() == 0,
            r@.created_data_sources.len() == 0,
    {
        ExecutionContext {
            api_version,
            handler_timeout,
            phase: Phase::NotStarted,
            timeout_checkpoint_count: 0,
            heap: ArenaHeap::new(),
            state: BlockState::new(),
        }
    }

    pub fn api_version(&self) -> (r: SemVer)
        ensures
            r == self@.api_version,
    {
        self.api_version
    }

    pub fn phase(&self) -> (r: Phase)
        ensures
            r == self@.phase,
    {
        self.phase
    }

    /// Whether the start function has not finished yet.
    pub fn running_start(&self) -> (r: bool)
        ensures
            r == self@.running_start(),
    {
        self.phase == Phase::NotStarted || self.phase == Phase::Started
    }

    /// How many `gas` calls have passed.
    pub fn checkpoint_count(&self) -> (r: u64)
        ensures
            r == self@.checkpoints,
    {
        self.timeout_checkpoint_count
    }

    /// Whether the next `gas` call looks at the clock: every
    /// `CHECKPOINT_INTERVAL`-th call, when a timeout is set.
    pub fn gas_reads_clock(&self) -> (r: bool)
        ensures
            r == (self@.checkpoints % CHECKPOINT_INTERVAL == 0 && self@.handler_timeout is Some),
    {
        self.timeout_checkpoint_count % CHECKPOINT_INTERVAL == 0 && self.handler_timeout.is_some()
    }

    /// The cooperative timeout check. `elapsed` is the time in nanoseconds
    /// since the handler started, read when `gas_reads_clock` said so. Fails
    /// with `HandlerTimeout` at a clock-reading call once it exceeds the
    /// timeout; otherwise counts the call.
    pub fn gas(&mut self, elapsed: Option<u64>) -> (r: Result<(), HostError>)
        requires
            old(self)@.checkpoints < u64::MAX,
        ensures
            ({
                let o = old(self)@;
                let timed_out = o.checkpoints % CHECKPOINT_INTERVAL == 0 && match (o.handler_timeout, elapsed) {
                    (Some(t), Some(e)) => e > t,
                    _ => false,
                };
                if timed_out {
                    r == Err::<(), HostError>(HostError::HandlerTimeout) && final(self)@ == o
                } else {
                    r == Ok::<(), HostError>(()) && final(self)@ == (ContextView { checkpoints: (o.checkpoints + 1) as u64, ..o })
                }
            }),
    {
        if self.timeout_checkpoint_count % CHECKPOINT_INTERVAL == 0 {
            if let Some(timeout) = self.handler_timeout {
                if let Some(e) = elapsed {
                    if e > timeout {
                        return Err(HostError::HandlerTimeout);
                    }
                }
            }
        }
        self.timeout_checkpoint_count = self.timeout_checkpoint_count + 1;
        Ok(())
    }

    /// The start function begins: the store stays read-only.
    pub fn begin_start(&mut self)
        requires
            old(self)@.phase == Phase::NotStarted,
        ensures
            final(self)@ == (ContextView { phase: Phase::Started, ..old(self)@ }),
    {
        self.phase = Phase::Started;
    }

    /// The start function returned: handlers may now run and change the
    /// store.
    pub fn finish_start(&mut self)
        requires
            old(self)@.phase == Phase::Started,
        ensures
            final(self)@ == (ContextView { phase: Phase::Ready, ..old(self)@ }),
    {
        self.phase = Phase::Ready;
    }

    /// A handler begins. An instance runs one handler: any other phase than
    /// `Ready` fails with `InstanceConsumed` and changes nothing.
    pub fn begin_handler(&mut self) -> (r: Result<(), InstantiationError>)
        ensures
            if old(self)@.phase == Phase::Ready {
                r is Ok && final(self)@ == (ContextView { phase: Phase::Invoking, ..old(self)@ })
            } else {
                r == Err::<(), InstantiationError>(InstantiationError::InstanceConsumed) && final(self)@ == old(self)@
            },
    {
        if self.phase == Phase::Ready {
            self.phase = Phase::Invoking;
            Ok(())
        } else {
            Err(InstantiationError::InstanceConsumed)
        }
    }

    /// The handler returned: hands over what it accumulated and leaves the
    /// instance done.
    pub fn finish_handler(&mut self) -> (r: BlockState)
        requires
            old(self)@.phase == Phase::Invoking,
        ensures
            r.entity_ops@ == old(self)@.entity_ops,
            r.created_data_sources@ == old(self)@.created_data_sources,
            final(self)@.phase == Phase::Done,
            final(self)@.entity_ops.len() == 0,
            final(self)@.created_data_sources.len() == 0,
            final(self)@.heap == old(self)@.heap,
            final(self)@.checkpoints == old(self)@.checkpoints,
    {
        let mut state = BlockState::new();
        std::mem::swap(&mut state, &mut self.state);
        self.phase = Phase::Done;
        state
    }

    /// `store.set`: records new data for the entity. Refused while the start
    /// function runs, with nothing recorded.
    pub fn store_set(&mut self, entity_type: String, entity_id: String, data: Vec<u8>) -> (r: Result<(), HostError>)
        ensures
            if old(self)@.running_start() {
                &&& r matches Err(HostError::HostImportError { function, message }) && function@ == "store.set"@
                &&& final(self)@ == old(self)@
            } else {
                &&& r is Ok
                &&& final(self)@ == (ContextView {
                    entity_ops: old(self)@.entity_ops.push((EntityKey { entity_type, entity_id }, EntityOp::Update(data))),
                    ..old(self)@
                })
            },
    {
        if self.running_start() {
            return Err(HostError::HostImportError {
                function: "store.set".to_string(),
                message: "store changes are not allowed while the start function runs".to_string(),
            });
        }
        self.state.entity_ops.push((EntityKey { entity_type, entity_id }, EntityOp::Update(data)));
        Ok(())
    }

    /// `store.remove`: records the removal of the entity. Refused while the
    /// start function runs, with nothing recorded.
    pub fn store_remove(&mut self, entity_type: String, entity_id: String) -> (r: Result<(), HostError>)
        ensures
            if old(self)@.running_start() {
                &&& r matches Err(HostError::HostImportError { function, message }) && function@ == "store.remove"@
                &&& final(self)@ == old(self)@
            } else {
                &&& r is Ok
                &&& final(self)@ == (ContextView {
                    entity_ops: old(self)@.entity_ops.push((EntityKey { entity_type, entity_id }, EntityOp::Remove)),
                    ..old(self)@
                })
            },
    {
        if self.running_start() {
            return Err(HostError::HostImportError {
                function: "store.remove".to_string(),
                message: "store changes are not allowed while the start function runs".to_string(),
            });
        }
        self.state.entity_ops.push((EntityKey { entity_type, entity_id }, EntityOp::Remove));
        Ok(())
    }

    /// `store.get` on the operations of this invocation: the last operation
    /// on the entity, or `None` when there is none.
    pub fn store_get(&self, entity_type: &String, entity_id: &String) -> (r: Option<&EntityOp>)
        ensures
            match last_op_on(self@.entity_ops, (entity_type@, entity_id@), self@.entity_ops.len()) {
                Some(i) => r == Some(&self@.entity_ops[i as int].1),
                None => r is None,
            },
    {
        let ops = &self.state.entity_ops;
        let mut n: usize = ops.len();
        while n > 0
            invariant
                n <= ops@.len(),
                ops@ == self@.entity_ops,
                last_op_on(ops@, (entity_type@, entity_id@), ops@.len()) == last_op_on(ops@, (entity_type@, entity_id@), n as nat),
            decreases n,
        {
            let entry = &ops[n - 1];
            if entry.0.entity_type == *entity_type && entry.0.entity_id == *entity_id {
                return Some(&entry.1);
            }
            n = n - 1;
        }
        None
    }

    /// `dataSource.create`: records a data source created by the handler.
    pub fn create_data_source(&mut self, name: String)
        ensures
            final(self)@ == (ContextView { created_data_sources: old(self)@.created_data_sources.push(name), ..old(self)@ }),
    {
        self.state.created_data_sources.push(name);
    }

    /// The arena size to request from the guest's allocator before placing
    /// `size` bytes, or `None` when they fit.
    pub fn arena_request(&self, size: u32) -> (r: Option<u32>)
        ensures
            r == (if needs_arena(self@.heap, size) { Some(arena_size_for(size)) } else { None::<u32> }),
    {
        self.heap.arena_request(size)
    }

    /// Places `size` bytes in guest memory through the arena heap; see
    /// `ArenaHeap::raw_new`.
    pub fn raw_new(&mut self, size: u32, new_arena: Option<u32>) -> (r: Result<u32, HostError>)
        ensures
            (final(self)@.heap, r) == alloc_step(old(self)@.heap, size, new_arena),
            final(self)@ == (ContextView { heap: final(self)@.heap, ..old(self)@ }),
            arena_wf(final(self)@.heap),
    {
        self.heap.raw_new(size, new_arena)
    }
}

} // verus!
