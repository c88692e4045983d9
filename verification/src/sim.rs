//! Reentrancy guards and Wasm memory accounting for simulated contract runs.
//!
//! An [`IngressLock`] is held by a callee for the duration of an external call;
//! entering it again before it is released is a reentrancy and is refused. An
//! [`IngressLockValidator`] keeps one such lock per contract id, and a
//! [`ReentrancyProbe`] uses it to classify what a nested re-invocation did.
//!
//! A [`WasmMemoryMonitor`] tracks linear-memory pages and call-stack depth
//! against configured limits, and refuses any growth or push past them, so its
//! peaks never exceed the limits.
use vstd::prelude::*;
use crate::text::{decimal, push_u64};

verus! {

/// Contract error codes used by the reentrancy / ingress-lock validator.
#[derive(Clone, Copy, Debug, PartialEq, Eq, Structural)]
pub enum ContractError {
    /// A callee was re-entered while its ingress lock was held.
    ReentrancyDetected,
}

impl ContractError {
    /// The numeric code the contract reports for this error.
    pub fn code(&self) -> (r: u32)
        ensures
            r == 1,
    {
        match self {
            ContractError::ReentrancyDetected => 1,
        }
    }
}

/// Per-callee mutex held for the duration of an external (ingress) call.
#[derive(Clone, Copy, Debug)]
pub struct IngressLock {
    depth: u32,
}

impl IngressLock {
    /// Whether the lock is held.
    pub closed spec fn held(&self) -> bool {
        self.depth != 0
    }

    /// A released lock.
    pub fn new() -> (r: Self)
        ensures
            !r.held(),
    {
        IngressLock { depth: 0 }
    }

    /// Acquires the lock; a nested `enter` is refused with
    /// [`ContractError::ReentrancyDetected`] and leaves the lock held.
    pub fn enter(&mut self) -> (r: Result<(), ContractError>)
        ensures
            r is Ok <==> !old(self).held(),
            r matches Err(e) ==> e == ContractError::ReentrancyDetected,
            final(self).held(),
    {
        if self.depth != 0 {
            return Err(ContractError::ReentrancyDetected);
        }
        self.depth = 1;
        Ok(())
    }

    /// Releases the lock after the ingress returns.
    pub fn exit(&mut self)
        ensures
            !final(self).held(),
    {
        self.depth = 0;
    }

    /// Whether the lock is held.
    pub fn is_locked(&self) -> (r: bool)
        ensures
            r == self.held(),
    {
        self.depth != 0
    }
}

impl Default for IngressLock {
    fn default() -> (r: Self)
        ensures
            !r.held(),
    {
        IngressLock::new()
    }
}

/// Multi-contract ingress lock table used by [`ReentrancyProbe`]: one lock per
/// contract id.
#[derive(Clone, Debug)]
pub struct IngressLockValidator {
    ids: Vec<String>,
    locks: Vec<IngressLock>,
}

impl IngressLockValidator {
    /// The contract ids whose lock is held.
    pub closed spec fn locked_ids(&self) -> Set<Seq<char>> {
        Set::new(
            |id: Seq<char>|
                exists|i: int|
                    0 <= i < self.ids@.len() && #[trigger] self.ids@[i]@ == id
                        && self.locks@[i].held(),
        )
    }

    /// Each contract id has one lock.
    pub closed spec fn wf(&self) -> bool {
        &&& self.ids@.len() == self.locks@.len()
        &&& forall|i: int, j: int|
            0 <= i < j < self.ids@.len() ==> #[trigger] self.ids@[i]@ != #[trigger] self.ids@[j]@
    }

    /// A table with no lock held.
    pub fn new() -> (r: Self)
        ensures
            r.wf(),
            r.locked_ids() == Set::<Seq<char>>::empty(),
    {
        let r = IngressLockValidator { ids: Vec::new(), locks: Vec::new() };
        proof {
            assert(r.locked_ids() =~= Set::<Seq<char>>::empty());
        }
        r
    }

    /// The position of `contract_id` in the table, if it has a lock.
    fn position(&self, contract_id: &str) -> (r: Option<usize>)
        ensures
            r matches Some(i) ==> i < self.ids@.len() && self.ids@[i as int]@ == contract_id@,
            r is None ==> forall|i: int| 0 <= i < self.ids@.len() ==> self.ids@[i]@ != contract_id@,
    {
        let name = String::from_str(contract_id);
        let mut i: usize = 0;
        while i < self.ids.len()
            invariant
                name@ == contract_id@,
                i <= self.ids@.len(),
                forall|k: int| 0 <= k < i ==> self.ids@[k]@ != contract_id@,
            decreases self.ids@.len() - i,
        {
            if self.ids[i] == name {
                return Some(i);
            }
            i = i + 1;
        }
        None
    }

    /// Acquires the ingress lock of `contract_id`; refused with
    /// [`ContractError::ReentrancyDetected`] while it is held.
    pub fn enter(&mut self, contract_id: &str) -> (r: Result<(), ContractError>)
        requires
            old(self).wf(),
        ensures
            final(self).wf(),
            r is Ok <==> !old(self).locked_ids().contains(contract_id@),
            r matches Err(e) ==> e == ContractError::ReentrancyDetected,
            final(self).locked_ids() == old(self).locked_ids().insert(contract_id@),
    {
        match self.position(contract_id) {
            Some(i) => {
                let mut lock = self.locks[i];
                let r = lock.enter();
                self.locks.set(i, lock);
                proof {
                    assert forall|k: int|
                        0 <= k < self.ids@.len() && k != i implies self.ids@[k]@ != contract_id@ by {
                        if k < i {
                            assert(self.ids@[k]@ != self.ids@[i as int]@);
                        } else {
                            assert(self.ids@[i as int]@ != self.ids@[k]@);
                        }
                    }
                    assert(final(self).locked_ids() =~= old(self).locked_ids().insert(contract_id@));
                }
                r
            },
            None => {
                let mut lock = IngressLock::new();
                let r = lock.enter();
                self.ids.push(String::from_str(contract_id));
                self.locks.push(lock);
                proof {
                    assert(final(self).locked_ids() =~= old(self).locked_ids().insert(contract_id@))
                        by {
                        assert forall|id: Seq<char>|
                            #[trigger] old(self).locked_ids().insert(contract_id@).contains(
                                id,
                            ) implies final(self).locked_ids().contains(id) by {
                            if id != contract_id@ {
                                let w = choose|i: int|
                                    0 <= i < old(self).ids@.len() && #[trigger] old(
                                        self,
                                    ).ids@[i]@ == id && old(self).locks@[i].held();
                                assert(self.ids@[w]@ == id);
                            } else {
                                let last = old(self).ids@.len() as int;
                                assert(self.ids@[last]@ == id);
                            }
                        }
                    }
                }
                r
            },
        }
    }

    /// Releases the ingress lock of `contract_id`, if it has one.
    pub fn exit(&mut self, contract_id: &str)
        requires
            old(self).wf(),
        ensures
            final(self).wf(),
            final(self).locked_ids() == old(self).locked_ids().remove(contract_id@),
    {
        match self.position(contract_id) {
            Some(i) => {
                let mut lock = self.locks[i];
                lock.exit();
                self.locks.set(i, lock);
                proof {
                    assert forall|k: int|
                        0 <= k < self.ids@.len() && k != i implies self.ids@[k]@ != contract_id@ by {
                        if k < i {
                            assert(self.ids@[k]@ != self.ids@[i as int]@);
                        } else {
                            assert(self.ids@[i as int]@ != self.ids@[k]@);
                        }
                    }
                    assert(final(self).locked_ids() =~= old(self).locked_ids().remove(contract_id@));
                }
            },
            None => {
                proof {
                    assert(self.locked_ids() =~= old(self).locked_ids().remove(contract_id@));
                }
            },
        }
    }

    /// Whether the ingress lock of `contract_id` is held.
    pub fn is_locked(&self, contract_id: &str) -> (r: bool)
        requires
            self.wf(),
        ensures
            r == self.locked_ids().contains(contract_id@),
    {
        match self.position(contract_id) {
            Some(i) => {
                let r = self.locks[i].is_locked();
                proof {
                    if !r {
                        assert forall|k: int|
                            0 <= k < self.ids@.len() && #[trigger] self.ids@[k]@ == contract_id@ implies !self.locks@[k].held() by {
                            if k < i {
                                assert(self.ids@[k]@ != self.ids@[i as int]@);
                            } else if k > i {
                                assert(self.ids@[i as int]@ != self.ids@[k]@);
                            }
                        }
                    }
                }
                r
            },
            None => false,
        }
    }
}

impl Default for IngressLockValidator {
    fn default() -> (r: Self)
        ensures
            r.wf(),
            r.locked_ids() == Set::<Seq<char>>::empty(),
    {
        IngressLockValidator::new()
    }
}

/// Entering a contract's lock twice without leaving it is refused the second
/// time, and leaving it makes the next entry succeed: what one entry does is
/// undone by one exit.
pub proof fn lemma_enter_exit_round_trip(before: Set<Seq<char>>, id: Seq<char>)
    requires
        !before.contains(id),
    ensures
        before.insert(id).contains(id),
        before.insert(id).remove(id) == before,
{
    assert(before.insert(id).remove(id) =~= before);
}

/// What a nested re-invocation did.
#[derive(Clone, Copy, Debug, PartialEq, Eq, Structural)]
pub enum NestedOutcome {
    /// The nested call returned normally.
    Returned,
    /// The nested call returned a contract error.
    Failed(ContractError),
    /// The nested call panicked.
    Panicked,
}

/// Outcome of a nested re-invocation attempted by [`ReentrancyProbe`].
#[derive(Clone, Copy, Debug, PartialEq, Eq, Structural)]
pub struct ReentrancyProbeResult {
    nested_error: Option<ContractError>,
    nested_reverted: bool,
    nested_succeeded: bool,
}

impl ReentrancyProbeResult {
    /// The error the nested call returned, if any.
    pub closed spec fn error_of(&self) -> Option<ContractError> {
        self.nested_error
    }

    /// Whether the nested call reverted.
    pub closed spec fn reverted(&self) -> bool {
        self.nested_reverted
    }

    /// Whether the nested call succeeded.
    pub closed spec fn succeeded(&self) -> bool {
        self.nested_succeeded
    }

    /// Whether `self` classifies `outcome`: an error is recorded, and it counts
    /// as a revert when it is the reentrancy error; a panic is a revert; a normal
    /// return is a success.
    pub open spec fn classifies(&self, outcome: NestedOutcome) -> bool {
        &&& self.error_of() == (match outcome {
            NestedOutcome::Failed(e) => Some(e),
            _ => None,
        })
        &&& self.reverted() == (match outcome {
            NestedOutcome::Returned => false,
            NestedOutcome::Failed(e) => e == ContractError::ReentrancyDetected,
            NestedOutcome::Panicked => true,
        })
        &&& self.succeeded() == (outcome == NestedOutcome::Returned)
    }

    /// The classification of a nested call's outcome.
    pub fn from_outcome(outcome: NestedOutcome) -> (r: Self)
        ensures
            r.classifies(outcome),
    {
        match outcome {
            NestedOutcome::Returned => ReentrancyProbeResult {
                nested_error: None,
                nested_reverted: false,
                nested_succeeded: true,
            },
            NestedOutcome::Failed(e) => ReentrancyProbeResult {
                nested_error: Some(e),
                nested_reverted: e == ContractError::ReentrancyDetected,
                nested_succeeded: false,
            },
            NestedOutcome::Panicked => ReentrancyProbeResult {
                nested_error: None,
                nested_reverted: true,
                nested_succeeded: false,
            },
        }
    }

    /// `true` when the nested call was rejected with `ReentrancyDetected` or
    /// reverted.
    pub fn is_guarded(&self) -> (r: bool)
        ensures
            r == (self.error_of() == Some(ContractError::ReentrancyDetected) || self.reverted()),
    {
        self.nested_error == Some(ContractError::ReentrancyDetected) || self.nested_reverted
    }

    /// The error the nested call returned, if any.
    pub fn nested_error(&self) -> (r: Option<ContractError>)
        ensures
            r == self.error_of(),
    {
        self.nested_error
    }

    /// Whether the nested call reverted.
    pub fn nested_reverted(&self) -> (r: bool)
        ensures
            r == self.reverted(),
    {
        self.nested_reverted
    }

    /// Whether the nested call succeeded.
    pub fn nested_succeeded(&self) -> (r: bool)
        ensures
            r == self.succeeded(),
    {
        self.nested_succeeded
    }

    /// Checks that the reentrant call was rejected with
    /// [`ContractError::ReentrancyDetected`] or reverted; the error says which
    /// expectation failed.
    pub fn assert_guarded(&self) -> (r: Result<(), String>)
        ensures
            r is Ok <==> (self.error_of() == Some(ContractError::ReentrancyDetected)
                || self.reverted()) && (self.error_of() is None || self.error_of() == Some(
                ContractError::ReentrancyDetected,
            )),
            r matches Err(m) ==> m@ == (if !(self.error_of() == Some(
                ContractError::ReentrancyDetected,
            ) || self.reverted()) {
                "reentrant call was not rejected: expected ContractError::ReentrancyDetected or revert"@
            } else {
                "the nested call failed with an error other than ContractError::ReentrancyDetected"@
            }),
    {
        if !self.is_guarded() {
            return Err(
                String::from_str(
                    "reentrant call was not rejected: expected ContractError::ReentrancyDetected or revert",
                ),
            );
        }
        match self.nested_error {
            Some(e) => {
                if e != ContractError::ReentrancyDetected {
                    return Err(
                        String::from_str(
                            "the nested call failed with an error other than ContractError::ReentrancyDetected",
                        ),
                    );
                }
            },
            None => {},
        }
        Ok(())
    }
}

/// A probe that holds a callee's ingress lock while the callee is re-invoked.
///
/// The caller runs the nested invocation between [`begin`](Self::begin) and
/// [`finish`](Self::finish), handing it [`validator`](Self::validator), and
/// reports what it did; `finish` releases the lock and classifies the outcome.
#[derive(Debug)]
pub struct ReentrancyProbe {
    validator: IngressLockValidator,
}

impl ReentrancyProbe {
    /// The probe's lock table.
    pub closed spec fn table(&self) -> IngressLockValidator {
        self.validator
    }

    /// A probe with no lock held.
    pub fn new() -> (r: Self)
        ensures
            r.table().wf(),
            r.table().locked_ids() == Set::<Seq<char>>::empty(),
    {
        ReentrancyProbe { validator: IngressLockValidator::new() }
    }

    /// The lock table a guarded callee consults.
    pub fn validator(&mut self) -> (r: &mut IngressLockValidator)
        ensures
            *r == old(self).table(),
            final(self).table() == *final(r),
    {
        &mut self.validator
    }

    /// Takes the outer ingress lock of `contract_id`, which must be free.
    pub fn begin(&mut self, contract_id: &str)
        requires
            old(self).table().wf(),
            !old(self).table().locked_ids().contains(contract_id@),
        ensures
            final(self).table().wf(),
            final(self).table().locked_ids() == old(self).table().locked_ids().insert(
                contract_id@,
            ),
    {
        let _ = self.validator.enter(contract_id);
    }

    /// Releases the outer ingress lock of `contract_id` and classifies what the
    /// nested invocation did.
    pub fn finish(&mut self, contract_id: &str, outcome: NestedOutcome) -> (r: ReentrancyProbeResult)
        requires
            old(self).table().wf(),
        ensures
            final(self).table().wf(),
            final(self).table().locked_ids() == old(self).table().locked_ids().remove(
                contract_id@,
            ),
            r.classifies(outcome),
    {
        self.validator.exit(contract_id);
        ReentrancyProbeResult::from_outcome(outcome)
    }
}

impl Default for ReentrancyProbe {
    fn default() -> (r: Self)
        ensures
            r.table().wf(),
            r.table().locked_ids() == Set::<Seq<char>>::empty(),
    {
        ReentrancyProbe::new()
    }
}

/// Size of a single Soroban Wasm linear-memory page (64 KiB).
pub const WASM_PAGE_SIZE_BYTES: usize = 64 * 1024;

/// Default Soroban host memory ceiling (40 MiB).
pub const DEFAULT_MAX_MEMORY_BYTES: usize = 40 * 1024 * 1024;

/// Default recursion / call-stack depth budget for simulated execution.
pub const DEFAULT_MAX_STACK_DEPTH: u32 = 256;

/// Configured memory and stack limits for a simulated contract run.
#[derive(Clone, Copy, Debug, PartialEq, Eq, Structural)]
pub struct MemoryLimitConfig {
    /// Maximum linear memory in bytes.
    pub max_memory_bytes: usize,
    /// Maximum nested call / recursion depth.
    pub max_stack_depth: u32,
}

/// The whole pages that fit in a configuration's memory ceiling.
pub open spec fn page_limit(c: MemoryLimitConfig) -> int {
    c.max_memory_bytes as int / WASM_PAGE_SIZE_BYTES as int
}

impl MemoryLimitConfig {
    /// The whole pages that fit in the memory ceiling.
    pub fn max_pages(&self) -> (r: usize)
        ensures
            r == page_limit(*self),
    {
        self.max_memory_bytes / WASM_PAGE_SIZE_BYTES
    }
}

impl Default for MemoryLimitConfig {
    fn default() -> (r: Self)
        ensures
            r.max_memory_bytes == DEFAULT_MAX_MEMORY_BYTES,
            r.max_stack_depth == DEFAULT_MAX_STACK_DEPTH,
    {
        MemoryLimitConfig {
            max_memory_bytes: DEFAULT_MAX_MEMORY_BYTES,
            max_stack_depth: DEFAULT_MAX_STACK_DEPTH,
        }
    }
}

/// Violation raised when a simulated allocation or stack push exceeds limits.
#[derive(Clone, Copy, Debug, PartialEq, Eq, Structural)]
pub enum MemoryLimitViolation {
    /// Requested pages would exceed the configured memory ceiling.
    OutOfMemory { requested_pages: usize, peak_pages: usize, max_pages: usize },
    /// Recursion / nesting depth exceeded the configured stack budget.
    StackOverflow { depth: u32, max_depth: u32 },
}

/// The whole pages an allocation of `bytes` occupies: at least one.
pub open spec fn pages_for(bytes: int) -> int {
    let q = if bytes % WASM_PAGE_SIZE_BYTES as int == 0 {
        bytes / WASM_PAGE_SIZE_BYTES as int
    } else {
        bytes / WASM_PAGE_SIZE_BYTES as int + 1
    };
    if q < 1 {
        1
    } else {
        q
    }
}

/// The larger of two numbers.
pub open spec fn larger(a: int, b: int) -> int {
    if a >= b {
        a
    } else {
        b
    }
}

/// One frame deeper than `depth`, saturating at the largest `u32`.
pub open spec fn deeper(depth: int) -> int {
    if depth + 1 > u32::MAX {
        u32::MAX as int
    } else {
        depth + 1
    }
}

/// The bytes of one machine word.
pub open spec fn word_bytes() -> int {
    (usize::BITS / 8) as int
}

/// The bytes charged for the spine of a vector with `branching` elements: one
/// word per element, saturating, and at least one byte.
pub open spec fn spine_bytes(branching: int) -> int {
    larger(
        if branching * word_bytes() > usize::MAX {
            usize::MAX as int
        } else {
            branching * word_bytes()
        },
        1,
    )
}

/// The pages a nested-vector stress run of `depth` levels allocates: a spine
/// per inner vector and `leaf_bytes` per leaf.
pub open spec fn stress_pages(depth: nat, branching: nat, leaf_bytes: int) -> int
    decreases depth,
{
    if depth == 0 {
        pages_for(larger(leaf_bytes, 1))
    } else {
        pages_for(spine_bytes(branching as int)) + branching * stress_pages(
            (depth - 1) as nat,
            branching,
            leaf_bytes,
        )
    }
}

/// The deepest stack a nested-vector stress run pushes, counting its own frame.
pub open spec fn stress_reach(depth: nat, branching: nat) -> int
    decreases depth,
{
    if depth == 0 || branching == 0 {
        1
    } else {
        1 + stress_reach((depth - 1) as nat, branching)
    }
}

proof fn lemma_stress_bounds(depth: nat, branching: nat, leaf_bytes: int)
    ensures
        stress_pages(depth, branching, leaf_bytes) >= 1,
        stress_reach(depth, branching) >= 1,
    decreases depth,
{
    if depth > 0 {
        lemma_stress_bounds((depth - 1) as nat, branching, leaf_bytes);
        let c = stress_pages((depth - 1) as nat, branching, leaf_bytes);
        assert(branching * c >= 0) by (nonlinear_arith)
            requires
                c >= 1,
        ;
    }
}

/// Monitors peak Wasm memory page allocations and recursion stack depth
/// during simulated contract execution.
#[derive(Clone, Copy, Debug)]
pub struct WasmMemoryMonitor {
    config: MemoryLimitConfig,
    current_pages: usize,
    peak_pages: usize,
    stack_depth: u32,
    peak_stack_depth: u32,
}

impl WasmMemoryMonitor {
    /// The configured limits.
    pub closed spec fn limits(&self) -> MemoryLimitConfig {
        self.config
    }

    /// Pages currently in use.
    pub closed spec fn pages(&self) -> int {
        self.current_pages as int
    }

    /// The most pages ever in use.
    pub closed spec fn peak(&self) -> int {
        self.peak_pages as int
    }

    /// The current call-stack depth.
    pub closed spec fn depth(&self) -> int {
        self.stack_depth as int
    }

    /// The deepest call stack reached.
    pub closed spec fn peak_depth(&self) -> int {
        self.peak_stack_depth as int
    }

    /// The monitor never lets usage pass its peaks, nor its peaks pass the limits.
    #[verifier::type_invariant]
    closed spec fn within_limits(&self) -> bool {
        &&& self.current_pages <= self.peak_pages
        &&& self.peak_pages <= page_limit(self.config)
        &&& self.stack_depth <= self.peak_stack_depth
        &&& self.peak_stack_depth <= self.config.max_stack_depth
    }

    /// A monitor with nothing allocated and an empty stack.
    pub fn new(config: MemoryLimitConfig) -> (r: Self)
        ensures
            r.limits() == config,
            r.pages() == 0,
            r.peak() == 0,
            r.depth() == 0,
            r.peak_depth() == 0,
    {
        WasmMemoryMonitor {
            config,
            current_pages: 0,
            peak_pages: 0,
            stack_depth: 0,
            peak_stack_depth: 0,
        }
    }

    /// A monitor with the default Soroban limits.
    pub fn with_defaults() -> (r: Self)
        ensures
            r.limits().max_memory_bytes == DEFAULT_MAX_MEMORY_BYTES,
            r.limits().max_stack_depth == DEFAULT_MAX_STACK_DEPTH,
            r.pages() == 0,
            r.peak() == 0,
            r.depth() == 0,
            r.peak_depth() == 0,
    {
        Self::new(MemoryLimitConfig::default())
    }

    /// The configured limits.
    pub fn config(&self) -> (r: &MemoryLimitConfig)
        ensures
            *r == self.limits(),
    {
        &self.config
    }

    /// Pages currently in use.
    pub fn current_pages(&self) -> (r: usize)
        ensures
            r == self.pages(),
            r <= self.peak(),
    {
        proof {
            use_type_invariant(self);
        }
        self.current_pages
    }

    /// The most pages ever in use; never above the page limit.
    pub fn peak_pages(&self) -> (r: usize)
        ensures
            r == self.peak(),
            r <= page_limit(self.limits()),
    {
        proof {
            use_type_invariant(self);
        }
        self.peak_pages
    }

    /// The peak in bytes.
    pub fn peak_memory_bytes(&self) -> (r: usize)
        ensures
            r == self.peak() * WASM_PAGE_SIZE_BYTES,
            r <= self.limits().max_memory_bytes,
    {
        proof {
            use_type_invariant(self);
            let m = self.config.max_memory_bytes as int;
            let p = self.peak_pages as int;
            assert(p * 65536 <= m) by (nonlinear_arith)
                requires
                    p <= m / 65536,
                    m >= 0,
            ;
        }
        self.peak_pages * WASM_PAGE_SIZE_BYTES
    }

    /// The current call-stack depth.
    pub fn stack_depth(&self) -> (r: u32)
        ensures
            r == self.depth(),
            r <= self.peak_depth(),
    {
        proof {
            use_type_invariant(self);
        }
        self.stack_depth
    }

    /// The deepest call stack reached; never above the depth limit.
    pub fn peak_stack_depth(&self) -> (r: u32)
        ensures
            r == self.peak_depth(),
            r <= self.limits().max_stack_depth,
    {
        proof {
            use_type_invariant(self);
        }
        self.peak_stack_depth
    }

    /// Grows linear memory by `pages` (64 KiB each) and returns the previous
    /// page count; refused, with nothing changed, when the ceiling would be
    /// passed.
    pub fn grow_pages(&mut self, pages: usize) -> (r: Result<usize, MemoryLimitViolation>)
        ensures
            final(self).limits() == old(self).limits(),
            final(self).depth() == old(self).depth(),
            final(self).peak_depth() == old(self).peak_depth(),
            r is Ok <==> old(self).pages() + pages <= page_limit(old(self).limits()),
            r matches Ok(prev) ==> prev == old(self).pages() && final(self).pages() == old(
                self,
            ).pages() + pages && final(self).peak() == larger(old(self).peak(), final(self).pages()),
            r is Err ==> final(self).pages() == old(self).pages() && final(self).peak() == old(
                self,
            ).peak(),
            r matches Err(v) ==> v == (MemoryLimitViolation::OutOfMemory {
                requested_pages: pages,
                peak_pages: larger(
                    old(self).peak(),
                    if old(self).pages() + pages > usize::MAX {
                        usize::MAX as int
                    } else {
                        old(self).pages() + pages
                    },
                ) as usize,
                max_pages: page_limit(old(self).limits()) as usize,
            }),
    {
        proof {
            use_type_invariant(&*self);
        }
        let next = self.current_pages.saturating_add(pages);
        let max_pages = self.config.max_pages();
        if next > max_pages {
            let peak = if self.peak_pages > next {
                self.peak_pages
            } else {
                next
            };
            return Err(
                MemoryLimitViolation::OutOfMemory {
                    requested_pages: pages,
                    peak_pages: peak,
                    max_pages,
                },
            );
        }
        let prev = self.current_pages;
        let peak = if self.peak_pages > next {
            self.peak_pages
        } else {
            next
        };
        self.peak_pages = peak;
        self.current_pages = next;
        Ok(prev)
    }

    /// Accounts for an allocation of `bytes`, rounded up to whole pages (at
    /// least one), and returns the previous page count.
    pub fn allocate_bytes(&mut self, bytes: usize) -> (r: Result<usize, MemoryLimitViolation>)
        ensures
            final(self).limits() == old(self).limits(),
            final(self).depth() == old(self).depth(),
            final(self).peak_depth() == old(self).peak_depth(),
            r is Ok <==> old(self).pages() + pages_for(bytes as int) <= page_limit(
                old(self).limits(),
            ),
            r matches Ok(prev) ==> prev == old(self).pages() && final(self).pages() == old(
                self,
            ).pages() + pages_for(bytes as int) && final(self).peak() == larger(
                old(self).peak(),
                final(self).pages(),
            ),
            r is Err ==> final(self).pages() == old(self).pages() && final(self).peak() == old(
                self,
            ).peak(),
            r matches Err(v) ==> (v matches MemoryLimitViolation::OutOfMemory { requested_pages, .. }
                && requested_pages == pages_for(bytes as int)),
    {
        let whole = bytes / WASM_PAGE_SIZE_BYTES;
        let rounded = if bytes % WASM_PAGE_SIZE_BYTES == 0 {
            whole
        } else {
            whole + 1
        };
        let pages = if rounded < 1 {
            1
        } else {
            rounded
        };
        self.grow_pages(pages)
    }

    /// Releases `pages` of linear memory (down to none); the peak is kept.
    pub fn free_pages(&mut self, pages: usize)
        ensures
            final(self).limits() == old(self).limits(),
            final(self).pages() == larger(old(self).pages() - pages, 0),
            final(self).peak() == old(self).peak(),
            final(self).depth() == old(self).depth(),
            final(self).peak_depth() == old(self).peak_depth(),
    {
        proof {
            use_type_invariant(&*self);
        }
        self.current_pages = self.current_pages.saturating_sub(pages);
    }

    /// Pushes one frame onto the simulated call stack and returns the new
    /// depth; refused, with nothing changed, past the depth limit.
    pub fn push_frame(&mut self) -> (r: Result<u32, MemoryLimitViolation>)
        ensures
            final(self).limits() == old(self).limits(),
            final(self).pages() == old(self).pages(),
            final(self).peak() == old(self).peak(),
            r is Ok <==> deeper(old(self).depth()) <= old(self).limits().max_stack_depth,
            r matches Ok(d) ==> d == deeper(old(self).depth()) && final(self).depth() == d
                && final(self).peak_depth() == larger(old(self).peak_depth(), d as int),
            r is Err ==> final(self).depth() == old(self).depth() && final(self).peak_depth()
                == old(self).peak_depth(),
            r matches Err(v) ==> v == (MemoryLimitViolation::StackOverflow {
                depth: deeper(old(self).depth()) as u32,
                max_depth: old(self).limits().max_stack_depth,
            }),
    {
        proof {
            use_type_invariant(&*self);
        }
        let next = self.stack_depth.saturating_add(1);
        if next > self.config.max_stack_depth {
            return Err(
                MemoryLimitViolation::StackOverflow {
                    depth: next,
                    max_depth: self.config.max_stack_depth,
                },
            );
        }
        let peak = if self.peak_stack_depth > next {
            self.peak_stack_depth
        } else {
            next
        };
        self.peak_stack_depth = peak;
        self.stack_depth = next;
        Ok(next)
    }

    /// Pops one frame from the simulated call stack (down to none).
    pub fn pop_frame(&mut self)
        ensures
            final(self).limits() == old(self).limits(),
            final(self).pages() == old(self).pages(),
            final(self).peak() == old(self).peak(),
            final(self).depth() == larger(old(self).depth() - 1, 0),
            final(self).peak_depth() == old(self).peak_depth(),
    {
        proof {
            use_type_invariant(&*self);
        }
        self.stack_depth = self.stack_depth.saturating_sub(1);
    }

    /// Checks that peak memory and stack stayed within the configured limits.
    /// The monitor refuses every step past them, so this always holds.
    pub fn assert_within_limits(&self) -> (r: Result<(), String>)
        ensures
            r is Ok,
            self.peak() <= page_limit(self.limits()),
            self.peak_depth() <= self.limits().max_stack_depth,
            self.peak() * WASM_PAGE_SIZE_BYTES <= self.limits().max_memory_bytes,
    {
        let _ = self.peak_memory_bytes();
        proof {
            use_type_invariant(self);
        }
        Ok(())
    }
    /// Walks a nested vector tree of `depth` levels with `branching` elements
    /// per level, charging a stack frame per vector, a spine allocation per
    /// inner vector and `leaf_bytes` per leaf; stops at the first violation.
    ///
    /// It succeeds exactly when the deepest stack and the pages it charges fit
    /// in the limits (a depth limit of `u32::MAX` never trips, as depths
    /// saturate there); then its frames are all popped again. When only the
    /// stack does not fit it reports a stack overflow; when only the pages do
    /// not fit, running out of memory.
    pub fn stress_nested_vectors<T>(
        &mut self,
        depth: u32,
        branching: usize,
        leaf_bytes: usize,
        marker: &T,
    ) -> (r: Result<(), MemoryLimitViolation>)
        ensures
            final(self).limits() == old(self).limits(),
            r is Ok <==> (old(self).depth() + stress_reach(depth as nat, branching as nat)
                <= old(self).limits().max_stack_depth || old(self).limits().max_stack_depth
                == u32::MAX) && old(self).pages() + stress_pages(
                depth as nat,
                branching as nat,
                leaf_bytes as int,
            ) <= page_limit(old(self).limits()),
            r is Ok ==> final(self).pages() == old(self).pages() + stress_pages(
                depth as nat,
                branching as nat,
                leaf_bytes as int,
            ) && final(self).peak() == larger(old(self).peak(), final(self).pages()),
            r is Ok && old(self).limits().max_stack_depth < u32::MAX ==> final(self).depth() == old(
                self,
            ).depth() && final(self).peak_depth() == larger(
                old(self).peak_depth(),
                old(self).depth() + stress_reach(depth as nat, branching as nat),
            ),
            old(self).pages() + stress_pages(depth as nat, branching as nat, leaf_bytes as int)
                <= page_limit(old(self).limits()) ==> (r matches Err(v) ==> v is StackOverflow),
            old(self).depth() + stress_reach(depth as nat, branching as nat) <= old(
                self,
            ).limits().max_stack_depth || old(self).limits().max_stack_depth == u32::MAX ==> (
            r matches Err(v) ==> v is OutOfMemory),
        decreases depth,
    {
        proof {
            use_type_invariant(&*self);
            lemma_stress_bounds(depth as nat, branching as nat, leaf_bytes as int);
        }
        let ghost d0 = self.depth();
        let ghost p0 = self.pages();
        let ghost peak0 = self.peak();
        let ghost pd0 = self.peak_depth();
        let ghost max_stack = self.limits().max_stack_depth as int;
        let ghost limit = page_limit(self.limits());
        let ghost reach = stress_reach(depth as nat, branching as nat);
        let ghost total = stress_pages(depth as nat, branching as nat, leaf_bytes as int);
        let ghost lim0 = self.limits();
        match self.push_frame() {
            Err(e) => {
                return Err(e);
            },
            Ok(_) => {},
        }
        if depth == 0 {
            let leaf = if leaf_bytes < 1 {
                1
            } else {
                leaf_bytes
            };
            match self.allocate_bytes(leaf) {
                Err(e) => {
                    return Err(e);
                },
                Ok(_) => {},
            }
            self.pop_frame();
            return Ok(());
        }
        let word: usize = (usize::BITS / 8) as usize;
        let spine = match branching.checked_mul(word) {
            Some(x) => x,
            None => usize::MAX,
        };
        let spine = if spine < 1 {
            1
        } else {
            spine
        };
        let ghost sp = pages_for(spine_bytes(branching as int));
        let ghost cp = stress_pages((depth - 1) as nat, branching as nat, leaf_bytes as int);
        let ghost rc = stress_reach((depth - 1) as nat, branching as nat);
        proof {
            lemma_stress_bounds((depth - 1) as nat, branching as nat, leaf_bytes as int);
            assert(spine == spine_bytes(branching as int));
            assert(branching * cp >= 0) by (nonlinear_arith)
                requires
                    cp >= 1,
            ;
            assert(total == sp + branching * cp);
        }
        match self.allocate_bytes(spine) {
            Err(e) => {
                return Err(e);
            },
            Ok(_) => {},
        }
        proof {
            assert(self.pages() == p0 + sp + 0 * cp);
        }
        let mut k: usize = 0;
        while k < branching
            invariant
                0 < depth,
                k <= branching,
                self.limits() == lim0,
                lim0 == old(self).limits(),
                d0 == old(self).depth(),
                p0 == old(self).pages(),
                peak0 == old(self).peak(),
                pd0 == old(self).peak_depth(),
                reach == stress_reach(depth as nat, branching as nat),
                total == stress_pages(depth as nat, branching as nat, leaf_bytes as int),
                self.limits().max_stack_depth == max_stack,
                page_limit(self.limits()) == limit,
                cp >= 1,
                rc >= 1,
                sp >= 1,
                cp == stress_pages((depth - 1) as nat, branching as nat, leaf_bytes as int),
                rc == stress_reach((depth - 1) as nat, branching as nat),
                total == sp + branching * cp,
                reach == 1 + rc || branching == 0,
                self.pages() == p0 + sp + k * cp,
                self.peak() == larger(peak0, self.pages()),
                max_stack < u32::MAX ==> d0 + 1 <= max_stack && self.depth() == d0 + 1,
                max_stack < u32::MAX ==> self.peak_depth() == larger(
                    pd0,
                    d0 + 1 + (if k > 0 {
                        rc
                    } else {
                        0
                    }),
                ),
                max_stack < u32::MAX && k > 0 ==> d0 + 1 + rc <= max_stack,
            decreases branching - k,
        {
            let ghost pk = self.pages();
            match self.stress_nested_vectors(depth - 1, branching, leaf_bytes, marker) {
                Err(e) => {
                    proof {
                        assert((k + 1) * cp <= branching * cp) by (nonlinear_arith)
                            requires
                                k + 1 <= branching,
                                cp >= 0,
                        ;
                        assert(k * cp + cp == (k + 1) * cp) by (nonlinear_arith);
                        assert(reach == 1 + rc);
                        if max_stack < u32::MAX {
                            if d0 + 1 + rc > max_stack {
                                assert(d0 + reach > max_stack);
                            } else {
                                assert(pk + cp > limit);
                                assert(p0 + total > limit);
                            }
                        } else {
                            assert(pk + cp > limit);
                            assert(p0 + total > limit);
                        }
                    }
                    return Err(e);
                },
                Ok(()) => {},
            }
            proof {
                assert(k * cp + cp == (k + 1) * cp) by (nonlinear_arith);
            }
            k = k + 1;
        }
        proof {
            use_type_invariant(&*self);
        }
        self.pop_frame();
        Ok(())
    }
}

} // verus!
