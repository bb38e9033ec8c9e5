//! An environment that keeps its allocations in ordinary process memory.

use vstd::prelude::*;
use crate::tee_interface::traits::{
    overwrite_prefix, tee_step, zeroed, AggregationAlgorithm, ComputationParams, TeeCall, TeeError,
    TeeGuard, TeeState,
};

verus! {

/// The error for an input whose length is not a whole number of 32-bit words.
pub open spec fn misaligned_payload() -> TeeError {
    TeeError::InvalidInput("payload length must be a multiple of 4")
}

/// The error for a computation without inputs.
pub open spec fn empty_inputs() -> TeeError {
    TeeError::InvalidInput("empty inputs")
}

/// Why the allocation under `ptr` cannot be an input, if it cannot.
pub open spec fn input_error(contents: Map<usize, Seq<u8>>, ptr: usize) -> Option<TeeError> {
    if !contents.contains_key(ptr) {
        Some(TeeError::InvalidPointer)
    } else if contents[ptr].len() % 4 != 0 {
        Some(misaligned_payload())
    } else {
        None
    }
}

/// The error of the first input, in order, that cannot be used.
pub open spec fn first_input_error(contents: Map<usize, Seq<u8>>, ptrs: Seq<usize>) -> Option<TeeError>
    decreases ptrs.len(),
{
    if ptrs.len() == 0 {
        None
    } else {
        match first_input_error(contents, ptrs.drop_last()) {
            Some(e) => Some(e),
            None => input_error(contents, ptrs.last()),
        }
    }
}

/// Under federated averaging a single readable input is answered with its
/// own bytes: what was last written to an allocation is what comes back.
pub proof fn lemma_single_input_average_is_identity(
    contents: Map<usize, Seq<u8>>,
    ptr: usize,
)
    requires
        contents.contains_key(ptr),
    ensures
        contents[ptr].len() % 4 == 0 ==> plan_computation(
            true,
            contents,
            seq![ptr],
            AggregationAlgorithm::FederatedAveraging,
        ) == Ok::<ComputationPlan, TeeError>(ComputationPlan::Passthrough(contents[ptr])),
        contents[ptr].len() % 4 != 0 ==> plan_computation(
            true,
            contents,
            seq![ptr],
            AggregationAlgorithm::FederatedAveraging,
        ) == Err::<ComputationPlan, TeeError>(misaligned_payload()),
{
    reveal_with_fuel(first_input_error, 2);
    assert(seq![ptr].drop_last() =~= Seq::<usize>::empty());
}

/// Read after write: once `data` has been written over a whole allocation,
/// averaging that allocation alone gives `data` back.
pub proof fn lemma_average_reads_back_write(
    contents: Map<usize, Seq<u8>>,
    ptr: usize,
    data: Seq<u8>,
)
    requires
        contents.contains_key(ptr),
        data.len() == contents[ptr].len(),
        data.len() % 4 == 0,
    ensures
        plan_computation(
            true,
            contents.insert(ptr, overwrite_prefix(contents[ptr], data)),
            seq![ptr],
            AggregationAlgorithm::FederatedAveraging,
        ) == Ok::<ComputationPlan, TeeError>(ComputationPlan::Passthrough(data)),
{
    let written = contents.insert(ptr, overwrite_prefix(contents[ptr], data));
    assert(overwrite_prefix(contents[ptr], data) =~= data);
    lemma_single_input_average_is_identity(written, ptr);
}

/// An aggregation gathers one payload per input, in input order: the
/// bytes under each input handle.
pub proof fn lemma_plan_gathers_every_input(
    ready: bool,
    contents: Map<usize, Seq<u8>>,
    ptrs: Seq<usize>,
    algorithm: AggregationAlgorithm,
)
    ensures
        plan_computation(ready, contents, ptrs, algorithm) matches Ok(ComputationPlan::Aggregate(payloads))
            ==> {
            &&& payloads.len() == ptrs.len()
            &&& forall|i: int| 0 <= i < ptrs.len() ==> #[trigger] payloads[i] == contents[ptrs[i]]
        },
        plan_computation(ready, contents, ptrs, algorithm) matches Ok(ComputationPlan::Passthrough(bytes))
            ==> ptrs.len() == 1 && bytes == contents[ptrs[0]],
{
}

/// The in-memory environment grants every allocation of at least one byte
/// once it is initialized, and refuses every other.
pub proof fn lemma_in_memory_grants_nonzero_allocations(tee: &InMemoryTee, size: usize)
    ensures
        tee.allocation_refusal(size) is None <==> tee.ready() && size > 0,
        !tee.ready() ==> tee.allocation_refusal(size) == Some(TeeError::NotInitialized),
        tee.ready() && size == 0 ==> tee.allocation_refusal(size) == Some(
            TeeError::InvalidAllocationSize,
        ),
{
}

/// The in-memory environment grants every write, once initialized, to a
/// live allocation that the data fits into, and refuses every other.
pub proof fn lemma_in_memory_grants_fitting_writes(tee: &InMemoryTee, ptr: usize, len: nat)
    ensures
        tee.write_refusal(ptr, len) is None <==> tee.ready() && tee.contents().contains_key(ptr)
            && len <= tee.contents()[ptr].len(),
{
}

/// `calls[i]` took the environment from `states[i]` to `states[i + 1]`,
/// for every `i`.
pub open spec fn is_run(states: Seq<TeeState>, calls: Seq<TeeCall>) -> bool {
    &&& states.len() == calls.len() + 1
    &&& forall|i: int| 0 <= i < calls.len() ==> #[trigger] tee_step(states[i], calls[i], states[i + 1])
}

/// The request writes to the allocation under `ptr`.
pub open spec fn writes_to(call: TeeCall, ptr: usize) -> bool {
    match call {
        TeeCall::Write(target, _) => target == ptr,
        _ => false,
    }
}

/// Integrity between allocations: along any run of requests, an
/// allocation that no request writes to keeps its bytes.
pub proof fn lemma_unwritten_allocation_survives(
    states: Seq<TeeState>,
    calls: Seq<TeeCall>,
    ptr: usize,
)
    requires
        is_run(states, calls),
        states[0].contents.contains_key(ptr),
        forall|i: int| 0 <= i < calls.len() ==> !writes_to(#[trigger] calls[i], ptr),
    ensures
        forall|i: int|
            0 <= i < states.len() ==> #[trigger] states[i].contents.contains_key(ptr)
                && states[i].contents[ptr] == states[0].contents[ptr],
{
    assert forall|i: int| 0 <= i < states.len() implies #[trigger] states[i].contents.contains_key(
        ptr,
    ) && states[i].contents[ptr] == states[0].contents[ptr] by {
        lemma_unwritten_allocation_survives_to(states, calls, ptr, i);
    }
}

proof fn lemma_unwritten_allocation_survives_to(
    states: Seq<TeeState>,
    calls: Seq<TeeCall>,
    ptr: usize,
    n: int,
)
    requires
        is_run(states, calls),
        states[0].contents.contains_key(ptr),
        forall|i: int| 0 <= i < calls.len() ==> !writes_to(#[trigger] calls[i], ptr),
        0 <= n < states.len(),
    ensures
        states[n].contents.contains_key(ptr),
        states[n].contents[ptr] == states[0].contents[ptr],
    decreases n,
{
    if n > 0 {
        lemma_unwritten_allocation_survives_to(states, calls, ptr, n - 1);
        let j = n - 1;
        assert(tee_step(states[j], calls[j], states[j + 1]));
        let pre = states[j];
        let post = states[n];
        assert(!writes_to(calls[n - 1], ptr));
        match calls[n - 1] {
            TeeCall::Allocate(size) => {
                if post.contents != pre.contents {
                    let handle = choose|handle: usize|
                        !pre.contents.contains_key(handle) && post.contents == pre.contents.insert(
                            handle,
                            zeroed(size as nat),
                        );
                    assert(handle != ptr);
                }
            },
            _ => {},
        }
    }
}

/// Once initialized, an environment stays initialized along any run of
/// requests.
pub proof fn lemma_ready_persists(states: Seq<TeeState>, calls: Seq<TeeCall>)
    requires
        is_run(states, calls),
        states[0].ready,
    ensures
        forall|i: int| 0 <= i < states.len() ==> #[trigger] states[i].ready,
{
    assert forall|i: int| 0 <= i < states.len() implies #[trigger] states[i].ready by {
        lemma_ready_persists_to(states, calls, i);
    }
}

proof fn lemma_ready_persists_to(states: Seq<TeeState>, calls: Seq<TeeCall>, n: int)
    requires
        is_run(states, calls),
        states[0].ready,
        0 <= n < states.len(),
    ensures
        states[n].ready,
    decreases n,
{
    if n > 0 {
        lemma_ready_persists_to(states, calls, n - 1);
        let j = n - 1;
        assert(tee_step(states[j], calls[j], states[j + 1]));
    }
}

/// What is left to do once the inputs of a computation are checked.
pub enum ComputationPlan {
    /// The answer is these bytes, unchanged.
    Passthrough(Seq<u8>),
    /// The answer is the aggregate of these payloads, in input order.
    Aggregate(Seq<Seq<u8>>),
}

/// The checks that precede every computation, and their outcome.
///
/// A single input under federated averaging is its own average: its bytes
/// are handed back as they are.
pub open spec fn plan_computation(
    ready: bool,
    contents: Map<usize, Seq<u8>>,
    ptrs: Seq<usize>,
    algorithm: AggregationAlgorithm,
) -> Result<ComputationPlan, TeeError> {
    if !ready {
        Err(TeeError::NotInitialized)
    } else if ptrs.len() == 0 {
        Err(empty_inputs())
    } else {
        match first_input_error(contents, ptrs) {
            Some(e) => Err(e),
            None => if ptrs.len() == 1 && algorithm is FederatedAveraging {
                Ok(ComputationPlan::Passthrough(contents[ptrs[0]]))
            } else {
                Ok(ComputationPlan::Aggregate(ptrs.map_values(|p: usize| contents[p])))
            },
        }
    }
}

/// The error for aggregation inputs that `algorithm` refuses.
pub open spec fn rejected_inputs(algorithm: AggregationAlgorithm) -> TeeError {
    match algorithm {
        AggregationAlgorithm::FederatedAveraging => TeeError::InvalidInput(
            "invalid federated averaging input",
        ),
        AggregationAlgorithm::MultiKrum { .. } => TeeError::InvalidInput("invalid multi-krum input"),
    }
}

/// A checked computation, ready for its last step.
#[derive(Debug, Clone, PartialEq, Eq)]
pub enum PreparedComputation {
    /// The answer, as it is.
    Passthrough(Vec<u8>),
    /// The payloads to aggregate, in input order.
    Aggregate(Vec<Vec<u8>>),
}

impl View for PreparedComputation {
    type V = ComputationPlan;

    open spec fn view(&self) -> ComputationPlan {
        match self {
            PreparedComputation::Passthrough(bytes) => ComputationPlan::Passthrough(bytes@),
            PreparedComputation::Aggregate(payloads) => ComputationPlan::Aggregate(
                payloads@.map_values(|v: Vec<u8>| v@),
            ),
        }
    }
}

/// An environment that holds its allocations in process memory. A handle
/// is the position of its allocation in the order of allocation.
#[derive(Debug)]
pub struct InMemoryTee {
    initialized: bool,
    allocations: Vec<Vec<u8>>,
}

impl InMemoryTee {
    /// The allocations, by handle.
    pub closed spec fn allocation_map(&self) -> Map<usize, Seq<u8>> {
        Map::new(
            |k: usize| k < self.allocations@.len(),
            |k: usize| self.allocations@[k as int]@,
        )
    }
}

impl InMemoryTee {
    /// The bytes under `ptr`, when they can be an input.
    fn get_input_slice(&self, ptr: usize) -> (result: Result<&[u8], TeeError>)
        ensures
            match input_error(self.contents(), ptr) {
                Some(e) => result == Err::<&[u8], TeeError>(e),
                None => result matches Ok(bytes) && bytes@ == self.contents()[ptr],
            },
    {
        if ptr >= self.allocations.len() {
            return Err(TeeError::InvalidPointer);
        }
        let bytes = self.allocations[ptr].as_slice();
        if bytes.len() % 4 != 0 {
            return Err(TeeError::InvalidInput("payload length must be a multiple of 4"));
        }
        Ok(bytes)
    }

    /// Runs every check that precedes a computation and gathers its inputs.
    ///
    /// The inputs are checked in order and the first that fails decides
    /// the error. A single input under federated averaging comes back as
    /// the answer itself.
    pub fn prepare_computation(&self, input_ptrs: &[usize], params: &ComputationParams) -> (result:
        Result<PreparedComputation, TeeError>)
        ensures
            match (result, plan_computation(
                self.ready(),
                self.contents(),
                input_ptrs@,
                params.algorithm,
            )) {
                (Ok(prepared), Ok(plan)) => prepared@ == plan,
                (Err(e), Err(expected)) => e == expected,
                _ => false,
            },
            result matches Ok(PreparedComputation::Aggregate(payloads)) ==> {
                &&& payloads@.len() == input_ptrs@.len()
                &&& forall|i: int|
                    0 <= i < input_ptrs@.len() ==> #[trigger] payloads@[i]@ == self.contents()[input_ptrs@[i]]
            },
            result matches Ok(PreparedComputation::Passthrough(bytes)) ==> {
                &&& input_ptrs@.len() == 1
                &&& bytes@ == self.contents()[input_ptrs@[0]]
            },
    {
        if !self.initialized {
            return Err(TeeError::NotInitialized);
        }
        if input_ptrs.len() == 0 {
            return Err(TeeError::InvalidInput("empty inputs"));
        }
        let single_average = match params.algorithm {
            AggregationAlgorithm::FederatedAveraging => input_ptrs.len() == 1,
            AggregationAlgorithm::MultiKrum { .. } => false,
        };
        if single_average {
            proof {
                reveal_with_fuel(first_input_error, 2);
                assert(input_ptrs@.drop_last() =~= Seq::<usize>::empty());
            }
            return match self.get_input_slice(input_ptrs[0]) {
                Ok(bytes) => Ok(PreparedComputation::Passthrough(vstd::slice::slice_to_vec(bytes))),
                Err(e) => Err(e),
            };
        }
        let mut payloads: Vec<Vec<u8>> = Vec::new();
        let mut idx: usize = 0;
        while idx < input_ptrs.len()
            invariant
                self.ready(),
                input_ptrs@.len() > 0,
                !(input_ptrs@.len() == 1 && params.algorithm is FederatedAveraging),
                idx <= input_ptrs@.len(),
                first_input_error(self.contents(), input_ptrs@.take(idx as int)) is None,
                payloads@.map_values(|v: Vec<u8>| v@) =~= input_ptrs@.take(idx as int).map_values(
                    |p: usize| self.contents()[p],
                ),
            decreases input_ptrs.len() - idx,
        {
            let ptr = input_ptrs[idx];
            proof {
                assert(input_ptrs@.take(idx + 1).drop_last() =~= input_ptrs@.take(idx as int));
                lemma_first_error_extends(self.contents(), input_ptrs@, idx as int);
            }
            let bytes = match self.get_input_slice(ptr) {
                Ok(bytes) => bytes,
                Err(e) => {
                    assert(first_input_error(self.contents(), input_ptrs@) == Some(e));
                    return Err(e);
                },
            };
            let ghost before = payloads@;
            payloads.push(vstd::slice::slice_to_vec(bytes));
            proof {
                assert(payloads@ == before.push(payloads@.last()));
                assert(payloads@.map_values(|v: Vec<u8>| v@) =~= before.map_values(|v: Vec<u8>| v@).push(
                    self.contents()[ptr],
                ));
                assert(input_ptrs@.take(idx + 1) =~= input_ptrs@.take(idx as int).push(ptr));
                assert(input_ptrs@.take(idx + 1).map_values(|p: usize| self.contents()[p])
                    =~= input_ptrs@.take(idx as int).map_values(|p: usize| self.contents()[p]).push(
                    self.contents()[ptr],
                ));
            }
            idx = idx + 1;
        }
        proof {
            assert(input_ptrs@.take(input_ptrs@.len() as int) =~= input_ptrs@);
            let gathered = payloads@.map_values(|v: Vec<u8>| v@);
            let wanted = input_ptrs@.map_values(|p: usize| self.contents()[p]);
            assert(gathered == wanted);
            assert(payloads@.len() == gathered.len());
            assert forall|i: int| 0 <= i < input_ptrs@.len() implies #[trigger] payloads@[i]@
                == self.contents()[input_ptrs@[i]] by {
                assert(gathered[i] == wanted[i]);
            }
        }
        Ok(PreparedComputation::Aggregate(payloads))
    }
}

/// Where the first `i` inputs are usable, the first `i + 1` fail exactly
/// where input `i` fails.
proof fn lemma_first_error_extends(contents: Map<usize, Seq<u8>>, ptrs: Seq<usize>, i: int)
    requires
        0 <= i < ptrs.len(),
        first_input_error(contents, ptrs.take(i)) is None,
    ensures
        first_input_error(contents, ptrs.take(i + 1)) == input_error(contents, ptrs[i]),
        input_error(contents, ptrs[i]) is Some ==> first_input_error(contents, ptrs) == input_error(
            contents,
            ptrs[i],
        ),
{
    assert(ptrs.take(i + 1).drop_last() =~= ptrs.take(i));
    if input_error(contents, ptrs[i]) is Some {
        lemma_first_error_of_prefix(contents, ptrs, i + 1);
    }
}

/// An error among the first `n` inputs is the error of all of them.
proof fn lemma_first_error_of_prefix(contents: Map<usize, Seq<u8>>, ptrs: Seq<usize>, n: int)
    requires
        0 <= n <= ptrs.len(),
        first_input_error(contents, ptrs.take(n)) is Some,
    ensures
        first_input_error(contents, ptrs) == first_input_error(contents, ptrs.take(n)),
    decreases ptrs.len() - n,
{
    if n < ptrs.len() {
        assert(ptrs.take(n + 1).drop_last() =~= ptrs.take(n));
        lemma_first_error_of_prefix(contents, ptrs, n + 1);
    } else {
        assert(ptrs.take(n) =~= ptrs);
    }
}

/// Turns the outcome of an aggregation into the answer of the computation:
/// the aggregate itself, or the error of the algorithm that refused its inputs.
pub fn complete_computation(algorithm: &AggregationAlgorithm, aggregated: Option<Vec<u8>>) -> (result:
    Result<Vec<u8>, TeeError>)
    ensures
        match aggregated {
            Some(bytes) => result == Ok::<Vec<u8>, TeeError>(bytes),
            None => result == Err::<Vec<u8>, TeeError>(rejected_inputs(*algorithm)),
        },
{
    match aggregated {
        Some(bytes) => Ok(bytes),
        None => match algorithm {
            AggregationAlgorithm::FederatedAveraging => Err(
                TeeError::InvalidInput("invalid federated averaging input"),
            ),
            AggregationAlgorithm::MultiKrum { .. } => Err(
                TeeError::InvalidInput("invalid multi-krum input"),
            ),
        },
    }
}

impl Default for InMemoryTee {
    /// An environment that is not initialized and holds nothing.
    fn default() -> (tee: Self)
        ensures
            !tee.ready(),
            tee.contents() == Map::<usize, Seq<u8>>::empty(),
    {
        let tee = InMemoryTee { initialized: false, allocations: Vec::new() };
        assert(tee.contents() =~= Map::<usize, Seq<u8>>::empty());
        tee
    }
}

impl TeeGuard for InMemoryTee {
    closed spec fn ready(&self) -> bool {
        self.initialized
    }

    closed spec fn contents(&self) -> Map<usize, Seq<u8>> {
        self.allocation_map()
    }

    /// Refused before initialization, and for zero bytes.
    open spec fn allocation_refusal(&self, size: usize) -> Option<TeeError> {
        if !self.ready() {
            Some(TeeError::NotInitialized)
        } else if size == 0 {
            Some(TeeError::InvalidAllocationSize)
        } else {
            None
        }
    }

    /// Refused before initialization, for an unknown handle, and for data
    /// longer than the allocation, in that order.
    open spec fn write_refusal(&self, ptr: usize, len: nat) -> Option<TeeError> {
        if !self.ready() {
            Some(TeeError::NotInitialized)
        } else if !self.contents().contains_key(ptr) {
            Some(TeeError::InvalidPointer)
        } else if len > self.contents()[ptr].len() {
            Some(TeeError::InvalidAllocationSize)
        } else {
            None
        }
    }

    /// Always succeeds.
    fn initialize(&mut self) -> (result: Result<(), TeeError>)
        ensures
            result is Ok,
            final(self).ready(),
    {
        self.initialized = true;
        Ok(())
    }

    fn allocate_memory(&mut self, size: usize) -> (result: Result<usize, TeeError>)
        ensures
            old(self).ready() && size == 0 ==> result == Err::<usize, TeeError>(
                TeeError::InvalidAllocationSize,
            ),
            old(self).ready() && size > 0 ==> result is Ok,
    {
        if !self.initialized {
            return Err(TeeError::NotInitialized);
        }
        if size == 0 {
            return Err(TeeError::InvalidAllocationSize);
        }
        let allocation: Vec<u8> = vec![0u8; size];
        assert(allocation@ =~= zeroed(size as nat));
        let handle = self.allocations.len();
        self.allocations.push(allocation);
        assert(self.allocation_map() =~= old(self).allocation_map().insert(handle, zeroed(size as nat)));
        assert(!old(self).contents().contains_key(handle) && self.contents() == old(
            self,
        ).contents().insert(handle, zeroed(size as nat)));
        Ok(handle)
    }

    fn write_data(&mut self, ptr: usize, data: &[u8]) -> (result: Result<(), TeeError>)
        ensures
            old(self).ready() && !old(self).contents().contains_key(ptr) ==> result == Err::<
                (),
                TeeError,
            >(TeeError::InvalidPointer),
            old(self).ready() && old(self).contents().contains_key(ptr) && data@.len() > old(
                self,
            ).contents()[ptr].len() ==> result == Err::<(), TeeError>(
                TeeError::InvalidAllocationSize,
            ),
            old(self).ready() && old(self).contents().contains_key(ptr) && data@.len() <= old(
                self,
            ).contents()[ptr].len() ==> result is Ok,
    {
        if !self.initialized {
            return Err(TeeError::NotInitialized);
        }
        if ptr >= self.allocations.len() {
            return Err(TeeError::InvalidPointer);
        }
        let buffer = &self.allocations[ptr];
        if data.len() > buffer.len() {
            return Err(TeeError::InvalidAllocationSize);
        }
        let mut updated: Vec<u8> = Vec::with_capacity(buffer.len());
        let mut idx: usize = 0;
        while idx < buffer.len()
            invariant
                data@.len() <= buffer@.len(),
                idx <= buffer@.len(),
                updated@ =~= overwrite_prefix(buffer@, data@).take(idx as int),
            decreases buffer.len() - idx,
        {
            if idx < data.len() {
                updated.push(data[idx]);
            } else {
                updated.push(buffer[idx]);
            }
            idx = idx + 1;
        }
        assert(updated@ =~= overwrite_prefix(buffer@, data@));
        self.allocations.set(ptr, updated);
        assert(self.allocation_map() =~= old(self).allocation_map().insert(
            ptr,
            overwrite_prefix(old(self).allocation_map()[ptr], data@),
        ));
        Ok(())
    }
}

} // verus!
