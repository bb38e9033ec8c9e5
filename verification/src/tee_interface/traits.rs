//! The request types, the errors, and the protocol that every trusted
//! execution environment of this runtime follows.

use vstd::prelude::*;

verus! {

/// How the inputs of a computation are combined.
#[derive(Debug, Clone, PartialEq, Eq)]
pub enum AggregationAlgorithm {
    FederatedAveraging,
    MultiKrum { byzantine_tolerance: usize },
}

/// What a computation inside the environment should do.
#[derive(Debug, Clone, PartialEq, Eq)]
pub struct ComputationParams {
    pub algorithm: AggregationAlgorithm,
}

/// Why an operation of the environment was refused.
#[derive(Debug, Clone, PartialEq, Eq)]
pub enum TeeError {
    NotInitialized,
    InvalidAllocationSize,
    InvalidPointer,
    InvalidInput(&'static str),
}

/// A fresh allocation of `size` bytes: all of them zero.
pub open spec fn zeroed(size: nat) -> Seq<u8> {
    Seq::new(size, |i: int| 0u8)
}

/// `buffer` after `data` was copied over its first `data.len()` bytes.
pub open spec fn overwrite_prefix(buffer: Seq<u8>, data: Seq<u8>) -> Seq<u8> {
    data + buffer.skip(data.len() as int)
}

/// A write keeps the allocation's length, puts the data in front and
/// leaves every byte past the data as it was.
pub proof fn lemma_overwrite_prefix_bytes(buffer: Seq<u8>, data: Seq<u8>)
    requires
        data.len() <= buffer.len(),
    ensures
        overwrite_prefix(buffer, data).len() == buffer.len(),
        forall|i: int| 0 <= i < data.len() ==> #[trigger] overwrite_prefix(buffer, data)[i] == data[i],
        forall|i: int|
            data.len() <= i < buffer.len() ==> #[trigger] overwrite_prefix(buffer, data)[i]
                == buffer[i],
{
}

/// A fresh allocation has the requested length and holds only zero bytes.
pub proof fn lemma_zeroed_bytes(size: nat)
    ensures
        zeroed(size).len() == size,
        forall|i: int| 0 <= i < size ==> #[trigger] zeroed(size)[i] == 0u8,
{
}

/// What an environment holds: whether it was initialized, and the bytes
/// of each live allocation by handle.
pub struct TeeState {
    pub ready: bool,
    pub contents: Map<usize, Seq<u8>>,
}

/// A request to an environment.
pub enum TeeCall {
    Initialize,
    Allocate(usize),
    Write(usize, Seq<u8>),
    /// A computation: it only reads the environment.
    Compute,
}

/// How one request may change an environment, whatever the environment
/// answers: a refused request leaves it as it was.
pub open spec fn tee_step(pre: TeeState, call: TeeCall, post: TeeState) -> bool {
    match call {
        TeeCall::Initialize => post.contents == pre.contents && (post.ready || post.ready
            == pre.ready),
        TeeCall::Allocate(size) => {
            &&& post.ready == pre.ready
            &&& {
                ||| post.contents == pre.contents
                ||| exists|handle: usize|
                    !pre.contents.contains_key(handle) && post.contents == pre.contents.insert(
                        handle,
                        zeroed(size as nat),
                    )
            }
        },
        TeeCall::Write(ptr, data) => {
            &&& post.ready == pre.ready
            &&& {
                ||| post.contents == pre.contents
                ||| {
                    &&& pre.contents.contains_key(ptr)
                    &&& data.len() <= pre.contents[ptr].len()
                    &&& post.contents == pre.contents.insert(
                        ptr,
                        overwrite_prefix(pre.contents[ptr], data),
                    )
                }
            }
        },
        TeeCall::Compute => post == pre,
    }
}

/// The protocol of a trusted execution environment: an initialization
/// switch and a set of byte allocations, each reached through a handle.
///
/// `ready` says whether the environment was initialized; `contents` maps
/// each live handle to the bytes of its allocation. Each environment says,
/// through `allocation_refusal` and `write_refusal`, which requests it
/// refuses in a given state and with which error; it grants every other
/// request. All environments refuse every request before initialization,
/// and a granted allocation accepts a write of its own size.
pub trait TeeGuard {
    spec fn ready(&self) -> bool;

    spec fn contents(&self) -> Map<usize, Seq<u8>>;

    /// The error with which this environment refuses to allocate `size`
    /// bytes, or `None` where it grants the allocation.
    spec fn allocation_refusal(&self, size: usize) -> Option<TeeError>;

    /// The error with which this environment refuses to write `len` bytes
    /// under `ptr`, or `None` where it grants the write.
    spec fn write_refusal(&self, ptr: usize, len: nat) -> Option<TeeError>;

    /// Switches the environment on. No allocation changes.
    fn initialize(&mut self) -> (result: Result<(), TeeError>)
        ensures
            final(self).contents() == old(self).contents(),
            result is Ok ==> final(self).ready(),
            result is Err ==> final(self).ready() == old(self).ready(),
            tee_step((TeeState { ready: old(self).ready(), contents: old(self).contents() }), TeeCall::Initialize, (TeeState { ready: final(self).ready(), contents: final(self).contents() })),
    ;

    /// Allocates `size` zeroed bytes under a handle that no live
    /// allocation uses, unless the environment refuses; a refusal returns
    /// the environment's error and changes nothing.
    fn allocate_memory(&mut self, size: usize) -> (result: Result<usize, TeeError>)
        ensures
            final(self).ready() == old(self).ready(),
            tee_step((TeeState { ready: old(self).ready(), contents: old(self).contents() }), TeeCall::Allocate(size), (TeeState { ready: final(self).ready(), contents: final(self).contents() })),
            !old(self).ready() ==> result == Err::<usize, TeeError>(TeeError::NotInitialized),
            match old(self).allocation_refusal(size) {
                Some(e) => {
                    &&& result == Err::<usize, TeeError>(e)
                    &&& final(self).contents() == old(self).contents()
                },
                None => {
                    &&& result matches Ok(handle)
                    &&& size > 0
                    &&& !old(self).contents().contains_key(handle)
                    &&& final(self).contents() == old(self).contents().insert(
                        handle,
                        zeroed(size as nat),
                    )
                    &&& final(self).write_refusal(handle, size as nat) is None
                    &&& final(self).contents()[handle].len() == size
                    &&& forall|i: int|
                        0 <= i < size ==> #[trigger] final(self).contents()[handle][i] == 0u8
                },
            },
    ;

    /// Copies `data` over the start of the allocation under `ptr`, unless
    /// the environment refuses; a refusal returns the environment's error
    /// and changes nothing. Only data that fits is ever written.
    fn write_data(&mut self, ptr: usize, data: &[u8]) -> (result: Result<(), TeeError>)
        ensures
            final(self).ready() == old(self).ready(),
            tee_step((TeeState { ready: old(self).ready(), contents: old(self).contents() }), TeeCall::Write(ptr, data@), (TeeState { ready: final(self).ready(), contents: final(self).contents() })),
            !old(self).ready() ==> result == Err::<(), TeeError>(TeeError::NotInitialized),
            match old(self).write_refusal(ptr, data@.len()) {
                Some(e) => {
                    &&& result == Err::<(), TeeError>(e)
                    &&& final(self).contents() == old(self).contents()
                },
                None => {
                    &&& result is Ok
                    &&& old(self).contents().contains_key(ptr)
                    &&& data@.len() <= old(self).contents()[ptr].len()
                    &&& final(self).contents() == old(self).contents().insert(
                        ptr,
                        overwrite_prefix(old(self).contents()[ptr], data@),
                    )
                    &&& final(self).contents()[ptr].len() == old(self).contents()[ptr].len()
                    &&& forall|i: int|
                        0 <= i < data@.len() ==> #[trigger] final(self).contents()[ptr][i]
                            == data@[i]
                    &&& forall|i: int|
                        data@.len() <= i < old(self).contents()[ptr].len()
                            ==> #[trigger] final(self).contents()[ptr][i] == old(self).contents()[ptr][i]
                },
            },
    ;
}

} // verus!
