//! The data segments of sender ports: their types, their sizes, and why an allocation fails.

use vstd::prelude::*;

verus! {

/// How a sender port gets memory.
#[derive(Debug, Clone, Copy, PartialEq, Eq, Structural)]
pub enum AllocationStrategy {
    /// Grow by as little as is needed.
    BestFit,
    /// Grow to the next power of two.
    PowerOfTwo,
    /// Never grow.
    Static,
    /// Grow by segments that the server creates.
    IamManaged,
}

/// Defines the data segment type of a zero copy capable sender port.
#[derive(Debug, Clone, Copy, PartialEq, Eq, Structural)]
pub enum DataSegmentType {
    /// The data segment can be resized if no more memory is available.
    Dynamic,
    /// The data segment is allocated once. If it is out of memory no reallocation will occur.
    Static,
}

impl DataSegmentType {
    /// The data segment type that an allocation strategy asks for.
    pub fn new_from_allocation_strategy(strategy: AllocationStrategy) -> (kind: Self)
        ensures
            kind is Static <==> strategy is Static,
    {
        match strategy {
            AllocationStrategy::Static => DataSegmentType::Static,
            _ => DataSegmentType::Dynamic,
        }
    }
}

/// Why shared memory could not be allocated; `E` is what the allocator reports.
#[derive(Debug, Clone, Copy, PartialEq, Eq)]
pub enum ShmAllocationError<E> {
    /// The allocator returned an error.
    AllocationError(E),
    /// The alignment requirement exceeds the maximum supported by the memory.
    ExceedsMaxSupportedAlignment,
}

/// Why resizable shared memory could not be allocated; `E` is what the allocator reports and
/// `C` what creating shared memory reports.
#[derive(Debug, Clone, Copy, PartialEq, Eq)]
pub enum ResizableShmAllocationError<E, C> {
    /// The shared memory could not be allocated.
    ShmAllocationError(ShmAllocationError<E>),
    /// The maximum number of segment reallocations has been reached.
    MaxReallocationsReached,
    /// A new shared memory segment could not be created.
    SharedMemoryCreateError(C),
    /// The segment has to be created by the server.
    NeedSegment {
        /// The recommended minimum size for the new segment.
        requested_size: usize,
    },
}

/// Error type for data segment allocation operations; `E` is what the allocator reports.
#[derive(Debug, Clone, Copy, PartialEq, Eq)]
pub enum DataSegmentAllocationError<E> {
    /// The underlying allocator returned an error.
    AllocationError(E),
    /// The alignment requirement exceeds the maximum supported by the memory.
    ExceedsMaxSupportedAlignment,
    /// The maximum number of segment reallocations has been reached.
    MaxReallocationsReached,
    /// An error occurred creating a new shared memory segment during reallocation.
    SharedMemoryCreateError,
    /// The segment has to be created by the server: the caller requests a segment of the size
    /// from it, and adds that.
    NeedSegment {
        /// The recommended minimum size for the new segment.
        requested_size: usize,
    },
}

impl<E> DataSegmentAllocationError<E> {
    /// What a failure to allocate from a static segment is.
    pub open spec fn of_static(error: ShmAllocationError<E>) -> Self {
        match error {
            ShmAllocationError::AllocationError(e) => DataSegmentAllocationError::AllocationError(
                e,
            ),
            ShmAllocationError::ExceedsMaxSupportedAlignment =>
                DataSegmentAllocationError::ExceedsMaxSupportedAlignment,
        }
    }

    /// Returns what a failure to allocate from a static segment is.
    pub fn from_static(error: ShmAllocationError<E>) -> (result: Self)
        ensures
            result == Self::of_static(error),
    {
        match error {
            ShmAllocationError::AllocationError(e) => DataSegmentAllocationError::AllocationError(
                e,
            ),
            ShmAllocationError::ExceedsMaxSupportedAlignment =>
                DataSegmentAllocationError::ExceedsMaxSupportedAlignment,
        }
    }

    /// Returns what a failure to allocate from a dynamic segment is. A size that is needed is
    /// kept; why a segment could not be created is not.
    pub fn from_dynamic<C>(error: ResizableShmAllocationError<E, C>) -> (result: Self)
        ensures
            result == (match error {
                ResizableShmAllocationError::ShmAllocationError(e) => Self::of_static(e),
                ResizableShmAllocationError::MaxReallocationsReached =>
                    DataSegmentAllocationError::MaxReallocationsReached,
                ResizableShmAllocationError::SharedMemoryCreateError(_) =>
                    DataSegmentAllocationError::SharedMemoryCreateError,
                ResizableShmAllocationError::NeedSegment { requested_size } =>
                    DataSegmentAllocationError::NeedSegment { requested_size },
            }),
    {
        match error {
            ResizableShmAllocationError::ShmAllocationError(e) => Self::from_static(e),
            ResizableShmAllocationError::MaxReallocationsReached =>
                DataSegmentAllocationError::MaxReallocationsReached,
            ResizableShmAllocationError::SharedMemoryCreateError(_) =>
                DataSegmentAllocationError::SharedMemoryCreateError,
            ResizableShmAllocationError::NeedSegment { requested_size } =>
                DataSegmentAllocationError::NeedSegment { requested_size },
        }
    }
}

/// The size of a static segment for chunks of a size and an alignment.
pub open spec fn static_size(chunk_size: usize, chunk_align: usize, number_of_chunks: usize) -> int {
    chunk_size * number_of_chunks + chunk_align - 1
}

/// Returns the size of a static segment that holds the given number of chunks, wherever the
/// segment begins.
pub fn static_segment_size(
    chunk_size: usize,
    chunk_align: usize,
    number_of_chunks: usize,
) -> (size: usize)
    requires
        chunk_align > 0,
        chunk_size * number_of_chunks + chunk_align <= usize::MAX,
    ensures
        size == static_size(chunk_size, chunk_align, number_of_chunks),
{
    chunk_size * number_of_chunks + chunk_align - 1
}

/// Returns how many segments a port of the given type may have, where a resizable shared memory
/// can be reallocated the given number of times. The number of a dynamic segment is taken
/// modulo 256.
pub fn max_number_of_segments(
    data_segment_type: DataSegmentType,
    max_number_of_reallocations: usize,
) -> (number: u8)
    requires
        max_number_of_reallocations > 0,
    ensures
        number == (match data_segment_type {
            DataSegmentType::Static => 1,
            DataSegmentType::Dynamic => (max_number_of_reallocations - 1) % 256,
        }),
{
    match data_segment_type {
        DataSegmentType::Static => 1,
        DataSegmentType::Dynamic => ((max_number_of_reallocations - 1) % 256) as u8,
    }
}

/// The chunks fit into a static segment at an aligned address, wherever the segment begins.
pub proof fn law_chunks_fit(
    chunk_size: usize,
    chunk_align: usize,
    number_of_chunks: usize,
    start: int,
) -> (first: int)
    requires
        chunk_align > 0,
        start >= 0,
    ensures
        start <= first,
        first % (chunk_align as int) == 0,
        first + chunk_size * number_of_chunks <= start + static_size(
            chunk_size,
            chunk_align,
            number_of_chunks,
        ),
{
    let align = chunk_align as int;
    let rest = start % align;
    if rest == 0 {
        start
    } else {
        let first = start + align - rest;
        assert(first % align == 0) by (nonlinear_arith)
            requires
                align > 0,
                rest == start % align,
                first == start + align - rest,
        ;
        first
    }
}

/// A static segment is as large as its chunks and, before them, what it takes at most to reach an
/// aligned address; it is no larger than that.
pub proof fn law_static_segments_waste_nothing(
    chunk_size: usize,
    chunk_align: usize,
    number_of_chunks: usize,
)
    requires
        chunk_align > 0,
    ensures
        static_size(chunk_size, chunk_align, number_of_chunks) == chunk_size * number_of_chunks + (
        chunk_align - 1),
        chunk_align == 1 ==> static_size(chunk_size, chunk_align, number_of_chunks) == chunk_size
            * number_of_chunks,
{
}

/// Why an allocation from a static segment failed is kept: the error of the allocator as it is, or
/// that the alignment is too large.
pub proof fn law_static_failures_are_kept<E>(error: E)
    ensures
        DataSegmentAllocationError::<E>::of_static(ShmAllocationError::AllocationError(error))
            == DataSegmentAllocationError::AllocationError(error),
        DataSegmentAllocationError::<E>::of_static(ShmAllocationError::ExceedsMaxSupportedAlignment)
            == DataSegmentAllocationError::<E>::ExceedsMaxSupportedAlignment,
{
}

} // verus!
