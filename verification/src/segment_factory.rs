//! Segment factories: they create the shared memory segments that the server hands to
//! producers.
//!
//! Creating shared memory is up to the platform. What a factory decides is kept here: which
//! configurations are valid, how segments are named, and which segments are kept alive.

use std::alloc::Layout;
use std::collections::BTreeMap;
use std::marker::PhantomData;
use vstd::arithmetic::power2;
use vstd::prelude::*;
use crate::error::IamServerError;
use crate::text;
use crate::types::SegmentId;

verus! {

broadcast use {
    vstd::laws_cmp::group_laws_cmp,
    vstd::std_specs::btree::group_btree_axioms,
    crate::collections::group_views,
};

/// Factory for creating shared memory segments.
///
/// Nothing is promised of a factory: creating a segment may fail at any time, and may give a
/// segment of any size.
pub trait SegmentFactory: Send + Sync {
    /// The handles by which segments are passed to clients.
    type Handle;

    /// The memory of a segment.
    type Memory;

    /// Creates an anonymous shared memory segment with at least the given payload size, whose
    /// pool allocator has buckets of the given size and alignment. Gives the handle of the
    /// segment and its actual size.
    fn create_segment(
        &self,
        segment_id: SegmentId,
        size: usize,
        bucket_size: usize,
        bucket_align: usize,
    ) -> Result<(Self::Handle, usize), IamServerError>;

    /// Returns the memory that is stored for a segment.
    fn get_stored_segment(&self, segment_id: SegmentId) -> Option<Self::Memory>;
}

/// A factory that never creates a segment, for services that have none.
#[derive(Debug)]
pub struct NoSegmentFactory<H, M> {
    kind: PhantomData<(H, M)>,
}

impl<H, M> NoSegmentFactory<H, M> {
    /// A factory that never creates a segment.
    pub fn new() -> Self {
        NoSegmentFactory { kind: PhantomData }
    }
}

impl<H: Send + Sync, M: Send + Sync> SegmentFactory for NoSegmentFactory<H, M> {
    type Handle = H;

    type Memory = M;

    fn create_segment(
        &self,
        segment_id: SegmentId,
        size: usize,
        bucket_size: usize,
        bucket_align: usize,
    ) -> (result: Result<(H, usize), IamServerError>)
        ensures
            result == Err::<(H, usize), _>(IamServerError::SegmentCreationNotSupported),
    {
        Err(IamServerError::SegmentCreationNotSupported)
    }

    fn get_stored_segment(&self, segment_id: SegmentId) -> (memory: Option<M>)
        ensures
            memory is None,
    {
        None
    }
}

/// A size, rounded up to a multiple of an alignment.
pub open spec fn rounded_up(size: int, align: int) -> int {
    (size + align - 1) / align * align
}

/// Whether there is a memory layout of a size and an alignment.
pub open spec fn is_layout(size: usize, align: usize) -> bool {
    power2::is_pow2(align as int) && rounded_up(size as int, align as int) <= isize::MAX
}

/// Whether there is a memory layout of a size and an alignment, by
/// [`Layout::from_size_align`]: the alignment is a power of two, and the size, rounded up to a
/// multiple of it, does not exceed `isize::MAX`.
#[verifier::external_body]
fn layout_exists(size: usize, align: usize) -> (valid: bool)
    ensures
        valid == is_layout(size, align),
{
    Layout::from_size_align(size, align).is_ok()
}

/// What a factory has created.
#[verifier::ext_equal]
pub struct FactoryState<M> {
    /// The number of segment names that were given.
    pub count: u64,
    /// The memory that is kept, by segment identifier.
    pub segments: Map<u8, M>,
}

/// The name of a segment, by its number.
pub open spec fn segment_name(number: nat) -> Seq<char> {
    "iam_seg_"@ + text::decimal(number)
}

/// Creates segments for one service.
///
/// A segment is begun, which checks its configuration and names it; the platform creates it;
/// and it is completed, which keeps its memory.
#[derive(Debug)]
pub struct ServiceSegmentFactory<M> {
    segment_counter: u64,
    segments: BTreeMap<u8, M>,
}

impl<M> View for ServiceSegmentFactory<M> {
    type V = FactoryState<M>;

    closed spec fn view(&self) -> FactoryState<M> {
        FactoryState { count: self.segment_counter, segments: self.segments@ }
    }
}

impl<M> ServiceSegmentFactory<M> {
    /// Creates a new segment factory.
    pub fn new() -> (factory: Self)
        ensures
            factory@ == (FactoryState::<M> { count: 0, segments: Map::empty() }),
    {
        let factory = ServiceSegmentFactory { segment_counter: 0, segments: BTreeMap::new() };
        assert(factory@.segments =~= Map::empty());
        factory
    }

    /// Returns whether a further segment can be named.
    pub fn can_name(&self) -> (possible: bool)
        ensures
            possible == (self@.count < u64::MAX),
    {
        self.segment_counter < u64::MAX
    }

    /// Generates a unique segment name.
    fn generate_segment_name(&mut self) -> (name: String)
        requires
            old(self)@.count < u64::MAX,
        ensures
            name@ == segment_name((old(self)@.count + 1) as nat),
            final(self)@ == (FactoryState { count: (old(self)@.count + 1) as u64, ..old(self)@ }),
    {
        self.segment_counter = self.segment_counter + 1;
        let mut name = String::from_str("iam_seg_");
        text::append_decimal(&mut name, self.segment_counter as u128);
        name
    }

    /// Begins a segment, and gives the name to create it under.
    ///
    /// Buckets of which there is no memory layout are
    /// [`IamServerError::InvalidConfiguration`].
    pub fn begin_segment(&mut self, bucket_size: usize, bucket_align: usize) -> (name: Result<
        String,
        IamServerError,
    >)
        requires
            old(self)@.count < u64::MAX,
        ensures
            match name {
                Ok(name) => is_layout(bucket_size, bucket_align) && name@ == segment_name(
                    (old(self)@.count + 1) as nat,
                ) && final(self)@ == (FactoryState {
                    count: (old(self)@.count + 1) as u64,
                    ..old(self)@
                }),
                Err(error) => !is_layout(bucket_size, bucket_align) && error
                    == IamServerError::InvalidConfiguration && final(self)@ == old(self)@,
            },
    {
        if layout_exists(bucket_size, bucket_align) {
            Ok(self.generate_segment_name())
        } else {
            Err(IamServerError::InvalidConfiguration)
        }
    }

    /// Completes a segment with what the platform created: the memory is kept in place of what
    /// was kept for the identifier, and the handle and the actual size are given on.
    ///
    /// Where the platform created nothing, it is [`IamServerError::SegmentCreationFailed`].
    pub fn complete_segment<H>(
        &mut self,
        segment_id: SegmentId,
        created: Option<(M, H, usize)>,
    ) -> (result: Result<(H, usize), IamServerError>)
        ensures
            match created {
                Some((memory, handle, size)) => result == Ok::<(H, usize), IamServerError>(
                    (handle, size),
                ) && final(self)@ == (FactoryState {
                    segments: old(self)@.segments.insert(segment_id.value, memory),
                    ..old(self)@
                }),
                None => result == Err::<(H, usize), _>(IamServerError::SegmentCreationFailed)
                    && final(self)@ == old(self)@,
            },
    {
        match created {
            Some((memory, handle, size)) => {
                self.segments.insert(segment_id.value, memory);
                assert(self@.segments =~= old(self)@.segments.insert(segment_id.value, memory));
                Ok((handle, size))
            },
            None => Err(IamServerError::SegmentCreationFailed),
        }
    }

    /// Returns the memory that is stored for a segment.
    pub fn get_stored_segment(&self, segment_id: SegmentId) -> (memory: Option<&M>)
        ensures
            match memory {
                Some(stored) => self@.segments.contains_key(segment_id.value) && *stored
                    == self@.segments[segment_id.value],
                None => !self@.segments.contains_key(segment_id.value),
            },
    {
        self.segments.get(&segment_id.value)
    }
}

/// Segments with different numbers have different names.
pub proof fn law_segment_names_are_unique(one: nat, other: nat)
    requires
        segment_name(one) == segment_name(other),
    ensures
        one == other,
{
    let prefix = "iam_seg_"@;
    assert(segment_name(one).skip(prefix.len() as int) =~= text::decimal(one));
    assert(segment_name(other).skip(prefix.len() as int) =~= text::decimal(other));
    text::law_decimal_is_injective(one, other);
}

/// Segments are named by a fixed beginning and their number.
pub proof fn law_segments_are_named_by_number(number: nat)
    ensures
        segment_name(number) == "iam_seg_"@ + text::decimal(number),
{
}

/// There is a layout exactly for alignments that are powers of two, and for sizes of which the next
/// multiple of the alignment does not exceed the largest signed number; that multiple is at least
/// the size, and less than one alignment larger.
pub proof fn law_layouts_are_aligned(size: usize, align: usize)
    requires
        align > 0,
    ensures
        ({
            let up = rounded_up(size as int, align as int);
            &&& up >= size
            &&& up < size + align
            &&& up % (align as int) == 0
            &&& is_layout(size, align) <==> power2::is_pow2(align as int) && up <= isize::MAX
        }),
{
    let s = size as int;
    let a = align as int;
    let q = (s + a - 1) / a;
    assert(q * a >= s && q * a < s + a && (q * a) % a == 0) by (nonlinear_arith)
        requires
            a > 0,
            q == (s + a - 1) / a,
    ;
}

} // verus!
