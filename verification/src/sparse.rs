//! Maps of the allocated parts of sparse files.
use crate::arith::{padding_to_512, tar_padding};
use crate::bytes::{append, decimal, decimal_digits, zero_vec, zeros};
use crate::errors::{bytes_agree, FormatError};
use vstd::prelude::*;

verus! {

/// An allocated part of a file.
#[derive(Debug, Clone, Copy, PartialEq, Eq, Structural)]
pub struct SparseExtent {
    pub offset: u64,
    pub length: u64,
}

/// Whether extents are non-empty, in order, apart from each other and inside the file.
pub open spec fn canonical_extents(extents: Seq<SparseExtent>, logical_size: int) -> bool {
    &&& forall|i: int|
        0 <= i < extents.len() ==> 0 < (#[trigger] extents[i]).length && extents[i].offset
            + extents[i].length <= logical_size
    &&& forall|i: int, j: int|
        0 <= i < j < extents.len() ==> (#[trigger] extents[i]).offset + extents[i].length < (
        #[trigger] extents[j]).offset
}

/// Bytes that the extents hold.
pub open spec fn extent_sum(extents: Seq<SparseExtent>) -> int
    decreases extents.len(),
{
    if extents.len() == 0 {
        0
    } else {
        extent_sum(extents.drop_last()) + extents.last().length
    }
}

/// What is wrong with an extent that follows one that ends at `previous_end`.
pub open spec fn extent_refusal(
    extent: SparseExtent,
    first: bool,
    previous_end: int,
    logical_size: int,
) -> Option<&'static str> {
    if extent.length == 0 || extent.offset < previous_end {
        Some("sparse extents overlap or have zero length")
    } else if !first && extent.offset == previous_end {
        Some("adjacent sparse extents must be merged")
    } else if extent.offset + extent.length > u64::MAX {
        Some("sparse extent overflow")
    } else if extent.offset + extent.length > logical_size {
        Some("sparse extent exceeds logical size")
    } else {
        None
    }
}

pub open spec fn extent_end(extents: Seq<SparseExtent>, count: int) -> int {
    if count <= 0 {
        0
    } else {
        extents[count - 1].offset + extents[count - 1].length
    }
}

/// The first objection against the extents from `at` on.
pub open spec fn extents_refusal_from(
    extents: Seq<SparseExtent>,
    at: int,
    logical_size: int,
) -> Option<&'static str>
    decreases extents.len() - at,
{
    if at >= extents.len() {
        None
    } else {
        match extent_refusal(extents[at], at == 0, extent_end(extents, at), logical_size) {
            Some(rule) => Some(rule),
            None => extents_refusal_from(extents, at + 1, logical_size),
        }
    }
}

pub open spec fn extents_refusal(
    extents: Seq<SparseExtent>,
    logical_size: int,
    max_extents: int,
) -> Option<&'static str> {
    if extents.len() > max_extents {
        Some("sparse extent count exceeds revision-45 limit")
    } else {
        extents_refusal_from(extents, 0, logical_size)
    }
}

/// Bytes that a map stores, or why it is no canonical map.
pub open spec fn extent_bytes_outcome(
    extents: Seq<SparseExtent>,
    logical_size: int,
    max_extents: int,
) -> Result<u64, FormatError> {
    match extents_refusal(extents, logical_size, max_extents) {
        Some(rule) => Err(FormatError::WriterUnsupported(rule)),
        None => Ok(extent_sum(extents) as u64),
    }
}

spec fn accepted_at(extents: Seq<SparseExtent>, i: int, logical_size: int) -> bool {
    extent_refusal(extents[i], i == 0, extent_end(extents, i), logical_size) is None
}

proof fn accepted_extents_are_ordered(extents: Seq<SparseExtent>, i: int, j: int, logical_size: int)
    requires
        forall|k: int| 0 <= k < extents.len() ==> #[trigger] accepted_at(extents, k, logical_size),
        0 <= i < j < extents.len(),
    ensures
        extents[i].offset + extents[i].length < extents[j].offset,
    decreases j - i,
{
    assert(accepted_at(extents, j, logical_size));
    if i + 1 < j {
        accepted_extents_are_ordered(extents, i, j - 1, logical_size);
    }
}

proof fn refusal_from_accepts(extents: Seq<SparseExtent>, at: int, logical_size: int)
    requires
        0 <= at,
    ensures
        extents_refusal_from(extents, at, logical_size) is None <==> forall|i: int|
            at <= i < extents.len() ==> #[trigger] accepted_at(extents, i, logical_size),
    decreases extents.len() - at,
{
    if at < extents.len() {
        refusal_from_accepts(extents, at + 1, logical_size);
        if extents_refusal_from(extents, at, logical_size) is None {
            assert(accepted_at(extents, at, logical_size));
        } else if extents_refusal_from(extents, at + 1, logical_size) is None {
            assert(!accepted_at(extents, at, logical_size));
        }
    }
}

/// A map is accepted if and only if it is canonical and not too long.
pub proof fn canonical_maps_are_accepted(
    extents: Seq<SparseExtent>,
    logical_size: u64,
    max_extents: int,
)
    ensures
        extents_refusal(extents, logical_size as int, max_extents) is None <==> extents.len()
            <= max_extents && canonical_extents(extents, logical_size as int),
{
    let size = logical_size as int;
    refusal_from_accepts(extents, 0, size);
    if extents_refusal_from(extents, 0, size) is None {
        assert forall|i: int, j: int| 0 <= i < j < extents.len() implies (#[trigger] extents[i]).offset
            + extents[i].length < (#[trigger] extents[j]).offset by {
            accepted_extents_are_ordered(extents, i, j, size);
        }
        assert forall|i: int| 0 <= i < extents.len() implies 0 < (#[trigger] extents[i]).length
            && extents[i].offset + extents[i].length <= size by {
            assert(accepted_at(extents, i, size));
        }
    }
    if canonical_extents(extents, size) {
        assert forall|i: int| 0 <= i < extents.len() implies #[trigger] accepted_at(
            extents,
            i,
            size,
        ) by {
            if i > 0 {
                assert(extents[i - 1].offset + extents[i - 1].length < extents[i].offset);
            }
            assert(0 < extents[i].length);
        }
    }
}

/// Checks that a map is canonical and adds up the bytes that it stores.
pub fn sparse_extent_bytes(extents: &[SparseExtent], logical_size: u64, max_extents: usize) -> (r:
    Result<u64, FormatError>)
    ensures
        r == extent_bytes_outcome(extents@, logical_size as int, max_extents as int),
        r matches Ok(sum) ==> sum == extent_sum(extents@) && sum <= logical_size,
{
    if extents.len() > max_extents {
        return Err(
            FormatError::WriterUnsupported("sparse extent count exceeds revision-45 limit"),
        );
    }
    let mut previous_end: u64 = 0;
    let mut stored_size: u64 = 0;
    let mut index: usize = 0;
    assert(extents@.take(0) =~= Seq::empty());
    while index < extents.len()
        invariant
            index <= extents.len(),
            extents.len() <= max_extents,
            previous_end == extent_end(extents@, index as int),
            stored_size == extent_sum(extents@.take(index as int)),
            stored_size <= previous_end <= logical_size,
            extents_refusal_from(extents@, index as int, logical_size as int)
                == extents_refusal_from(extents@, 0, logical_size as int),
        decreases extents.len() - index,
    {
        let extent: SparseExtent = extents[index];
        assert(extents@.take(index + 1).drop_last() =~= extents@.take(index as int));
        if extent.length == 0 || extent.offset < previous_end {
            return Err(
                FormatError::WriterUnsupported("sparse extents overlap or have zero length"),
            );
        }
        if index != 0 && extent.offset == previous_end {
            return Err(FormatError::WriterUnsupported("adjacent sparse extents must be merged"));
        }
        let end: u64 = match extent.offset.checked_add(extent.length) {
            Some(end) => end,
            None => {
                return Err(FormatError::WriterUnsupported("sparse extent overflow"));
            },
        };
        if end > logical_size {
            return Err(FormatError::WriterUnsupported("sparse extent exceeds logical size"));
        }
        stored_size = stored_size + extent.length;
        previous_end = end;
        index = index + 1;
    }
    assert(extents@.take(index as int) =~= extents@);
    Ok(stored_size)
}

/// The lines of a map: for each extent its offset and its length.
pub open spec fn extent_lines(extents: Seq<SparseExtent>) -> Seq<u8>
    decreases extents.len(),
{
    if extents.len() == 0 {
        Seq::empty()
    } else {
        extent_lines(extents.drop_last()) + (decimal(extents.last().offset as nat).push(10u8)
            + decimal(extents.last().length as nat).push(10u8))
    }
}

/// A map as text: the number of extents, then their lines, padded to whole records.
pub open spec fn sparse_map_text(extents: Seq<SparseExtent>) -> Seq<u8> {
    let text = decimal(extents.len()).push(10u8) + extent_lines(extents);
    text + zeros(tar_padding(text.len() as int))
}

pub open spec fn sparse_map_outcome(
    extents: Seq<SparseExtent>,
    logical_size: int,
    max_extents: int,
) -> Result<Seq<u8>, FormatError> {
    match extents_refusal(extents, logical_size, max_extents) {
        Some(rule) => Err(FormatError::WriterUnsupported(rule)),
        None => Ok(sparse_map_text(extents)),
    }
}

/// A map as it stands at the head of a sparse member.
pub fn encode_v45_sparse_map(extents: &[SparseExtent], logical_size: u64, max_extents: usize) -> (r:
    Result<Vec<u8>, FormatError>)
    ensures
        bytes_agree(r, sparse_map_outcome(extents@, logical_size as int, max_extents as int)),
{
    sparse_extent_bytes(extents, logical_size, max_extents)?;
    let mut map: Vec<u8> = decimal_digits(extents.len() as u64);
    map.push(10);
    let ghost head = map@;
    let mut i: usize = 0;
    assert(extents@.take(0) =~= Seq::empty());
    assert(map@ =~= head + extent_lines(extents@.take(0)));
    while i < extents.len()
        invariant
            i <= extents.len(),
            map@ == head + extent_lines(extents@.take(i as int)),
        decreases extents.len() - i,
    {
        let ghost before = map@;
        assert(extents@.take(i + 1).drop_last() =~= extents@.take(i as int));
        let mut line: Vec<u8> = decimal_digits(extents[i].offset);
        line.push(10);
        append(&mut map, line.as_slice());
        let mut line: Vec<u8> = decimal_digits(extents[i].length);
        line.push(10);
        append(&mut map, line.as_slice());
        i = i + 1;
        assert(map@ =~= head + extent_lines(extents@.take(i as int)));
    }
    assert(extents@.take(i as int) =~= extents@);
    let padding: Vec<u8> = zero_vec(padding_to_512(map.len()));
    append(&mut map, padding.as_slice());
    Ok(map)
}

/// Map texts consist of whole records.
pub proof fn sparse_map_is_whole_records(extents: Seq<SparseExtent>)
    ensures
        sparse_map_text(extents).len() % 512 == 0,
        sparse_map_text(extents).len() > 0,
{
    let text = decimal(extents.len()).push(10u8) + extent_lines(extents);
    crate::arith::tar_padding_fills_the_last_record(text.len() as int);
}

} // verus!
