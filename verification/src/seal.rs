//! Turning a payload into the blocks of a sealed object.
use crate::arith::{checked_u64_add, u32_len};
use crate::bytes::to_bytes;
use crate::codec::{contents_of, ArchiveCodec, SealContext};
use crate::errors::{bytes_agree, FormatError};
use crate::format::{AeadAlgo, BlockKind};
use crate::object_plan::{
    classed_plan, plan_encrypted_object, sealed_block_count, sealed_size,
    sealed_size_is_block_aligned, shard_total_outcome, validate_object_shard_total, ObjectExtent,
    PlannedEncryptedObject,
};
use crate::options::{compute_object_parity, object_parity_outcome, parity_outcome, WriterOptions};
use crate::wire::{BlockRecord, BlockValue};
use vstd::prelude::*;

verus! {

/// How an object is sealed and which class bounds it.
#[derive(Debug, Clone, Copy, PartialEq, Eq)]
pub struct ObjectEncryptionContext {
    pub key: [u8; 32],
    pub seal: SealContext,
    pub data_kind: BlockKind,
    pub parity_kind: BlockKind,
    pub data_shard_max: u16,
    pub class_parity_shard_max: u16,
}

/// A sealed object and its blocks.
#[derive(Debug, Clone, PartialEq, Eq)]
pub struct EncryptedObject {
    pub first_block_index: u64,
    pub data_block_count: u32,
    pub parity_block_count: u32,
    pub encrypted_size: u32,
    pub records: Vec<BlockRecord>,
}

/// A sealed object by content.
pub struct EncryptedValue {
    pub extent: ObjectExtent,
    pub records: Seq<BlockValue>,
}

/// The contents of a list of blocks.
pub open spec fn block_values(records: Seq<BlockRecord>) -> Seq<BlockValue> {
    Seq::new(records.len(), |i: int| records[i]@)
}

impl EncryptedObject {
    pub open spec fn spec_extent(&self) -> ObjectExtent {
        ObjectExtent {
            first_block_index: self.first_block_index,
            data_block_count: self.data_block_count,
            parity_block_count: self.parity_block_count,
            encrypted_size: self.encrypted_size,
        }
    }

    pub open spec fn value(&self) -> EncryptedValue {
        EncryptedValue { extent: self.spec_extent(), records: block_values(self.records@) }
    }
}

impl<'a> vstd::std_specs::convert::FromSpecImpl<&'a EncryptedObject> for ObjectExtent {
    open spec fn obeys_from_spec() -> bool {
        true
    }

    open spec fn from_spec(object: &'a EncryptedObject) -> ObjectExtent {
        object.spec_extent()
    }
}

impl<'a> From<&'a EncryptedObject> for ObjectExtent {
    fn from(object: &'a EncryptedObject) -> (r: ObjectExtent) {
        ObjectExtent {
            first_block_index: object.first_block_index,
            data_block_count: object.data_block_count,
            parity_block_count: object.parity_block_count,
            encrypted_size: object.encrypted_size,
        }
    }
}

/// A block that is ready to be written.
#[derive(Debug, Clone, PartialEq, Eq)]
pub struct SerializedBlockRecord {
    pub block_index: u64,
    pub bytes: Vec<u8>,
}

/// The `i`-th piece of `size` bytes.
pub open spec fn piece(s: Seq<u8>, size: int, i: int) -> Seq<u8> {
    s.subrange(i * size, (i + 1) * size)
}

/// A string cut into `count` pieces of `size` bytes.
pub open spec fn pieces(s: Seq<u8>, size: int, count: int) -> Seq<Seq<u8>> {
    Seq::new(count as nat, |i: int| piece(s, size, i))
}

/// A payload padded and, where the archive is encrypted, sealed.
pub open spec fn sealed_payload<C: ArchiveCodec>(
    codec: &C,
    payload: Seq<u8>,
    context: ObjectEncryptionContext,
    o: WriterOptions,
) -> Result<Seq<u8>, FormatError> {
    match codec.padded(payload, o.aead_algo.spec_tag_len(), o.block_size as nat) {
        Err(e) => Err(e),
        Ok(padded) => if o.aead_algo == AeadAlgo::Unsealed {
            Ok(padded)
        } else {
            match codec.nonce(context.seal, o.aead_algo.spec_nonce_len()) {
                Err(e) => Err(e),
                Ok(nonce) => match codec.aad(context.seal) {
                    Err(e) => Err(e),
                    Ok(aad) => codec.sealed(o.aead_algo, context.key, nonce, aad, padded),
                },
            }
        },
    }
}

pub fn encrypt_object_payload<C: ArchiveCodec>(
    codec: &C,
    payload: &[u8],
    context: &ObjectEncryptionContext,
    options: WriterOptions,
) -> (r: Result<Vec<u8>, FormatError>)
    ensures
        bytes_agree(r, sealed_payload(codec, payload@, *context, options)),
        options.block_size > 0 ==> (r matches Ok(sealed) ==> sealed@.len() == sealed_size(
            payload@.len() as int,
            options,
        )),
{
    let padded: Vec<u8> = codec.pad(
        payload,
        options.aead_algo.tag_len(),
        options.block_size as usize,
    )?;
    if !options.aead_algo.is_encrypted() {
        return Ok(padded);
    }
    let nonce: Vec<u8> = codec.derive_nonce(&context.seal, options.aead_algo.nonce_len())?;
    let aad: Vec<u8> = codec.build_aad(&context.seal)?;
    codec.seal(
        options.aead_algo,
        &context.key,
        nonce.as_slice(),
        aad.as_slice(),
        padded.as_slice(),
    )
}

/// The parity shards of the data shards of an object.
pub open spec fn object_parity_shards<C: ArchiveCodec>(
    codec: &C,
    shards: Seq<Seq<u8>>,
    count: nat,
) -> Result<Seq<Seq<u8>>, FormatError> {
    if count == 0 {
        Ok(Seq::empty())
    } else {
        codec.parity(shards, count)
    }
}

/// Which block number first leaves the range of block numbers.
pub open spec fn block_range_refusal(first: int, data: int, parity: int) -> Option<&'static str> {
    if first + data - 1 > u64::MAX {
        Some("BlockRecord")
    } else if first + data > u64::MAX {
        Some("FEC")
    } else if parity > 0 && first + data + parity - 1 > u64::MAX {
        Some("BlockRecord")
    } else if first + data + parity > u64::MAX {
        Some("next_block_index")
    } else {
        None
    }
}

/// The blocks of an object: its data in order, the last piece marked, then its parity.
pub open spec fn object_blocks(
    sealed: Seq<u8>,
    block_size: int,
    parity: Seq<Seq<u8>>,
    first: int,
    data_kind: BlockKind,
    parity_kind: BlockKind,
) -> Seq<BlockValue> {
    let n = sealed.len() as int / block_size;
    Seq::new(
        (n + parity.len()) as nat,
        |i: int|
            if i < n {
                BlockValue {
                    block_index: (first + i) as u64,
                    kind: data_kind,
                    flags: if i == n - 1 {
                        1u8
                    } else {
                        0u8
                    },
                    payload: piece(sealed, block_size, i),
                }
            } else {
                BlockValue {
                    block_index: (first + i) as u64,
                    kind: parity_kind,
                    flags: 0u8,
                    payload: parity[i - n],
                }
            },
    )
}

/// Parity blocks that `sealed` gets, or why it cannot be cut into the blocks of an object.
pub open spec fn sealed_parity_count(
    sealed: Seq<u8>,
    context: ObjectEncryptionContext,
    o: WriterOptions,
) -> Result<u32, FormatError> {
    let size = o.block_size as int;
    let n = sealed.len() as int / size;
    if sealed.len() as int % size != 0 {
        Err(FormatError::WriterInvariant("encrypted object is not block aligned"))
    } else if sealed.len() > u32::MAX {
        Err(FormatError::WriterUnsupported("encrypted_size"))
    } else if n == 0 {
        Err(FormatError::WriterInvariant("encrypted object has no data blocks"))
    } else if n > context.data_shard_max {
        Err(FormatError::WriterUnsupported("encrypted object exceeds its data shard class maximum"))
    } else {
        match object_parity_outcome(o, n, context.class_parity_shard_max as int) {
            Err(e) => Err(e),
            Ok(p) => match shard_total_outcome(n, p as int) {
                Err(e) => Err(e),
                Ok(_) => Ok(p),
            },
        }
    }
}

/// A sealed object that starts at block `first`.
pub open spec fn encrypted_outcome<C: ArchiveCodec>(
    codec: &C,
    payload: Seq<u8>,
    context: ObjectEncryptionContext,
    first: u64,
    o: WriterOptions,
) -> Result<EncryptedValue, FormatError> {
    match sealed_payload(codec, payload, context, o) {
        Err(e) => Err(e),
        Ok(sealed) => match sealed_parity_count(sealed, context, o) {
            Err(e) => Err(e),
            Ok(p) => {
                let size = o.block_size as int;
                let n = sealed.len() as int / size;
                match object_parity_shards(codec, pieces(sealed, size, n), p as nat) {
                    Err(e) => Err(e),
                    Ok(parity) => match block_range_refusal(first as int, n, p as int) {
                        Some(field) => Err(FormatError::WriterUnsupported(field)),
                        None => Ok(
                            EncryptedValue {
                                extent: ObjectExtent {
                                    first_block_index: first,
                                    data_block_count: n as u32,
                                    parity_block_count: p,
                                    encrypted_size: sealed.len() as u32,
                                },
                                records: object_blocks(
                                    sealed,
                                    size,
                                    parity,
                                    first as int,
                                    context.data_kind,
                                    context.parity_kind,
                                ),
                            },
                        ),
                    },
                }
            },
        },
    }
}

pub open spec fn encrypted_agree(
    r: Result<EncryptedObject, FormatError>,
    s: Result<EncryptedValue, FormatError>,
) -> bool {
    match (r, s) {
        (Ok(v), Ok(w)) => v.value() == w,
        (Err(e), Err(f)) => e == f,
        _ => false,
    }
}

proof fn piece_bounds(len: int, size: int, i: int)
    requires
        size > 0,
        len >= 0,
        len % size == 0,
        0 <= i < len / size,
    ensures
        0 <= i * size <= (i + 1) * size <= len,
        (i + 1) * size - i * size == size,
{
    vstd::arithmetic::div_mod::lemma_fundamental_div_mod(len, size);
    let n = len / size;
    assert(0 <= i * size) by (nonlinear_arith)
        requires
            i >= 0,
            size > 0,
    ;
    assert((i + 1) * size == i * size + size) by (nonlinear_arith);
    assert((i + 1) * size <= n * size) by (nonlinear_arith)
        requires
            i + 1 <= n,
            size > 0,
    ;
    assert(n * size == size * n) by (nonlinear_arith);
}

/// Cuts a string whose length is a multiple of `size` into pieces.
pub fn cut_pieces(bytes: &[u8], size: usize) -> (r: Vec<Vec<u8>>)
    requires
        size > 0,
        bytes@.len() as int % size as int == 0,
    ensures
        contents_of(r@) == pieces(bytes@, size as int, bytes@.len() as int / size as int),
        r@.len() == bytes@.len() as int / size as int,
{
    let total: usize = bytes.len();
    let count: usize = total / size;
    let mut out: Vec<Vec<u8>> = Vec::new();
    let mut i: usize = 0;
    while i < count
        invariant
            size > 0,
            total == bytes@.len(),
            bytes@.len() as int % size as int == 0,
            count == bytes@.len() as int / size as int,
            i <= count,
            out@.len() == i,
            forall|k: int| 0 <= k < i ==> (#[trigger] out@[k])@ == piece(bytes@, size as int, k),
        decreases count - i,
    {
        proof {
            piece_bounds(bytes@.len() as int, size as int, i as int);
        }
        let start: usize = i * size;
        let end: usize = start + size;
        out.push(to_bytes(vstd::slice::slice_subrange(bytes, start, end)));
        i = i + 1;
    }
    assert(contents_of(out@) =~= pieces(bytes@, size as int, count as int));
    out
}

/// Seals a payload and cuts it into the blocks of an object that starts at `*next_block_index`,
/// which moves past the object.
#[verifier::rlimit(50)]
#[verifier::loop_isolation(false)]
pub fn encrypt_object<C: ArchiveCodec>(
    codec: &C,
    payload: &[u8],
    context: &ObjectEncryptionContext,
    next_block_index: &mut u64,
    options: WriterOptions,
) -> (r: Result<EncryptedObject, FormatError>)
    requires
        options.block_size > 0,
    ensures
        encrypted_agree(
            r,
            encrypted_outcome(codec, payload@, *context, *old(next_block_index), options),
        ),
        *final(next_block_index) == (match r {
            Ok(object) => (object.first_block_index + object.spec_extent().total()) as u64,
            Err(_) => *old(next_block_index),
        }),
        r matches Ok(object) ==> object.first_block_index == *old(next_block_index)
            && object.first_block_index + object.spec_extent().total() <= u64::MAX
            && object.records@.len() == object.spec_extent().total(),
        r matches Ok(object) ==> classed_plan(
            payload@.len() as int,
            context.data_shard_max as int,
            context.class_parity_shard_max as int,
            options,
        ) == Ok::<PlannedEncryptedObject, FormatError>(
            PlannedEncryptedObject {
                data_block_count: object.data_block_count,
                parity_block_count: object.parity_block_count,
                encrypted_size: object.encrypted_size,
            },
        ),
        r matches Ok(object) ==> (object.parity_block_count == 0 ==> serialized_outcome(
            codec,
            payload@,
            *context,
            object.spec_extent(),
            options,
        ) == Ok::<Seq<SerializedValue>, FormatError>(
            serialized_blocks(codec, object.value().records),
        )),
{
    let block_size: usize = options.block_size as usize;
    let encrypted: Vec<u8> = encrypt_object_payload(codec, payload, context, options)?;
    if encrypted.len() % block_size != 0 {
        return Err(FormatError::WriterInvariant("encrypted object is not block aligned"));
    }
    let encrypted_size: u32 = u32_len(encrypted.len(), "encrypted_size")?;
    let data_shards: Vec<Vec<u8>> = cut_pieces(encrypted.as_slice(), block_size);
    proof {
        vstd::arithmetic::div_mod::lemma_div_nonincreasing(
            encrypted@.len() as int,
            block_size as int,
        );
    }
    let data_block_count: u32 = u32_len(data_shards.len(), "data_block_count")?;
    if data_block_count == 0 {
        return Err(FormatError::WriterInvariant("encrypted object has no data blocks"));
    }
    if data_block_count > context.data_shard_max as u32 {
        return Err(
            FormatError::WriterUnsupported("encrypted object exceeds its data shard class maximum"),
        );
    }
    let parity_count: u32 = compute_object_parity(
        data_block_count as u64,
        options,
        context.class_parity_shard_max as u32,
    )?;
    validate_object_shard_total(data_block_count, parity_count)?;
    let parity_shards: Vec<Vec<u8>> = if parity_count == 0 {
        let none: Vec<Vec<u8>> = Vec::new();
        assert(contents_of(none@) =~= Seq::empty());
        none
    } else {
        codec.encode_parity(&data_shards, parity_count as usize)?
    };
    let ghost parity = contents_of(parity_shards@);
    let ghost sealed = encrypted@;
    let ghost expected = object_blocks(
        sealed,
        block_size as int,
        parity,
        *next_block_index as int,
        context.data_kind,
        context.parity_kind,
    );

    let first_block_index: u64 = *next_block_index;
    let mut records: Vec<BlockRecord> = Vec::new();
    let mut index: usize = 0;
    while index < data_shards.len()
        invariant
            index <= data_shards.len(),
            data_block_count == data_shards.len(),
            0 < data_block_count,
            records@.len() == index,
            sealed.len() as int / block_size as int == data_block_count,
            contents_of(data_shards@) == pieces(sealed, block_size as int, data_block_count as int),
            expected == object_blocks(
                sealed,
                block_size as int,
                parity,
                first_block_index as int,
                context.data_kind,
                context.parity_kind,
            ),
            index > 0 ==> first_block_index + index - 1 <= u64::MAX,
            forall|k: int| 0 <= k < index ==> (#[trigger] records@[k])@ == expected[k],
        decreases data_shards.len() - index,
    {
        let block_index: u64 = checked_u64_add(first_block_index, index as u64, "BlockRecord")?;
        assert(contents_of(data_shards@)[index as int] == data_shards@[index as int]@);
        records.push(
            BlockRecord {
                block_index,
                kind: context.data_kind,
                flags: if index + 1 == data_block_count as usize {
                    1
                } else {
                    0
                },
                payload: to_bytes(data_shards[index].as_slice()),
            },
        );
        assert(records@[index as int]@ == expected[index as int]);
        index = index + 1;
    }
    let parity_first_block: u64 = checked_u64_add(first_block_index, data_block_count as u64, "FEC")?;
    let mut index: usize = 0;
    while index < parity_shards.len()
        invariant
            index <= parity_shards.len(),
            parity_shards.len() == parity_count,
            parity == contents_of(parity_shards@),
            parity_first_block == first_block_index + data_block_count,
            records@.len() == data_block_count + index,
            sealed.len() as int / block_size as int == data_block_count,
            expected == object_blocks(
                sealed,
                block_size as int,
                parity,
                first_block_index as int,
                context.data_kind,
                context.parity_kind,
            ),
            index > 0 ==> parity_first_block + index - 1 <= u64::MAX,
            forall|k: int|
                0 <= k < data_block_count + index ==> (#[trigger] records@[k])@ == expected[k],
        decreases parity_shards.len() - index,
    {
        let block_index: u64 = checked_u64_add(parity_first_block, index as u64, "BlockRecord")?;
        assert(parity[index as int] == parity_shards@[index as int]@);
        records.push(
            BlockRecord {
                block_index,
                kind: context.parity_kind,
                flags: 0,
                payload: to_bytes(parity_shards[index].as_slice()),
            },
        );
        assert(records@[data_block_count + index]@ == expected[data_block_count + index]);
        index = index + 1;
    }
    *next_block_index = checked_u64_add(
        first_block_index,
        data_block_count as u64 + parity_count as u64,
        "next_block_index",
    )?;
    assert(block_values(records@) =~= expected);
    proof {
        sealed_objects_are_as_planned(codec, payload@, *context, first_block_index, options);
        sealed_objects_serialize_directly(codec, payload@, *context, first_block_index, options);
    }
    Ok(
        EncryptedObject {
            first_block_index,
            data_block_count,
            parity_block_count: parity_count,
            encrypted_size,
            records,
        },
    )
}

/// Whether an object came out as it was planned.
pub fn validate_planned_object(object: &EncryptedObject, expected: PlannedEncryptedObject) -> (r:
    Result<(), FormatError>)
    ensures
        r == (if object.data_block_count == expected.data_block_count && object.parity_block_count
            == expected.parity_block_count && object.encrypted_size == expected.encrypted_size {
            Ok(())
        } else {
            Err(FormatError::WriterInvariant("encrypted object did not match planned sizing"))
        }),
{
    if object.data_block_count != expected.data_block_count || object.parity_block_count
        != expected.parity_block_count || object.encrypted_size != expected.encrypted_size {
        return Err(FormatError::WriterInvariant("encrypted object did not match planned sizing"));
    }
    Ok(())
}

/// Whether an extent is the planned one.
pub open spec fn extent_check(actual: ObjectExtent, expected: ObjectExtent) -> Result<
    (),
    FormatError,
> {
    if actual.data_block_count != expected.data_block_count || actual.parity_block_count
        != expected.parity_block_count || actual.encrypted_size != expected.encrypted_size {
        Err(FormatError::WriterInvariant("encrypted object did not match planned sizing"))
    } else if actual.first_block_index != expected.first_block_index {
        Err(FormatError::WriterInvariant("encrypted object did not match planned extent"))
    } else {
        Ok(())
    }
}

/// Whether an object came out where and as it was planned.
pub fn validate_planned_extent(object: &EncryptedObject, expected: ObjectExtent) -> (r: Result<
    (),
    FormatError,
>)
    ensures
        r == extent_check(object.spec_extent(), expected),
        r is Ok <==> object.spec_extent() == expected,
{
    validate_planned_object(
        object,
        PlannedEncryptedObject {
            data_block_count: expected.data_block_count,
            parity_block_count: expected.parity_block_count,
            encrypted_size: expected.encrypted_size,
        },
    )?;
    if object.first_block_index != expected.first_block_index {
        return Err(FormatError::WriterInvariant("encrypted object did not match planned extent"));
    }
    Ok(())
}

// ---------------------------------------------------------------------------------------------
// Objects without parity, serialized directly
// ---------------------------------------------------------------------------------------------

/// Why a sealed payload cannot be serialized as the planned object without parity.
pub open spec fn zero_parity_refusal(
    planned: PlannedEncryptedObject,
    expected: ObjectExtent,
) -> Option<FormatError> {
    if planned.parity_block_count != 0 || expected.parity_block_count != 0 {
        Some(FormatError::WriterInvariant("zero-parity serialization received a parity object"))
    } else if planned.data_block_count != expected.data_block_count || planned.encrypted_size
        != expected.encrypted_size {
        Some(FormatError::WriterInvariant("encrypted object did not match planned sizing"))
    } else {
        None
    }
}

/// A block and its number as they are written.
pub struct SerializedValue {
    pub block_index: u64,
    pub bytes: Seq<u8>,
}

pub open spec fn serialized_values(records: Seq<SerializedBlockRecord>) -> Seq<SerializedValue> {
    Seq::new(
        records.len(),
        |i: int| SerializedValue { block_index: records[i].block_index, bytes: records[i].bytes@ },
    )
}

/// The blocks of a list as they are written.
pub open spec fn serialized_blocks<C: ArchiveCodec>(codec: &C, blocks: Seq<BlockValue>) -> Seq<
    SerializedValue,
> {
    Seq::new(
        blocks.len(),
        |i: int|
            SerializedValue {
                block_index: blocks[i].block_index,
                bytes: codec.block_bytes(blocks[i]),
            },
    )
}

pub open spec fn serialized_outcome<C: ArchiveCodec>(
    codec: &C,
    payload: Seq<u8>,
    context: ObjectEncryptionContext,
    expected: ObjectExtent,
    o: WriterOptions,
) -> Result<Seq<SerializedValue>, FormatError> {
    match classed_plan(
        payload.len() as int,
        context.data_shard_max as int,
        context.class_parity_shard_max as int,
        o,
    ) {
        Err(e) => Err(e),
        Ok(planned) => match zero_parity_refusal(planned, expected) {
            Some(e) => Err(e),
            None => match sealed_payload(codec, payload, context, o) {
                Err(e) => Err(e),
                Ok(sealed) => {
                    let size = o.block_size as int;
                    let n = sealed.len() as int / size;
                    if sealed.len() != expected.encrypted_size || sealed.len() as int % size != 0
                        || n == 0 || n != expected.data_block_count {
                        Err(
                            FormatError::WriterInvariant(
                                "encrypted object did not match planned sizing",
                            ),
                        )
                    } else if expected.first_block_index + n - 1 > u64::MAX {
                        Err(FormatError::WriterUnsupported("BlockRecord"))
                    } else {
                        Ok(
                            serialized_blocks(
                                codec,
                                object_blocks(
                                    sealed,
                                    size,
                                    Seq::empty(),
                                    expected.first_block_index as int,
                                    context.data_kind,
                                    context.parity_kind,
                                ),
                            ),
                        )
                    }
                },
            },
        },
    }
}

/// The written blocks of an object that has no parity.
#[verifier::rlimit(50)]
#[verifier::loop_isolation(false)]
pub fn serialize_zero_parity_encrypted_object<C: ArchiveCodec>(
    codec: &C,
    payload: &[u8],
    context: &ObjectEncryptionContext,
    expected_extent: ObjectExtent,
    options: WriterOptions,
) -> (r: Result<Vec<SerializedBlockRecord>, FormatError>)
    requires
        options.block_size > 0,
    ensures
        match (r, serialized_outcome(codec, payload@, *context, expected_extent, options)) {
            (Ok(v), Ok(w)) => serialized_values(v@) == w,
            (Err(e), Err(f)) => e == f,
            _ => false,
        },
{
    let planned = plan_encrypted_object(
        payload.len(),
        context.data_shard_max,
        context.class_parity_shard_max,
        options,
    )?;
    if planned.parity_block_count != 0 || expected_extent.parity_block_count != 0 {
        return Err(
            FormatError::WriterInvariant("zero-parity serialization received a parity object"),
        );
    }
    if planned.data_block_count != expected_extent.data_block_count || planned.encrypted_size
        != expected_extent.encrypted_size {
        return Err(FormatError::WriterInvariant("encrypted object did not match planned sizing"));
    }
    let block_size: usize = options.block_size as usize;
    let encrypted: Vec<u8> = encrypt_object_payload(codec, payload, context, options)?;
    if encrypted.len() as u64 != expected_extent.encrypted_size as u64 || encrypted.len()
        % block_size != 0 {
        return Err(FormatError::WriterInvariant("encrypted object did not match planned sizing"));
    }
    let data_block_count: usize = encrypted.len() / block_size;
    if data_block_count == 0 || data_block_count as u64 != expected_extent.data_block_count as u64 {
        return Err(FormatError::WriterInvariant("encrypted object did not match planned sizing"));
    }
    let ghost blocks = object_blocks(
        encrypted@,
        block_size as int,
        Seq::empty(),
        expected_extent.first_block_index as int,
        context.data_kind,
        context.parity_kind,
    );
    let ghost written = serialized_blocks(codec, blocks);
    let mut records: Vec<SerializedBlockRecord> = Vec::new();
    let mut index: usize = 0;
    while index < data_block_count
        invariant
            index <= data_block_count,
            0 < block_size,
            0 < data_block_count,
            data_block_count == encrypted@.len() as int / block_size as int,
            encrypted@.len() as int % block_size as int == 0,
            data_block_count <= u32::MAX,
            records@.len() == index,
            blocks == object_blocks(
                encrypted@,
                block_size as int,
                Seq::empty(),
                expected_extent.first_block_index as int,
                context.data_kind,
                context.parity_kind,
            ),
            written == serialized_blocks(codec, blocks),
            index > 0 ==> expected_extent.first_block_index + index - 1 <= u64::MAX,
            forall|k: int|
                0 <= k < index ==> (SerializedValue {
                    block_index: (#[trigger] records@[k]).block_index,
                    bytes: records@[k].bytes@,
                }) == written[k],
        decreases data_block_count - index,
    {
        let block_index: u64 = checked_u64_add(
            expected_extent.first_block_index,
            index as u64,
            "BlockRecord",
        )?;
        proof {
            piece_bounds(encrypted@.len() as int, block_size as int, index as int);
        }
        let flags: u8 = if index + 1 == data_block_count {
            1
        } else {
            0
        };
        let start: usize = index * block_size;
        let chunk: &[u8] = vstd::slice::slice_subrange(
            encrypted.as_slice(),
            start,
            start + block_size,
        );
        let bytes: Vec<u8> = codec.encode_block(block_index, context.data_kind, flags, chunk);
        assert(chunk@ == piece(encrypted@, block_size as int, index as int));
        records.push(SerializedBlockRecord { block_index, bytes });
        index = index + 1;
    }
    assert(serialized_values(records@) =~= written);
    Ok(records)
}

/// Serializing an object without parity directly writes the blocks that sealing it would give.
pub proof fn direct_serialization_matches_sealing<C: ArchiveCodec>(
    codec: &C,
    payload: Seq<u8>,
    context: ObjectEncryptionContext,
    expected: ObjectExtent,
    o: WriterOptions,
)
    requires
        o.block_size > 0,
        parity_outcome(o, expected.data_block_count as int) == Ok::<u32, FormatError>(0),
        expected.first_block_index + expected.data_block_count <= u64::MAX,
    ensures
        serialized_outcome(codec, payload, context, expected, o) matches Ok(written) ==> {
            &&& encrypted_outcome(
                codec,
                payload,
                context,
                expected.first_block_index,
                o,
            ) matches Ok(object)
            &&& object.extent == expected
            &&& written == serialized_blocks(codec, object.records)
        },
{
}

/// Whether a payload, once sealed, fills the blocks that are planned for one of its length.
pub open spec fn fills_its_blocks<C: ArchiveCodec>(
    codec: &C,
    payload: Seq<u8>,
    context: ObjectEncryptionContext,
    o: WriterOptions,
) -> bool {
    sealed_payload(codec, payload, context, o) matches Ok(sealed) ==> sealed.len() == sealed_size(
        payload.len() as int,
        o,
    )
}

/// A sealed object has the size that was planned for its payload: the plan, made from the length
/// alone, is what sealing leads to.
pub proof fn sealed_objects_are_as_planned<C: ArchiveCodec>(
    codec: &C,
    payload: Seq<u8>,
    context: ObjectEncryptionContext,
    first: u64,
    o: WriterOptions,
)
    requires
        o.block_size > 0,
        fills_its_blocks(codec, payload, context, o),
    ensures
        encrypted_outcome(codec, payload, context, first, o) matches Ok(object) ==> classed_plan(
            payload.len() as int,
            context.data_shard_max as int,
            context.class_parity_shard_max as int,
            o,
        ) == Ok::<PlannedEncryptedObject, FormatError>(
            PlannedEncryptedObject {
                data_block_count: object.extent.data_block_count,
                parity_block_count: object.extent.parity_block_count,
                encrypted_size: object.extent.encrypted_size,
            },
        ),
{
    if encrypted_outcome(codec, payload, context, first, o) is Ok {
        let sealed = sealed_payload(codec, payload, context, o)->Ok_0;
        assert(sealed.len() == sealed_size(payload.len() as int, o));
        sealed_size_is_block_aligned(payload.len() as int, o);
        vstd::arithmetic::div_mod::lemma_div_multiples_vanish(
            sealed_block_count(payload.len() as int, o),
            o.block_size as int,
        );
        assert(o.block_size * sealed_block_count(payload.len() as int, o) == sealed_size(
            payload.len() as int,
            o,
        )) by (nonlinear_arith);
    }
}

/// An object that seals without parity is also serialized directly, to the same blocks.
pub proof fn sealed_objects_serialize_directly<C: ArchiveCodec>(
    codec: &C,
    payload: Seq<u8>,
    context: ObjectEncryptionContext,
    first: u64,
    o: WriterOptions,
)
    requires
        o.block_size > 0,
        fills_its_blocks(codec, payload, context, o),
    ensures
        encrypted_outcome(codec, payload, context, first, o) matches Ok(object) ==> (
        object.extent.parity_block_count == 0 ==> serialized_outcome(
            codec,
            payload,
            context,
            object.extent,
            o,
        ) == Ok::<Seq<SerializedValue>, FormatError>(serialized_blocks(codec, object.records))),
{
    sealed_objects_are_as_planned(codec, payload, context, first, o);
}

} // verus!
