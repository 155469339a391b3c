//! How large an object becomes once it is sealed, and where its blocks go.
use crate::arith::{ceil_div_is_least_cover, checked_u64_add, fit_u64, spec_ceil_div, u32_len};
use crate::errors::FormatError;
use crate::format::MAX_REED_SOLOMON_GF16_SHARDS;
use crate::options::{
    compute_parity, compute_parity_u16, parity_covers_its_own_demand, parity_demand, parity_outcome,
    parity_u16_outcome, MIN_INDEX_ROOT_FEC_DATA_SHARDS, WriterOptions,
};
use vstd::prelude::*;

verus! {

/// The size of a sealed object in blocks and bytes.
#[derive(Debug, Clone, Copy, PartialEq, Eq, Structural)]
pub struct PlannedEncryptedObject {
    pub data_block_count: u32,
    pub parity_block_count: u32,
    pub encrypted_size: u32,
}

/// A sealed object at its place in the block sequence of the archive.
#[derive(Debug, Clone, Copy, PartialEq, Eq, Structural)]
pub struct ObjectExtent {
    pub first_block_index: u64,
    pub data_block_count: u32,
    pub parity_block_count: u32,
    pub encrypted_size: u32,
}

/// The metadata objects that share the index-root class.
#[derive(Debug, Clone, Copy, PartialEq, Eq, Structural)]
pub enum MetadataObjectKind {
    IndexRoot,
    Dictionary,
}

impl MetadataObjectKind {
    pub open spec fn spec_too_large_error(self) -> FormatError {
        match self {
            MetadataObjectKind::IndexRoot => FormatError::WriterUnsupported("IndexRoot too large"),
            MetadataObjectKind::Dictionary => FormatError::WriterUnsupported(
                "dictionary object too large",
            ),
        }
    }

    pub fn too_large_error(self) -> (r: FormatError)
        ensures
            r == self.spec_too_large_error(),
    {
        match self {
            MetadataObjectKind::IndexRoot => FormatError::WriterUnsupported("IndexRoot too large"),
            MetadataObjectKind::Dictionary => FormatError::WriterUnsupported(
                "dictionary object too large",
            ),
        }
    }
}

impl ObjectExtent {
    /// Number of blocks, parity included.
    pub open spec fn total(self) -> int {
        self.data_block_count + self.parity_block_count
    }

    pub open spec fn placed(first_block_index: u64, plan: PlannedEncryptedObject) -> ObjectExtent {
        ObjectExtent {
            first_block_index,
            data_block_count: plan.data_block_count,
            parity_block_count: plan.parity_block_count,
            encrypted_size: plan.encrypted_size,
        }
    }

    pub fn new(first_block_index: u64, plan: PlannedEncryptedObject) -> (r: Result<
        ObjectExtent,
        FormatError,
    >)
        ensures
            r == Ok::<ObjectExtent, FormatError>(ObjectExtent::placed(first_block_index, plan)),
    {
        Ok(
            ObjectExtent {
                first_block_index,
                data_block_count: plan.data_block_count,
                parity_block_count: plan.parity_block_count,
                encrypted_size: plan.encrypted_size,
            },
        )
    }

    pub open spec fn next_block_index_outcome(self) -> Result<u64, FormatError> {
        fit_u64(self.first_block_index + self.total(), "next_block_index")
    }

    /// The first block behind the object.
    pub fn next_block_index(self) -> (r: Result<u64, FormatError>)
        ensures
            r == self.next_block_index_outcome(),
    {
        checked_u64_add(
            self.first_block_index,
            self.data_block_count as u64 + self.parity_block_count as u64,
            "next_block_index",
        )
    }
}

// ---------------------------------------------------------------------------------------------
// Sizes
// ---------------------------------------------------------------------------------------------

/// Data blocks of a payload of `len` bytes: padding takes a sealed payload past the next block
/// boundary, a whole block where it already ends on one.
pub open spec fn sealed_block_count(len: int, o: WriterOptions) -> int {
    (len + o.aead_algo.spec_tag_len()) / (o.block_size as int) + 1
}

pub open spec fn sealed_size(len: int, o: WriterOptions) -> int {
    sealed_block_count(len, o) * o.block_size
}

/// Data blocks and bytes of a sealed payload of `len` bytes.
pub open spec fn data_extent_outcome(len: int, o: WriterOptions) -> Result<
    (u32, u32),
    FormatError,
> {
    if len + o.aead_algo.spec_tag_len() > usize::MAX || sealed_size(len, o) > usize::MAX {
        Err(FormatError::WriterUnsupported("encrypted object size overflow"))
    } else if sealed_size(len, o) > u32::MAX {
        Err(FormatError::WriterUnsupported("encrypted object exceeds u32 size limit"))
    } else {
        Ok((sealed_block_count(len, o) as u32, sealed_size(len, o) as u32))
    }
}

/// A sealed payload fills whole blocks, holds the payload, its tag and at least one byte of
/// padding, and wastes no whole block.
pub proof fn sealed_size_is_block_aligned(len: int, o: WriterOptions)
    requires
        len >= 0,
        o.block_size > 0,
    ensures
        sealed_size(len, o) % (o.block_size as int) == 0,
        len + o.aead_algo.spec_tag_len() < sealed_size(len, o) <= len + o.aead_algo.spec_tag_len()
            + o.block_size,
        sealed_block_count(len, o) >= 1,
{
    let b = o.block_size as int;
    let t = len + o.aead_algo.spec_tag_len();
    vstd::arithmetic::div_mod::lemma_fundamental_div_mod(t, b);
    vstd::arithmetic::div_mod::lemma_mod_bound(t, b);
    assert((t / b + 1) * b == b * (t / b) + b) by (nonlinear_arith);
    vstd::arithmetic::div_mod::lemma_mod_multiples_basic(t / b + 1, b);
    assert(t / b >= 0) by {
        vstd::arithmetic::div_mod::lemma_div_pos_is_pos(t, b);
    }
}

pub fn encrypted_object_data_extent(payload_len: usize, options: WriterOptions) -> (r: Result<
    (u32, u32),
    FormatError,
>)
    requires
        options.block_size > 0,
    ensures
        r == data_extent_outcome(payload_len as int, options),
{
    let block_size: usize = options.block_size as usize;
    let tag_len: usize = options.aead_algo.tag_len();
    let total_before_padding: usize = match payload_len.checked_add(tag_len) {
        Some(total) => total,
        None => {
            return Err(FormatError::WriterUnsupported("encrypted object size overflow"));
        },
    };
    let remainder: usize = total_before_padding % block_size;
    proof {
        sealed_size_is_block_aligned(payload_len as int, options);
        let b = block_size as int;
        let t = total_before_padding as int;
        vstd::arithmetic::div_mod::lemma_fundamental_div_mod(t, b);
        assert((t / b + 1) * b == b * (t / b) + b) by (nonlinear_arith);
        assert(sealed_size(payload_len as int, options) == t + b - remainder);
        vstd::arithmetic::div_mod::lemma_div_multiples_vanish(
            sealed_block_count(payload_len as int, options),
            b,
        );
    }
    let encrypted_size: usize = match total_before_padding.checked_add(block_size - remainder) {
        Some(size) => size,
        None => {
            return Err(FormatError::WriterUnsupported("encrypted object size overflow"));
        },
    };
    let encrypted_size: u32 = match u32_len(encrypted_size, "encrypted_size") {
        Ok(size) => size,
        Err(_) => {
            return Err(FormatError::WriterUnsupported("encrypted object exceeds u32 size limit"));
        },
    };
    proof {
        assert(options.block_size * sealed_block_count(payload_len as int, options)
            == sealed_size(payload_len as int, options)) by (nonlinear_arith);
    }
    Ok((encrypted_size / options.block_size, encrypted_size))
}

/// Refuses more shards than one code can span.
pub open spec fn shard_total_outcome(data: int, parity: int) -> Result<(), FormatError> {
    if data + parity > MAX_REED_SOLOMON_GF16_SHARDS {
        Err(FormatError::WriterUnsupported("encrypted object exceeds ReedSolomonGF16 shard limit"))
    } else {
        Ok(())
    }
}

pub fn validate_object_shard_total(data_block_count: u32, parity_block_count: u32) -> (r: Result<
    (),
    FormatError,
>)
    ensures
        r == shard_total_outcome(data_block_count as int, parity_block_count as int),
{
    let total: u64 = checked_u64_add(
        data_block_count as u64,
        parity_block_count as u64,
        "encrypted object shard total overflow",
    )?;
    if total > MAX_REED_SOLOMON_GF16_SHARDS {
        return Err(
            FormatError::WriterUnsupported("encrypted object exceeds ReedSolomonGF16 shard limit"),
        );
    }
    Ok(())
}

/// The size of a sealed payload of `len` bytes, whatever its class.
pub open spec fn unclassed_plan(len: int, o: WriterOptions) -> Result<
    PlannedEncryptedObject,
    FormatError,
> {
    match data_extent_outcome(len, o) {
        Err(e) => Err(e),
        Ok((data, size)) => match parity_outcome(o, data as int) {
            Err(e) => Err(e),
            Ok(parity) => Ok(
                PlannedEncryptedObject {
                    data_block_count: data,
                    parity_block_count: parity,
                    encrypted_size: size,
                },
            ),
        },
    }
}

pub fn plan_encrypted_object_without_class(payload_len: usize, options: WriterOptions) -> (r:
    Result<PlannedEncryptedObject, FormatError>)
    requires
        options.block_size > 0,
    ensures
        r == unclassed_plan(payload_len as int, options),
{
    let (data_block_count, encrypted_size) = encrypted_object_data_extent(payload_len, options)?;
    let parity_block_count: u32 = compute_parity(data_block_count as u64, options)?;
    Ok(PlannedEncryptedObject { data_block_count, parity_block_count, encrypted_size })
}

/// The size of a sealed payload that has to stay within a class.
pub open spec fn classed_plan(len: int, data_max: int, parity_max: int, o: WriterOptions) -> Result<
    PlannedEncryptedObject,
    FormatError,
> {
    match unclassed_plan(len, o) {
        Err(e) => Err(e),
        Ok(plan) => if plan.data_block_count > data_max {
            Err(
                FormatError::WriterUnsupported(
                    "encrypted object exceeds its data shard class maximum",
                ),
            )
        } else if plan.parity_block_count > parity_max {
            Err(
                FormatError::WriterUnsupported(
                    "encrypted object exceeds its parity shard class maximum",
                ),
            )
        } else {
            match shard_total_outcome(
                plan.data_block_count as int,
                plan.parity_block_count as int,
            ) {
                Err(e) => Err(e),
                Ok(_) => Ok(plan),
            }
        },
    }
}

pub fn plan_encrypted_object(
    payload_len: usize,
    data_shard_max: u16,
    parity_shard_max: u16,
    options: WriterOptions,
) -> (r: Result<PlannedEncryptedObject, FormatError>)
    requires
        options.block_size > 0,
    ensures
        r == classed_plan(
            payload_len as int,
            data_shard_max as int,
            parity_shard_max as int,
            options,
        ),
{
    let plan = plan_encrypted_object_without_class(payload_len, options)?;
    if plan.data_block_count > data_shard_max as u32 {
        return Err(
            FormatError::WriterUnsupported("encrypted object exceeds its data shard class maximum"),
        );
    }
    if plan.parity_block_count > parity_shard_max as u32 {
        return Err(
            FormatError::WriterUnsupported(
                "encrypted object exceeds its parity shard class maximum",
            ),
        );
    }
    validate_object_shard_total(plan.data_block_count, plan.parity_block_count)?;
    Ok(plan)
}

/// The failures that say of an object that it is too large, rather than that planning went wrong.
pub open spec fn is_capacity_error(e: FormatError) -> bool {
    e == FormatError::WriterUnsupported("encrypted object exceeds u32 size limit") || e
        == FormatError::WriterUnsupported("encrypted object exceeds its data shard class maximum")
        || e == FormatError::WriterUnsupported(
        "encrypted object exceeds its parity shard class maximum",
    ) || e == FormatError::WriterUnsupported("encrypted object exceeds ReedSolomonGF16 shard limit")
}

fn capacity_error(error: FormatError) -> (r: bool)
    ensures
        r == is_capacity_error(error),
{
    match error {
        FormatError::WriterUnsupported("encrypted object exceeds u32 size limit") => true,
        FormatError::WriterUnsupported(
            "encrypted object exceeds its data shard class maximum",
        ) => true,
        FormatError::WriterUnsupported(
            "encrypted object exceeds its parity shard class maximum",
        ) => true,
        FormatError::WriterUnsupported(
            "encrypted object exceeds ReedSolomonGF16 shard limit",
        ) => true,
        _ => false,
    }
}

/// Whether a payload of `len` bytes fits a class.
pub open spec fn fit_outcome(len: int, data_max: int, parity_max: int, o: WriterOptions) -> Result<
    bool,
    FormatError,
> {
    match classed_plan(len, data_max, parity_max, o) {
        Ok(_) => Ok(true),
        Err(e) => if is_capacity_error(e) {
            Ok(false)
        } else {
            Err(e)
        },
    }
}

pub fn encrypted_object_can_fit(
    payload_len: usize,
    data_shard_max: u16,
    parity_shard_max: u16,
    options: WriterOptions,
) -> (r: Result<bool, FormatError>)
    requires
        options.block_size > 0,
    ensures
        r == fit_outcome(
            payload_len as int,
            data_shard_max as int,
            parity_shard_max as int,
            options,
        ),
{
    match plan_encrypted_object(payload_len, data_shard_max, parity_shard_max, options) {
        Ok(_) => Ok(true),
        Err(error) => if capacity_error(error) {
            Ok(false)
        } else {
            Err(error)
        },
    }
}

pub open spec fn payload_fit(len: int, o: WriterOptions) -> Result<bool, FormatError> {
    fit_outcome(len, o.fec_data_shards as int, o.fec_parity_shards as int, o)
}

pub fn payload_object_can_fit(payload_len: usize, options: WriterOptions) -> (r: Result<
    bool,
    FormatError,
>)
    requires
        options.block_size > 0,
    ensures
        r == payload_fit(payload_len as int, options),
{
    encrypted_object_can_fit(
        payload_len,
        options.fec_data_shards,
        options.fec_parity_shards,
        options,
    )
}

pub open spec fn index_fit(len: int, o: WriterOptions) -> Result<bool, FormatError> {
    fit_outcome(len, o.index_fec_data_shards as int, o.index_fec_parity_shards as int, o)
}

pub fn index_object_can_fit(payload_len: usize, options: WriterOptions) -> (r: Result<
    bool,
    FormatError,
>)
    requires
        options.block_size > 0,
    ensures
        r == index_fit(payload_len as int, options),
{
    encrypted_object_can_fit(
        payload_len,
        options.index_fec_data_shards,
        options.index_fec_parity_shards,
        options,
    )
}

/// Restates a capacity failure of a metadata object as that object being too large.
pub open spec fn metadata_error(e: FormatError, kind: MetadataObjectKind) -> FormatError {
    if is_capacity_error(e) {
        kind.spec_too_large_error()
    } else {
        e
    }
}

pub fn map_metadata_encrypt_error(error: FormatError, kind: MetadataObjectKind) -> (r: FormatError)
    ensures
        r == metadata_error(error, kind),
{
    if capacity_error(error) {
        kind.too_large_error()
    } else {
        error
    }
}

// ---------------------------------------------------------------------------------------------
// The class of the index root and the dictionary
// ---------------------------------------------------------------------------------------------

/// The size of a metadata object before its class is known.
pub open spec fn metadata_object_plan(len: int, o: WriterOptions, kind: MetadataObjectKind) -> Result<
    PlannedEncryptedObject,
    FormatError,
> {
    match unclassed_plan(len, o) {
        Err(_) => Err(kind.spec_too_large_error()),
        Ok(plan) => if plan.data_block_count + plan.parity_block_count
            > MAX_REED_SOLOMON_GF16_SHARDS {
            Err(kind.spec_too_large_error())
        } else {
            Ok(plan)
        },
    }
}

pub fn plan_metadata_object_without_class(
    payload_len: usize,
    options: WriterOptions,
    kind: MetadataObjectKind,
) -> (r: Result<PlannedEncryptedObject, FormatError>)
    requires
        options.block_size > 0,
    ensures
        r == metadata_object_plan(payload_len as int, options, kind),
{
    let plan = match plan_encrypted_object_without_class(payload_len, options) {
        Ok(plan) => plan,
        Err(_) => {
            return Err(kind.too_large_error());
        },
    };
    if plan.data_block_count > u16::MAX as u32 || plan.parity_block_count > u16::MAX as u32 {
        return Err(kind.too_large_error());
    }
    match validate_object_shard_total(plan.data_block_count, plan.parity_block_count) {
        Ok(()) => Ok(plan),
        Err(_) => Err(kind.too_large_error()),
    }
}

pub open spec fn fits_root_class(plan: PlannedEncryptedObject, o: WriterOptions) -> bool {
    &&& plan.data_block_count <= o.index_root_fec_data_shards
    &&& plan.parity_block_count <= o.index_root_fec_parity_shards
    &&& plan.data_block_count + plan.parity_block_count <= MAX_REED_SOLOMON_GF16_SHARDS
}

pub fn ensure_metadata_object_fits_class(
    plan: PlannedEncryptedObject,
    options: WriterOptions,
    kind: MetadataObjectKind,
) -> (r: Result<(), FormatError>)
    ensures
        r == (if fits_root_class(plan, options) {
            Ok(())
        } else {
            Err(kind.spec_too_large_error())
        }),
{
    if plan.data_block_count > options.index_root_fec_data_shards as u32 {
        return Err(kind.too_large_error());
    }
    if plan.parity_block_count > options.index_root_fec_parity_shards as u32 {
        return Err(kind.too_large_error());
    }
    match validate_object_shard_total(plan.data_block_count, plan.parity_block_count) {
        Ok(()) => Ok(()),
        Err(_) => Err(kind.too_large_error()),
    }
}

/// A request whose index-root class holds the index root and the dictionary, and their sizes.
#[derive(Debug, Clone, Copy, PartialEq, Eq)]
pub struct MetadataClassPlan {
    pub options: WriterOptions,
    pub index_root: PlannedEncryptedObject,
    pub dictionary: Option<PlannedEncryptedObject>,
}

pub open spec fn max(a: int, b: int) -> int {
    if a < b {
        b
    } else {
        a
    }
}

/// Data shards of the class that holds the index root and the dictionary.
pub open spec fn required_root_shards(
    o: WriterOptions,
    root: PlannedEncryptedObject,
    dictionary: Option<PlannedEncryptedObject>,
) -> int {
    max(
        max(
            max(o.index_root_fec_data_shards as int, MIN_INDEX_ROOT_FEC_DATA_SHARDS as int),
            root.data_block_count as int,
        ),
        match dictionary {
            Some(plan) => plan.data_block_count as int,
            None => 0,
        },
    )
}

/// The request with the index-root class raised to `data` data shards and at least `parity`
/// parity shards.
pub open spec fn raised_root_class(o: WriterOptions, data: int, parity: u16) -> WriterOptions {
    WriterOptions {
        index_root_fec_data_shards: data as u16,
        index_root_fec_parity_shards: if o.index_root_fec_parity_shards < parity {
            parity
        } else {
            o.index_root_fec_parity_shards
        },
        ..o
    }
}

pub open spec fn optional_metadata_plan(len: Option<usize>, o: WriterOptions) -> Result<
    Option<PlannedEncryptedObject>,
    FormatError,
> {
    match len {
        None => Ok(None),
        Some(len) => match metadata_object_plan(len as int, o, MetadataObjectKind::Dictionary) {
            Ok(plan) => Ok(Some(plan)),
            Err(e) => Err(e),
        },
    }
}

/// The class that an index root of `root_len` and a dictionary of `dictionary_len` compressed bytes
/// need.
pub open spec fn metadata_class_outcome(
    o: WriterOptions,
    root_len: int,
    dictionary_len: Option<usize>,
) -> Result<MetadataClassPlan, FormatError> {
    match metadata_object_plan(root_len, o, MetadataObjectKind::IndexRoot) {
        Err(e) => Err(e),
        Ok(root) => match optional_metadata_plan(dictionary_len, o) {
            Err(e) => Err(e),
            Ok(dictionary) => {
                let data = required_root_shards(o, root, dictionary);
                match parity_u16_outcome(o, data, "index_root_fec_parity_shards") {
                    Err(e) => Err(e),
                    Ok(parity) => {
                        let raised = raised_root_class(o, data, parity);
                        if !fits_root_class(root, raised) {
                            Err(MetadataObjectKind::IndexRoot.spec_too_large_error())
                        } else if dictionary matches Some(plan) && !fits_root_class(plan, raised) {
                            Err(MetadataObjectKind::Dictionary.spec_too_large_error())
                        } else {
                            Ok(MetadataClassPlan { options: raised, index_root: root, dictionary })
                        }
                    },
                }
            },
        },
    }
}

/// Raises the index-root class until the index root and the dictionary fit it.
pub fn plan_index_root_metadata_class(
    options: WriterOptions,
    compressed_index_root_len: usize,
    compressed_dictionary_len: Option<usize>,
) -> (r: Result<MetadataClassPlan, FormatError>)
    requires
        options.block_size > 0,
    ensures
        r == metadata_class_outcome(
            options,
            compressed_index_root_len as int,
            compressed_dictionary_len,
        ),
{
    let mut raised: WriterOptions = options;
    let index_root = plan_metadata_object_without_class(
        compressed_index_root_len,
        options,
        MetadataObjectKind::IndexRoot,
    )?;
    let dictionary: Option<PlannedEncryptedObject> = match compressed_dictionary_len {
        Some(len) => Some(
            plan_metadata_object_without_class(len, options, MetadataObjectKind::Dictionary)?,
        ),
        None => None,
    };
    let mut required: u32 = options.index_root_fec_data_shards as u32;
    if required < MIN_INDEX_ROOT_FEC_DATA_SHARDS as u32 {
        required = MIN_INDEX_ROOT_FEC_DATA_SHARDS as u32;
    }
    if required < index_root.data_block_count {
        required = index_root.data_block_count;
    }
    if let Some(plan) = dictionary {
        if required < plan.data_block_count {
            required = plan.data_block_count;
        }
    }
    raised.index_root_fec_data_shards = required as u16;
    proof {
        crate::options::parity_ignores_the_class_sizes(options, raised, required as int);
    }
    let parity: u16 = compute_parity_u16(
        raised.index_root_fec_data_shards as u64,
        raised,
        "index_root_fec_parity_shards",
    )?;
    if raised.index_root_fec_parity_shards < parity {
        raised.index_root_fec_parity_shards = parity;
    }
    ensure_metadata_object_fits_class(index_root, raised, MetadataObjectKind::IndexRoot)?;
    if let Some(plan) = dictionary {
        ensure_metadata_object_fits_class(plan, raised, MetadataObjectKind::Dictionary)?;
    }
    Ok(MetadataClassPlan { options: raised, index_root, dictionary })
}

// ---------------------------------------------------------------------------------------------
// Striping
// ---------------------------------------------------------------------------------------------

/// The volume that holds a block.
pub open spec fn volume_of_block(block_index: int, stripe_width: int) -> int {
    block_index % stripe_width
}

/// How many of the `count` blocks from `first` on lie on a volume.
pub open spec fn blocks_on_volume(first: int, count: int, stripe_width: int, volume: int) -> int
    decreases count,
{
    if count <= 0 {
        0
    } else {
        blocks_on_volume(first, count - 1, stripe_width, volume) + if volume_of_block(
            first + count - 1,
            stripe_width,
        ) == volume {
            1int
        } else {
            0int
        }
    }
}

/// How many of the blocks from `first` on the volumes of a list hold together.
pub open spec fn blocks_on_volumes(
    first: int,
    count: int,
    stripe_width: int,
    volumes: Seq<int>,
) -> int
    decreases volumes.len(),
{
    if volumes.len() == 0 {
        0
    } else {
        blocks_on_volumes(first, count, stripe_width, volumes.drop_last()) + blocks_on_volume(
            first,
            count,
            stripe_width,
            volumes.last(),
        )
    }
}

proof fn stripe_count_step(n: int, w: int, v: int)
    requires
        w > 0,
        0 <= v < w,
        n >= 0,
    ensures
        spec_ceil_div(n + 1 - v, w) == spec_ceil_div(n - v, w) + if n % w == v {
            1int
        } else {
            0int
        },
{
    let q = n / w;
    let r = n % w;
    vstd::arithmetic::div_mod::lemma_fundamental_div_mod(n, w);
    vstd::arithmetic::div_mod::lemma_mod_bound(n, w);
    assert(n - v + w - 1 == w * q + (r - v + w - 1));
    assert(n + 1 - v + w - 1 == w * q + (r - v + w));
    if r < v {
        vstd::arithmetic::div_mod::lemma_fundamental_div_mod_converse(
            n - v + w - 1,
            w,
            q,
            r - v + w - 1,
        );
        vstd::arithmetic::div_mod::lemma_fundamental_div_mod_converse(
            n + 1 - v + w - 1,
            w,
            q,
            r - v + w,
        );
    } else if r == v {
        vstd::arithmetic::div_mod::lemma_fundamental_div_mod_converse(
            n - v + w - 1,
            w,
            q,
            w - 1,
        );
        assert(w * (q + 1) == w * q + w) by (nonlinear_arith);
        vstd::arithmetic::div_mod::lemma_fundamental_div_mod_converse(
            n + 1 - v + w - 1,
            w,
            q + 1,
            0,
        );
    } else {
        assert(w * (q + 1) == w * q + w) by (nonlinear_arith);
        vstd::arithmetic::div_mod::lemma_fundamental_div_mod_converse(
            n - v + w - 1,
            w,
            q + 1,
            r - v - 1,
        );
        vstd::arithmetic::div_mod::lemma_fundamental_div_mod_converse(
            n + 1 - v + w - 1,
            w,
            q + 1,
            r - v,
        );
    }
}

/// The number of blocks on a volume, computed.
pub proof fn blocks_on_volume_closed_form(first: int, count: int, w: int, v: int)
    requires
        w > 0,
        0 <= v < w,
        first >= 0,
        count >= 0,
    ensures
        blocks_on_volume(first, count, w, v) == spec_ceil_div(first + count - v, w)
            - spec_ceil_div(first - v, w),
    decreases count,
{
    if count > 0 {
        blocks_on_volume_closed_form(first, count - 1, w, v);
        stripe_count_step(first + count - 1, w, v);
    }
}

/// Consecutive blocks are dealt evenly: no volume holds more than its rounded-up share of them.
pub proof fn striping_is_even(first: int, count: int, stripe_width: int, volume: int)
    requires
        stripe_width > 0,
        0 <= volume < stripe_width,
        first >= 0,
        count >= 0,
    ensures
        0 <= blocks_on_volume(first, count, stripe_width, volume) <= spec_ceil_div(
            count,
            stripe_width,
        ),
{
    let w = stripe_width;
    let v = volume;
    blocks_on_volume_closed_form(first, count, w, v);
    ceil_div_is_least_cover(count, w);
    let c = spec_ceil_div(count, w);
    let x = first - v + w - 1;
    let q = x / w;
    vstd::arithmetic::div_mod::lemma_fundamental_div_mod(x, w);
    vstd::arithmetic::div_mod::lemma_mod_bound(x, w);
    vstd::arithmetic::div_mod::lemma_div_is_ordered(x, x + count, w);
    vstd::arithmetic::div_mod::lemma_fundamental_div_mod(x + count, w);
    vstd::arithmetic::div_mod::lemma_mod_bound(x + count, w);
    let p = (x + count) / w;
    assert(p <= q + c) by (nonlinear_arith)
        requires
            w * p <= x + count,
            x < w * q + w,
            count <= c * w,
            w > 0,
    ;
}

proof fn lost_blocks_are_bounded(first: int, count: int, stripe_width: int, lost: Seq<int>)
    requires
        stripe_width > 0,
        first >= 0,
        count >= 0,
        forall|k: int| 0 <= k < lost.len() ==> 0 <= #[trigger] lost[k] < stripe_width,
    ensures
        0 <= blocks_on_volumes(first, count, stripe_width, lost) <= lost.len() * spec_ceil_div(
            count,
            stripe_width,
        ),
    decreases lost.len(),
{
    let c = spec_ceil_div(count, stripe_width);
    if lost.len() > 0 {
        lost_blocks_are_bounded(first, count, stripe_width, lost.drop_last());
        striping_is_even(first, count, stripe_width, lost.last());
        let n = lost.len() as int;
        assert((n - 1) * c + c == n * c) by (nonlinear_arith);
    } else {
        assert(0 * c == 0);
    }
}

/// Losing any volumes within the tolerance takes no more blocks of an object than it has parity
/// blocks, and leaves the bit-rot share of the parity unused.
pub proof fn volume_loss_is_recoverable(
    o: WriterOptions,
    extent: ObjectExtent,
    lost: Seq<int>,
)
    requires
        o.stripe_width > 0,
        parity_outcome(o, extent.data_block_count as int) == Ok::<u32, FormatError>(
            extent.parity_block_count,
        ),
        lost.len() <= o.volume_loss_tolerance,
        forall|k: int| 0 <= k < lost.len() ==> 0 <= #[trigger] lost[k] < o.stripe_width,
    ensures
        blocks_on_volumes(
            extent.first_block_index as int,
            extent.total(),
            o.stripe_width as int,
            lost,
        ) + spec_ceil_div(extent.total() * o.bit_rot_buffer_pct, 100) <= extent.parity_block_count,
{
    let w = o.stripe_width as int;
    let total = extent.total();
    lost_blocks_are_bounded(extent.first_block_index as int, total, w, lost);
    parity_covers_its_own_demand(o, extent.data_block_count as int);
    assert(extent.parity_block_count == parity_demand(o, total));
    ceil_div_is_least_cover(total, w);
    let c = spec_ceil_div(total, w);
    let n = lost.len() as int;
    let v = o.volume_loss_tolerance as int;
    assert(n * c <= v * c) by (nonlinear_arith)
        requires
            n <= v,
            c >= 0,
    ;
}

/// How many of the first `total_block_count` blocks a volume holds.
pub fn striped_block_count(total_block_count: u64, stripe_width: u32, volume_index: u32) -> (r: u64)
    requires
        volume_index < stripe_width,
    ensures
        r == blocks_on_volume(
            0,
            total_block_count as int,
            stripe_width as int,
            volume_index as int,
        ),
        r <= total_block_count,
{
    let volume: u64 = volume_index as u64;
    let width: u64 = stripe_width as u64;
    proof {
        let n = total_block_count as int;
        let w = width as int;
        let v = volume as int;
        blocks_on_volume_closed_form(0, n, w, v);
        vstd::arithmetic::div_mod::lemma_small_mod((w - 1 - v) as nat, w as nat);
        vstd::arithmetic::div_mod::lemma_basic_div(w - 1 - v, w);
        assert(spec_ceil_div(0 - v, w) == 0);
        if n <= v {
            vstd::arithmetic::div_mod::lemma_basic_div(n - v + w - 1, w);
        } else {
            assert(n - v + w - 1 == w + (n - 1 - v));
            vstd::arithmetic::div_mod::lemma_div_plus_one(n - 1 - v, w);
            ceil_div_is_least_cover(n - v, w);
        }
    }
    if total_block_count <= volume {
        0
    } else {
        (total_block_count - 1 - volume) / width + 1
    }
}

} // verus!
