//! What a caller may ask of the writer, and how the request is completed into a plan.
use crate::arith::{
    ceil_div, ceil_div_is_least_cover, ceil_div_is_monotone, ceil_div_outcome, checked_u64_mul,
    fit_u64, spec_ceil_div,
};
use crate::errors::FormatError;
use crate::format::{AeadAlgo, MIN_BLOCK_SIZE};
use vstd::prelude::*;

verus! {

pub const DEFAULT_BLOCK_SIZE: u32 = 65_536;

pub const DEFAULT_CHUNK_SIZE: u32 = 262_144;

pub const DEFAULT_ENVELOPE_TARGET_SIZE: u32 = 1_048_576;

pub const DEFAULT_FEC_DATA_SHARDS: u16 = 224;

pub const DEFAULT_FEC_PARITY_SHARDS: u16 = 1;

pub const DEFAULT_INDEX_FEC_DATA_SHARDS: u16 = 16;

pub const DEFAULT_INDEX_FEC_PARITY_SHARDS: u16 = 1;

pub const MIN_INDEX_ROOT_FEC_DATA_SHARDS: u16 = 16;

pub const DEFAULT_INDEX_ROOT_FEC_DATA_SHARDS: u16 = MIN_INDEX_ROOT_FEC_DATA_SHARDS;

pub const DEFAULT_INDEX_ROOT_FEC_PARITY_SHARDS: u16 = 1;

pub const DEFAULT_STRIPE_WIDTH: u32 = 8;

pub const DEFAULT_VOLUME_LOSS_TOLERANCE: u8 = 1;

pub const DEFAULT_BIT_ROT_BUFFER_PCT: u8 = 5;

/// Parity rounds after which a budget counts as divergent.
pub const PARITY_ROUNDS: u32 = 100;

/// A request for an archive.
#[derive(Debug, Clone, Copy, PartialEq, Eq)]
pub struct WriterOptions {
    pub block_size: u32,
    pub chunk_size: u32,
    pub envelope_target_size: u32,
    pub stripe_width: u32,
    pub volume_loss_tolerance: u8,
    pub bit_rot_buffer_pct: u8,
    pub zstd_level: i32,
    pub jobs: usize,
    pub aead_algo: AeadAlgo,
    pub fec_data_shards: u16,
    pub fec_parity_shards: u16,
    pub index_fec_data_shards: u16,
    pub index_fec_parity_shards: u16,
    pub index_root_fec_data_shards: u16,
    pub index_root_fec_parity_shards: u16,
    pub max_path_length: u32,
    pub target_volume_size: Option<u64>,
    pub archive_uuid: Option<[u8; 16]>,
    pub session_id: Option<[u8; 16]>,
    pub closed_at_ns: i64,
}

/// The largest values that a reader accepts.
#[derive(Debug, Clone, Copy, PartialEq, Eq, Structural)]
pub struct ReaderCaps {
    pub max_stripe_width: u32,
    pub max_block_size: u32,
    pub max_chunk_size: u32,
    pub max_path_length: u32,
    pub max_fec_class_shards: u32,
    pub max_index_root_fec_class_shards: u32,
    pub max_root_auth_signer_identity_len: u32,
    pub max_root_auth_authenticator_value_len: u32,
    pub max_root_auth_footer_len: u32,
    pub max_cmra_parity_pct: u8,
}

impl WriterOptions {
    pub open spec fn spec_with_jobs(jobs: usize) -> WriterOptions {
        WriterOptions {
            block_size: DEFAULT_BLOCK_SIZE,
            chunk_size: DEFAULT_CHUNK_SIZE,
            envelope_target_size: DEFAULT_ENVELOPE_TARGET_SIZE,
            stripe_width: DEFAULT_STRIPE_WIDTH,
            volume_loss_tolerance: DEFAULT_VOLUME_LOSS_TOLERANCE,
            bit_rot_buffer_pct: DEFAULT_BIT_ROT_BUFFER_PCT,
            zstd_level: 3,
            jobs,
            aead_algo: AeadAlgo::AesGcmSiv256,
            fec_data_shards: DEFAULT_FEC_DATA_SHARDS,
            fec_parity_shards: DEFAULT_FEC_PARITY_SHARDS,
            index_fec_data_shards: DEFAULT_INDEX_FEC_DATA_SHARDS,
            index_fec_parity_shards: DEFAULT_INDEX_FEC_PARITY_SHARDS,
            index_root_fec_data_shards: DEFAULT_INDEX_ROOT_FEC_DATA_SHARDS,
            index_root_fec_parity_shards: DEFAULT_INDEX_ROOT_FEC_PARITY_SHARDS,
            max_path_length: 4096,
            target_volume_size: None,
            archive_uuid: None,
            session_id: None,
            closed_at_ns: 0,
        }
    }

    /// The default request on a machine that runs `jobs` jobs at once.
    pub fn with_jobs(jobs: usize) -> (r: WriterOptions)
        ensures
            r == WriterOptions::spec_with_jobs(jobs),
    {
        WriterOptions {
            block_size: DEFAULT_BLOCK_SIZE,
            chunk_size: DEFAULT_CHUNK_SIZE,
            envelope_target_size: DEFAULT_ENVELOPE_TARGET_SIZE,
            stripe_width: DEFAULT_STRIPE_WIDTH,
            volume_loss_tolerance: DEFAULT_VOLUME_LOSS_TOLERANCE,
            bit_rot_buffer_pct: DEFAULT_BIT_ROT_BUFFER_PCT,
            zstd_level: 3,
            jobs,
            aead_algo: AeadAlgo::AesGcmSiv256,
            fec_data_shards: DEFAULT_FEC_DATA_SHARDS,
            fec_parity_shards: DEFAULT_FEC_PARITY_SHARDS,
            index_fec_data_shards: DEFAULT_INDEX_FEC_DATA_SHARDS,
            index_fec_parity_shards: DEFAULT_INDEX_FEC_PARITY_SHARDS,
            index_root_fec_data_shards: DEFAULT_INDEX_ROOT_FEC_DATA_SHARDS,
            index_root_fec_parity_shards: DEFAULT_INDEX_ROOT_FEC_PARITY_SHARDS,
            max_path_length: 4096,
            target_volume_size: None,
            archive_uuid: None,
            session_id: None,
            closed_at_ns: 0,
        }
    }
}

// ---------------------------------------------------------------------------------------------
// Parity
// ---------------------------------------------------------------------------------------------

/// Parity blocks that an object gets whatever its size.
pub open spec fn parity_floor(o: WriterOptions) -> int {
    if o.volume_loss_tolerance > 0 || o.bit_rot_buffer_pct > 0 {
        1
    } else {
        0
    }
}

/// Parity blocks that an object of `total` blocks needs: one for each block that the tolerated
/// volumes can hold, and the bit-rot share of all blocks.
pub open spec fn parity_demand(o: WriterOptions, total: int) -> int {
    let demand = o.volume_loss_tolerance * spec_ceil_div(total, o.stripe_width as int)
        + spec_ceil_div(total * o.bit_rot_buffer_pct, 100);
    if demand < parity_floor(o) {
        parity_floor(o)
    } else {
        demand
    }
}

/// The demand of `data` data blocks and `parity` parity blocks, computed in 64 bits.
pub open spec fn parity_round(o: WriterOptions, data: int, parity: int) -> Result<
    u64,
    FormatError,
> {
    let total = data + parity;
    if total > u64::MAX {
        Err(FormatError::WriterUnsupported("parity total overflow"))
    } else {
        match ceil_div_outcome(total, o.stripe_width as int) {
            Err(e) => Err(e),
            Ok(per_volume) => {
                match fit_u64(
                    o.volume_loss_tolerance * per_volume,
                    "volume-loss parity overflow",
                ) {
                    Err(e) => Err(e),
                    Ok(by_volume) => {
                        match fit_u64(total * o.bit_rot_buffer_pct, "bit-rot parity overflow") {
                            Err(e) => Err(e),
                            Ok(share) => {
                                match ceil_div_outcome(share as int, 100) {
                                    Err(e) => Err(e),
                                    Ok(by_bitrot) => if by_volume + by_bitrot > u64::MAX {
                                        Err(FormatError::WriterUnsupported("parity overflow"))
                                    } else {
                                        Ok(parity_demand(o, total) as u64)
                                    },
                                }
                            },
                        }
                    },
                }
            },
        }
    }
}

/// The outcome of asking, from `parity` on and for at most `rounds` rounds, how many parity blocks
/// the blocks so far demand, until the answer repeats.
pub open spec fn parity_search(o: WriterOptions, data: int, parity: int, rounds: nat) -> Result<
    u32,
    FormatError,
>
    decreases rounds,
{
    if rounds == 0 {
        Err(FormatError::WriterUnsupported("parity calculation did not converge"))
    } else {
        match parity_round(o, data, parity) {
            Err(e) => Err(e),
            Ok(next) => if next == parity {
                if next <= u32::MAX {
                    Ok(next as u32)
                } else {
                    Err(FormatError::WriterUnsupported("parity count"))
                }
            } else {
                parity_search(o, data, next as int, (rounds - 1) as nat)
            },
        }
    }
}

/// Parity blocks of an object of `data` data blocks.
pub open spec fn parity_outcome(o: WriterOptions, data: int) -> Result<u32, FormatError> {
    parity_search(o, data, 0, PARITY_ROUNDS as nat)
}

/// The least number of parity blocks that satisfies its own demand, as `parity_outcome` finds it.
pub fn compute_parity(data_block_count: u64, options: WriterOptions) -> (r: Result<
    u32,
    FormatError,
>)
    ensures
        r == parity_outcome(options, data_block_count as int),
{
    let min_parity: u64 = if options.volume_loss_tolerance > 0 || options.bit_rot_buffer_pct > 0 {
        1
    } else {
        0
    };
    let mut parity: u64 = 0;
    let mut round: u32 = 0;
    while round < PARITY_ROUNDS
        invariant
            round <= PARITY_ROUNDS,
            min_parity == parity_floor(options),
            parity_search(
                options,
                data_block_count as int,
                parity as int,
                (PARITY_ROUNDS - round) as nat,
            ) == parity_outcome(options, data_block_count as int),
        decreases PARITY_ROUNDS - round,
    {
        let total: u64 = match data_block_count.checked_add(parity) {
            Some(total) => total,
            None => {
                return Err(FormatError::WriterUnsupported("parity total overflow"));
            },
        };
        let per_volume: u64 = ceil_div(total, options.stripe_width as u64)?;
        let by_volume: u64 = checked_u64_mul(
            options.volume_loss_tolerance as u64,
            per_volume,
            "volume-loss parity overflow",
        )?;
        let share: u64 = checked_u64_mul(
            total,
            options.bit_rot_buffer_pct as u64,
            "bit-rot parity overflow",
        )?;
        let by_bitrot: u64 = ceil_div(share, 100)?;
        let demand: u64 = match by_volume.checked_add(by_bitrot) {
            Some(demand) => demand,
            None => {
                return Err(FormatError::WriterUnsupported("parity overflow"));
            },
        };
        proof {
            ceil_div_is_least_cover(total as int, options.stripe_width as int);
            ceil_div_is_least_cover(share as int, 100);
        }
        let next: u64 = if demand < min_parity {
            min_parity
        } else {
            demand
        };
        if next == parity {
            return if next <= u32::MAX as u64 {
                Ok(next as u32)
            } else {
                Err(FormatError::WriterUnsupported("parity count"))
            };
        }
        parity = next;
        round = round + 1;
    }
    Err(FormatError::WriterUnsupported("parity calculation did not converge"))
}

/// A number of parity blocks that is recorded in 16 bits.
pub open spec fn parity_u16_outcome(o: WriterOptions, data: int, field: &'static str) -> Result<
    u16,
    FormatError,
> {
    match parity_outcome(o, data) {
        Err(e) => Err(e),
        Ok(p) => if p <= u16::MAX {
            Ok(p as u16)
        } else {
            Err(FormatError::WriterUnsupported(field))
        },
    }
}

pub fn compute_parity_u16(data_block_count: u64, options: WriterOptions, field: &'static str) -> (r:
    Result<u16, FormatError>)
    ensures
        r == parity_u16_outcome(options, data_block_count as int, field),
{
    let parity: u32 = compute_parity(data_block_count, options)?;
    if parity <= u16::MAX as u32 {
        Ok(parity as u16)
    } else {
        Err(FormatError::WriterUnsupported(field))
    }
}

/// Parity blocks of one object, which may not exceed those of its class.
pub open spec fn object_parity_outcome(o: WriterOptions, data: int, class_max: int) -> Result<
    u32,
    FormatError,
> {
    match parity_outcome(o, data) {
        Err(e) => Err(e),
        Ok(p) => if p > class_max {
            Err(
                FormatError::WriterUnsupported(
                    "encrypted object exceeds its parity shard class maximum",
                ),
            )
        } else {
            Ok(p)
        },
    }
}

pub fn compute_object_parity(
    data_block_count: u64,
    options: WriterOptions,
    class_parity_shard_max: u32,
) -> (r: Result<u32, FormatError>)
    ensures
        r == object_parity_outcome(
            options,
            data_block_count as int,
            class_parity_shard_max as int,
        ),
{
    let computed: u32 = compute_parity(data_block_count, options)?;
    if computed > class_parity_shard_max {
        return Err(
            FormatError::WriterUnsupported(
                "encrypted object exceeds its parity shard class maximum",
            ),
        );
    }
    Ok(computed)
}

/// More blocks never demand fewer parity blocks.
pub proof fn parity_demand_is_monotone(o: WriterOptions, m: int, n: int)
    requires
        o.stripe_width > 0,
        0 <= m <= n,
    ensures
        parity_demand(o, m) <= parity_demand(o, n),
        0 <= parity_demand(o, m),
{
    let w = o.stripe_width as int;
    let v = o.volume_loss_tolerance as int;
    let b = o.bit_rot_buffer_pct as int;
    ceil_div_is_monotone(m, n, w);
    ceil_div_is_least_cover(m, w);
    assert(v * spec_ceil_div(m, w) <= v * spec_ceil_div(n, w)) by (nonlinear_arith)
        requires
            v >= 0,
            spec_ceil_div(m, w) <= spec_ceil_div(n, w),
    ;
    assert(0 <= m * b <= n * b) by (nonlinear_arith)
        requires
            b >= 0,
            0 <= m <= n,
    ;
    ceil_div_is_monotone(m * b, n * b, 100);
    ceil_div_is_least_cover(m * b, 100);
    assert(v * spec_ceil_div(m, w) >= 0) by (nonlinear_arith)
        requires
            v >= 0,
            spec_ceil_div(m, w) >= 0,
    ;
}

proof fn parity_search_is_least(o: WriterOptions, data: int, parity: int, rounds: nat, bound: int)
    requires
        o.stripe_width > 0,
        data >= 0,
        0 <= parity <= bound,
        parity_demand(o, data + bound) <= bound,
    ensures
        parity_search(o, data, parity, rounds) matches Ok(p) ==> p == parity_demand(o, data + p)
            && p <= bound,
    decreases rounds,
{
    if rounds > 0 {
        if let Ok(next) = parity_round(o, data, parity) {
            parity_demand_is_monotone(o, data + parity, data + bound);
            parity_round_is_demand(o, data, parity);
            if next != parity {
                parity_search_is_least(o, data, next as int, (rounds - 1) as nat, bound);
            }
        }
    }
}

proof fn parity_search_is_fixed(o: WriterOptions, data: int, parity: int, rounds: nat)
    requires
        o.stripe_width > 0,
        data >= 0,
        parity >= 0,
    ensures
        parity_search(o, data, parity, rounds) matches Ok(p) ==> p == parity_demand(o, data + p),
    decreases rounds,
{
    if rounds > 0 {
        if let Ok(next) = parity_round(o, data, parity) {
            parity_round_is_demand(o, data, parity);
            if next != parity {
                parity_search_is_fixed(o, data, next as int, (rounds - 1) as nat);
            }
        }
    }
}

proof fn parity_round_is_demand(o: WriterOptions, data: int, parity: int)
    requires
        o.stripe_width > 0,
        data >= 0,
        parity >= 0,
    ensures
        parity_round(o, data, parity) matches Ok(next) ==> next == parity_demand(o, data + parity),
{
    let total = data + parity;
    ceil_div_is_least_cover(total, o.stripe_width as int);
    assert(total * o.bit_rot_buffer_pct >= 0) by (nonlinear_arith)
        requires
            total >= 0,
    ;
    ceil_div_is_least_cover(total * o.bit_rot_buffer_pct, 100);
    parity_demand_is_monotone(o, total, total);
}

/// The parity of an object covers exactly what the whole object, its parity included, demands: the
/// blocks that the tolerated volumes can hold, and on top of them the bit-rot share of all blocks.
pub proof fn parity_covers_its_own_demand(o: WriterOptions, data: int)
    requires
        o.stripe_width > 0,
        data >= 0,
    ensures
        parity_outcome(o, data) matches Ok(p) ==> p == parity_demand(o, data + p),
{
    parity_search_is_fixed(o, data, 0, PARITY_ROUNDS as nat);
}

/// No smaller number of parity blocks covers its own demand.
pub proof fn parity_is_least(o: WriterOptions, data: int, other: int)
    requires
        o.stripe_width > 0,
        data >= 0,
        other >= 0,
        parity_demand(o, data + other) <= other,
    ensures
        parity_outcome(o, data) matches Ok(p) ==> p <= other,
{
    parity_search_is_least(o, data, 0, PARITY_ROUNDS as nat, other);
}

/// Without a loss tolerance and a bit-rot share no parity is computed, and none is missing.
pub proof fn no_margin_needs_no_parity(o: WriterOptions, data: int)
    requires
        o.stripe_width > 0,
        o.volume_loss_tolerance == 0,
        o.bit_rot_buffer_pct == 0,
        0 <= data <= u64::MAX - o.stripe_width,
    ensures
        parity_outcome(o, data) == Ok::<u32, FormatError>(0),
{
    ceil_div_is_least_cover(data, o.stripe_width as int);
    assert(data * 0 == 0);
    assert(0 * spec_ceil_div(data, o.stripe_width as int) == 0);
    assert(spec_ceil_div(0, 100) == 0);
    reveal_with_fuel(parity_search, 2);
}

// ---------------------------------------------------------------------------------------------
// Completing a request
// ---------------------------------------------------------------------------------------------

/// The first rule that a request breaks before any parity is computed.
pub open spec fn request_refusal(o: WriterOptions) -> Option<&'static str> {
    if o.jobs == 0 {
        Some("jobs must be at least 1")
    } else if o.block_size < MIN_BLOCK_SIZE || o.block_size % 2 != 0 {
        Some("writer requires an even block size of at least 4096")
    } else if o.stripe_width == 0 {
        Some("stripe_width must be non-zero")
    } else if o.volume_loss_tolerance >= o.stripe_width {
        Some("volume_loss_tolerance must be less than stripe_width")
    } else if o.target_volume_size == Some(0u64) {
        Some("target_volume_size must be non-zero")
    } else if o.bit_rot_buffer_pct > 100 {
        Some("bit_rot_buffer_pct must be at most 100")
    } else if o.chunk_size == 0 || o.chunk_size > o.envelope_target_size {
        Some("chunk_size must be non-zero and no larger than envelope_target_size")
    } else if o.fec_data_shards == 0 || o.index_fec_data_shards == 0
        || o.index_root_fec_data_shards == 0 {
        Some("FEC data shard class maxima must be non-zero")
    } else {
        None
    }
}

pub open spec fn cap_error(field: &'static str, cap: int, actual: int) -> FormatError {
    FormatError::ReaderResourceLimitExceeded { field, cap: cap as u64, actual: actual as u64 }
}

/// The first reader cap that a completed request exceeds.
pub open spec fn cap_refusal(o: WriterOptions, caps: ReaderCaps) -> Option<FormatError> {
    if o.chunk_size > caps.max_chunk_size {
        Some(cap_error("chunk_size", caps.max_chunk_size as int, o.chunk_size as int))
    } else if o.block_size > caps.max_block_size {
        Some(cap_error("block_size", caps.max_block_size as int, o.block_size as int))
    } else if o.fec_data_shards + o.fec_parity_shards > caps.max_fec_class_shards {
        Some(
            cap_error(
                "fec_data_shards + fec_parity_shards",
                caps.max_fec_class_shards as int,
                o.fec_data_shards + o.fec_parity_shards,
            ),
        )
    } else if o.index_fec_data_shards + o.index_fec_parity_shards > caps.max_fec_class_shards {
        Some(
            cap_error(
                "index_fec_data_shards + index_fec_parity_shards",
                caps.max_fec_class_shards as int,
                o.index_fec_data_shards + o.index_fec_parity_shards,
            ),
        )
    } else if o.index_root_fec_data_shards + o.index_root_fec_parity_shards
        > caps.max_index_root_fec_class_shards {
        Some(
            cap_error(
                "index_root_fec_data_shards + index_root_fec_parity_shards",
                caps.max_index_root_fec_class_shards as int,
                o.index_root_fec_data_shards + o.index_root_fec_parity_shards,
            ),
        )
    } else if o.stripe_width > caps.max_stripe_width {
        Some(cap_error("stripe_width", caps.max_stripe_width as int, o.stripe_width as int))
    } else if o.max_path_length > caps.max_path_length {
        Some(cap_error("max_path_length", caps.max_path_length as int, o.max_path_length as int))
    } else {
        None
    }
}

/// The request with its index-root class raised to the format's minimum.
pub open spec fn with_minimum_root_class(o: WriterOptions) -> WriterOptions {
    WriterOptions {
        index_root_fec_data_shards: if o.index_root_fec_data_shards
            < MIN_INDEX_ROOT_FEC_DATA_SHARDS {
            MIN_INDEX_ROOT_FEC_DATA_SHARDS
        } else {
            o.index_root_fec_data_shards
        },
        ..o
    }
}

/// A request with the parity of its three classes filled in, or why that cannot be done.
pub open spec fn planned_options(o: WriterOptions, caps: ReaderCaps) -> Result<
    WriterOptions,
    FormatError,
> {
    match request_refusal(o) {
        Some(rule) => Err(FormatError::WriterUnsupported(rule)),
        None => {
            let m = with_minimum_root_class(o);
            match parity_u16_outcome(m, m.fec_data_shards as int, "fec_parity_shards") {
                Err(e) => Err(e),
                Ok(payload) => match parity_u16_outcome(
                    m,
                    m.index_fec_data_shards as int,
                    "index_fec_parity_shards",
                ) {
                    Err(e) => Err(e),
                    Ok(index) => match parity_u16_outcome(
                        m,
                        m.index_root_fec_data_shards as int,
                        "index_root_fec_parity_shards",
                    ) {
                        Err(e) => Err(e),
                        Ok(root) => {
                            let planned = WriterOptions {
                                fec_parity_shards: payload,
                                index_fec_parity_shards: index,
                                index_root_fec_parity_shards: root,
                                ..m
                            };
                            match cap_refusal(planned, caps) {
                                Some(e) => Err(e),
                                None => Ok(planned),
                            }
                        },
                    },
                },
            }
        },
    }
}

/// Parity depends on the margins and the stripe width of a request alone.
pub proof fn parity_ignores_the_class_sizes(a: WriterOptions, b: WriterOptions, data: int)
    requires
        a.stripe_width == b.stripe_width,
        a.volume_loss_tolerance == b.volume_loss_tolerance,
        a.bit_rot_buffer_pct == b.bit_rot_buffer_pct,
    ensures
        parity_outcome(a, data) == parity_outcome(b, data),
{
    parity_search_ignores_the_class_sizes(a, b, data, 0, PARITY_ROUNDS as nat);
}

proof fn parity_search_ignores_the_class_sizes(
    a: WriterOptions,
    b: WriterOptions,
    data: int,
    parity: int,
    rounds: nat,
)
    requires
        a.stripe_width == b.stripe_width,
        a.volume_loss_tolerance == b.volume_loss_tolerance,
        a.bit_rot_buffer_pct == b.bit_rot_buffer_pct,
    ensures
        parity_search(a, data, parity, rounds) == parity_search(b, data, parity, rounds),
    decreases rounds,
{
    if rounds > 0 {
        assert(parity_round(a, data, parity) == parity_round(b, data, parity));
        if let Ok(next) = parity_round(a, data, parity) {
            parity_search_ignores_the_class_sizes(a, b, data, next as int, (rounds - 1) as nat);
        }
    }
}

/// Refuses a value above the cap that a reader puts on it.
pub fn ensure_within_cap(field: &'static str, cap: u32, actual: u32) -> (r: Result<(), FormatError>)
    ensures
        r == (if actual > cap {
            Err(cap_error(field, cap as int, actual as int))
        } else {
            Ok(())
        }),
{
    if actual > cap {
        return Err(
            FormatError::ReaderResourceLimitExceeded {
                field,
                cap: cap as u64,
                actual: actual as u64,
            },
        );
    }
    Ok(())
}

/// Checks a completed request against the caps of a reader.
pub fn validate_writer_options_match_reader_caps(options: WriterOptions, caps: &ReaderCaps) -> (r:
    Result<(), FormatError>)
    ensures
        r == (match cap_refusal(options, *caps) {
            Some(e) => Err(e),
            None => Ok(()),
        }),
{
    ensure_within_cap("chunk_size", caps.max_chunk_size, options.chunk_size)?;
    ensure_within_cap("block_size", caps.max_block_size, options.block_size)?;
    ensure_within_cap(
        "fec_data_shards + fec_parity_shards",
        caps.max_fec_class_shards,
        options.fec_data_shards as u32 + options.fec_parity_shards as u32,
    )?;
    ensure_within_cap(
        "index_fec_data_shards + index_fec_parity_shards",
        caps.max_fec_class_shards,
        options.index_fec_data_shards as u32 + options.index_fec_parity_shards as u32,
    )?;
    ensure_within_cap(
        "index_root_fec_data_shards + index_root_fec_parity_shards",
        caps.max_index_root_fec_class_shards,
        options.index_root_fec_data_shards as u32 + options.index_root_fec_parity_shards as u32,
    )?;
    ensure_within_cap("stripe_width", caps.max_stripe_width, options.stripe_width)?;
    ensure_within_cap("max_path_length", caps.max_path_length, options.max_path_length)?;
    Ok(())
}

/// Completes a request: rejects what the writer or a reader cannot serve, raises the index-root
/// class to its minimum and computes the parity of every class.
pub fn plan_writer_options(options: WriterOptions, caps: &ReaderCaps) -> (r: Result<
    WriterOptions,
    FormatError,
>)
    ensures
        r == planned_options(options, *caps),
{
    let mut options: WriterOptions = options;
    if options.jobs == 0 {
        return Err(FormatError::WriterUnsupported("jobs must be at least 1"));
    }
    if options.block_size < MIN_BLOCK_SIZE || options.block_size % 2 != 0 {
        return Err(
            FormatError::WriterUnsupported("writer requires an even block size of at least 4096"),
        );
    }
    if options.stripe_width == 0 {
        return Err(FormatError::WriterUnsupported("stripe_width must be non-zero"));
    }
    if options.volume_loss_tolerance as u32 >= options.stripe_width {
        return Err(
            FormatError::WriterUnsupported("volume_loss_tolerance must be less than stripe_width"),
        );
    }
    if let Some(size) = options.target_volume_size {
        if size == 0 {
            return Err(FormatError::WriterUnsupported("target_volume_size must be non-zero"));
        }
    }
    if options.bit_rot_buffer_pct > 100 {
        return Err(FormatError::WriterUnsupported("bit_rot_buffer_pct must be at most 100"));
    }
    if options.chunk_size == 0 || options.chunk_size > options.envelope_target_size {
        return Err(
            FormatError::WriterUnsupported(
                "chunk_size must be non-zero and no larger than envelope_target_size",
            ),
        );
    }
    if options.fec_data_shards == 0 || options.index_fec_data_shards == 0
        || options.index_root_fec_data_shards == 0 {
        return Err(
            FormatError::WriterUnsupported("FEC data shard class maxima must be non-zero"),
        );
    }
    if options.index_root_fec_data_shards < MIN_INDEX_ROOT_FEC_DATA_SHARDS {
        options.index_root_fec_data_shards = MIN_INDEX_ROOT_FEC_DATA_SHARDS;
    }
    let payload: u16 = compute_parity_u16(
        options.fec_data_shards as u64,
        options,
        "fec_parity_shards",
    )?;
    let index: u16 = compute_parity_u16(
        options.index_fec_data_shards as u64,
        options,
        "index_fec_parity_shards",
    )?;
    let root: u16 = compute_parity_u16(
        options.index_root_fec_data_shards as u64,
        options,
        "index_root_fec_parity_shards",
    )?;
    options.fec_parity_shards = payload;
    options.index_fec_parity_shards = index;
    options.index_root_fec_parity_shards = root;
    validate_writer_options_match_reader_caps(options, caps)?;
    Ok(options)
}

/// A completed request obeys every rule that a request has to obey.
pub proof fn planned_options_obey_the_rules(o: WriterOptions, caps: ReaderCaps)
    ensures
        planned_options(o, caps) matches Ok(p) ==> {
            &&& request_refusal(p) is None
            &&& cap_refusal(p, caps) is None
            &&& p.index_root_fec_data_shards >= MIN_INDEX_ROOT_FEC_DATA_SHARDS
            &&& p.stripe_width == o.stripe_width
            &&& p.block_size == o.block_size
        },
{
}

/// Completing a request twice is completing it once.
pub proof fn planning_is_idempotent(o: WriterOptions, caps: ReaderCaps)
    ensures
        planned_options(o, caps) matches Ok(p) ==> planned_options(p, caps) == Ok::<
            WriterOptions,
            FormatError,
        >(p),
{
    if let Ok(p) = planned_options(o, caps) {
        let m = with_minimum_root_class(o);
        assert(with_minimum_root_class(p) == p);
        parity_ignores_the_class_sizes(m, p, m.fec_data_shards as int);
        parity_ignores_the_class_sizes(m, p, m.index_fec_data_shards as int);
        parity_ignores_the_class_sizes(m, p, m.index_root_fec_data_shards as int);
    }
}

// ---------------------------------------------------------------------------------------------
// Single-pass requests
// ---------------------------------------------------------------------------------------------

/// Whether an index root of `data` data blocks, with its parity, stays within the reader's cap.
pub open spec fn root_class_fits(o: WriterOptions, caps: ReaderCaps, data: int) -> bool {
    parity_outcome(o, data) matches Ok(p) && data + p <= caps.max_index_root_fec_class_shards
}

/// Where halving the interval `low..=high` ends, `best` being the last fitting size so far.
pub open spec fn root_class_search(
    o: WriterOptions,
    caps: ReaderCaps,
    low: int,
    high: int,
    best: int,
) -> int
    decreases high - low + 1,
{
    if low > high {
        best
    } else {
        let mid = low + (high - low) / 2;
        if root_class_fits(o, caps, mid) {
            root_class_search(o, caps, mid + 1, high, mid)
        } else {
            root_class_search(o, caps, low, mid - 1, best)
        }
    }
}

/// The largest index-root class that block addressing leaves room for.
pub open spec fn root_class_ceiling(block_size: int) -> int {
    if u32::MAX as int / block_size < u16::MAX {
        u32::MAX as int / block_size
    } else {
        u16::MAX as int
    }
}

pub open spec fn single_pass_root_class(o: WriterOptions, caps: ReaderCaps) -> int {
    root_class_search(
        o,
        caps,
        MIN_INDEX_ROOT_FEC_DATA_SHARDS as int,
        root_class_ceiling(o.block_size as int),
        MIN_INDEX_ROOT_FEC_DATA_SHARDS as int,
    )
}

proof fn root_class_search_is_bounded(
    o: WriterOptions,
    caps: ReaderCaps,
    low: int,
    high: int,
    best: int,
)
    requires
        low >= 0,
    ensures
        root_class_search(o, caps, low, high, best) == best || low <= root_class_search(
            o,
            caps,
            low,
            high,
            best,
        ) <= high && root_class_fits(o, caps, root_class_search(o, caps, low, high, best)),
    decreases high - low + 1,
{
    if low <= high {
        let mid = low + (high - low) / 2;
        if root_class_fits(o, caps, mid) {
            root_class_search_is_bounded(o, caps, mid + 1, high, mid);
        } else {
            root_class_search_is_bounded(o, caps, low, mid - 1, best);
        }
    }
}

/// Where every size below a fitting size fits too, the class chosen for a single pass is the
/// largest one that fits.
pub proof fn single_pass_root_class_is_largest(o: WriterOptions, caps: ReaderCaps, other: int)
    requires
        o.block_size > 0,
        MIN_INDEX_ROOT_FEC_DATA_SHARDS <= other <= root_class_ceiling(o.block_size as int),
        root_class_fits(o, caps, other),
        forall|a: int, b: int|
            MIN_INDEX_ROOT_FEC_DATA_SHARDS <= a <= b && #[trigger] root_class_fits(o, caps, b)
                ==> #[trigger] root_class_fits(o, caps, a),
    ensures
        other <= single_pass_root_class(o, caps),
        root_class_fits(o, caps, single_pass_root_class(o, caps)),
{
    root_class_search_keeps(
        o,
        caps,
        MIN_INDEX_ROOT_FEC_DATA_SHARDS as int,
        root_class_ceiling(o.block_size as int),
        MIN_INDEX_ROOT_FEC_DATA_SHARDS as int,
        other,
    );
    root_class_search_is_bounded(
        o,
        caps,
        MIN_INDEX_ROOT_FEC_DATA_SHARDS as int,
        root_class_ceiling(o.block_size as int),
        MIN_INDEX_ROOT_FEC_DATA_SHARDS as int,
    );
}

proof fn root_class_search_keeps(
    o: WriterOptions,
    caps: ReaderCaps,
    low: int,
    high: int,
    best: int,
    other: int,
)
    requires
        MIN_INDEX_ROOT_FEC_DATA_SHARDS <= low,
        other <= best || low <= other <= high,
        root_class_fits(o, caps, other),
        MIN_INDEX_ROOT_FEC_DATA_SHARDS <= other,
        best <= low,
        forall|a: int, b: int|
            MIN_INDEX_ROOT_FEC_DATA_SHARDS <= a <= b && #[trigger] root_class_fits(o, caps, b)
                ==> #[trigger] root_class_fits(o, caps, a),
    ensures
        other <= root_class_search(o, caps, low, high, best),
    decreases high - low + 1,
{
    if low <= high {
        let mid = low + (high - low) / 2;
        if root_class_fits(o, caps, mid) {
            root_class_search_keeps(o, caps, mid + 1, high, mid, other);
        } else {
            if other >= mid {
                assert(root_class_fits(o, caps, mid));
            }
            root_class_search_keeps(o, caps, low, mid - 1, best, other);
        }
    }
}

/// With a bit-rot share of at most one half, `d` more blocks demand at most half as many parity
/// blocks more, rounded up.
proof fn demand_grows_by_half(o: WriterOptions, total: int, d: int)
    requires
        o.stripe_width > 0,
        o.volume_loss_tolerance == 0,
        o.bit_rot_buffer_pct <= 50,
        total >= 0,
        d >= 0,
    ensures
        parity_demand(o, total + d) <= parity_demand(o, total) + (d + 1) / 2,
{
    let b = o.bit_rot_buffer_pct as int;
    let w = o.stripe_width as int;
    assert(0 * spec_ceil_div(total, w) == 0 && 0 * spec_ceil_div(total + d, w) == 0);
    assert(total * b >= 0 && (total + d) * b >= 0) by (nonlinear_arith)
        requires
            total >= 0,
            d >= 0,
            b >= 0,
    ;
    ceil_div_is_least_cover(total * b, 100);
    ceil_div_is_least_cover((total + d) * b, 100);
    let k = spec_ceil_div(total * b, 100) + (d + 1) / 2;
    assert(k * 100 >= (total + d) * b) by (nonlinear_arith)
        requires
            k == spec_ceil_div(total * b, 100) + (d + 1) / 2,
            spec_ceil_div(total * b, 100) * 100 >= total * b,
            0 <= b <= 50,
            d >= 0,
    ;
}

proof fn small_parity_rounds_succeed(o: WriterOptions, data: int, parity: int)
    requires
        o.stripe_width > 0,
        o.volume_loss_tolerance == 0,
        o.bit_rot_buffer_pct <= 100,
        0 <= data <= u32::MAX,
        0 <= parity <= u32::MAX,
    ensures
        parity_round(o, data, parity) is Ok,
{
    let total = data + parity;
    let b = o.bit_rot_buffer_pct as int;
    ceil_div_is_least_cover(total, o.stripe_width as int);
    assert(0 <= total * b <= total * 100) by (nonlinear_arith)
        requires
            total >= 0,
            0 <= b <= 100,
    ;
    ceil_div_is_least_cover(total * b, 100);
    assert(0 * spec_ceil_div(total, o.stripe_width as int) == 0);
}

/// A search whose last step was at most `2^k` comes to its end in `k + 3` rounds.
proof fn parity_search_ends(
    o: WriterOptions,
    data: int,
    before: int,
    parity: int,
    rounds: nat,
    bound: int,
    k: nat,
)
    requires
        o.stripe_width > 0,
        o.volume_loss_tolerance == 0,
        o.bit_rot_buffer_pct <= 50,
        0 <= data <= u32::MAX,
        0 <= before <= parity <= bound <= u32::MAX,
        parity == parity_demand(o, data + before),
        parity_demand(o, data + bound) <= bound,
        parity - before <= vstd::arithmetic::power2::pow2(k),
        rounds >= k + 3,
    ensures
        parity_search(o, data, parity, rounds) is Ok,
    decreases k,
{
    let d = parity - before;
    let next = parity_demand(o, data + parity);
    small_parity_rounds_succeed(o, data, parity);
    parity_round_is_demand(o, data, parity);
    parity_demand_is_monotone(o, data + before, data + parity);
    parity_demand_is_monotone(o, data + parity, data + bound);
    demand_grows_by_half(o, data + before, d);
    if next != parity {
        if k == 0 {
            vstd::arithmetic::power2::lemma2_to64();
            let last = parity_demand(o, data + next);
            small_parity_rounds_succeed(o, data, next);
            parity_round_is_demand(o, data, next);
            parity_demand_is_monotone(o, data + parity, data + next);
            parity_demand_is_monotone(o, data + next, data + bound);
            demand_grows_by_half(o, data + before, d + (next - parity));
            assert(last == next);
            reveal_with_fuel(parity_search, 3);
        } else {
            vstd::arithmetic::power2::lemma_pow2_unfold(k);
            parity_search_ends(
                o,
                data,
                parity,
                next,
                (rounds - 1) as nat,
                bound,
                (k - 1) as nat,
            );
        }
    }
}

/// Without a loss tolerance and with a bit-rot share of at most one half, a class fits if a larger
/// one does.
pub proof fn smaller_classes_fit_too(o: WriterOptions, caps: ReaderCaps, small: int, large: int)
    requires
        o.stripe_width > 0,
        o.volume_loss_tolerance == 0,
        o.bit_rot_buffer_pct <= 50,
        0 <= small <= large,
        root_class_fits(o, caps, large),
    ensures
        root_class_fits(o, caps, small),
{
    let bound = parity_outcome(o, large)->Ok_0 as int;
    parity_covers_its_own_demand(o, large);
    parity_demand_is_monotone(o, small + bound, large + bound);
    parity_demand_is_monotone(o, small, small + bound);
    let first = parity_demand(o, small);
    small_parity_rounds_succeed(o, small, 0);
    parity_round_is_demand(o, small, 0);
    if first != 0 {
        vstd::arithmetic::power2::lemma2_to64();
        parity_search_ends(o, small, 0, first, 99, bound, 32);
    }
    parity_is_least(o, small, bound);
}

/// Without a loss tolerance, which a single pass never has, and with a bit-rot share of at most one
/// half, the class chosen for a single pass is the largest one that fits.
pub proof fn moderate_margins_get_the_largest_root_class(
    o: WriterOptions,
    caps: ReaderCaps,
    other: int,
)
    requires
        o.block_size > 0,
        o.stripe_width > 0,
        o.volume_loss_tolerance == 0,
        o.bit_rot_buffer_pct <= 50,
        MIN_INDEX_ROOT_FEC_DATA_SHARDS <= other <= root_class_ceiling(o.block_size as int),
        root_class_fits(o, caps, other),
    ensures
        other <= single_pass_root_class(o, caps),
        root_class_fits(o, caps, single_pass_root_class(o, caps)),
{
    assert forall|a: int, b: int|
        MIN_INDEX_ROOT_FEC_DATA_SHARDS <= a <= b && #[trigger] root_class_fits(
            o,
            caps,
            b,
        ) implies #[trigger] root_class_fits(o, caps, a) by {
        smaller_classes_fit_too(o, caps, a, b);
    }
    single_pass_root_class_is_largest(o, caps, other);
}

/// The index-root class to announce before the payload is known.
pub fn max_single_pass_index_root_data_shards(options: WriterOptions, caps: &ReaderCaps) -> (r:
    Result<u16, FormatError>)
    requires
        options.block_size > 0,
    ensures
        r == Ok::<u16, FormatError>(single_pass_root_class(options, *caps) as u16),
        16 <= single_pass_root_class(options, *caps) <= u16::MAX,
{
    let addressed: u64 = u32::MAX as u64 / options.block_size as u64;
    let ceiling: u64 = if addressed < u16::MAX as u64 {
        addressed
    } else {
        u16::MAX as u64
    };
    let mut low: u64 = MIN_INDEX_ROOT_FEC_DATA_SHARDS as u64;
    let mut high: u64 = ceiling;
    let mut best: u64 = low;
    proof {
        root_class_search_is_bounded(
            options,
            *caps,
            low as int,
            high as int,
            best as int,
        );
    }
    while low <= high
        invariant
            ceiling == root_class_ceiling(options.block_size as int),
            ceiling <= u16::MAX,
            16 <= best <= u16::MAX,
            16 <= low <= u16::MAX + 1,
            high <= u16::MAX,
            root_class_search(options, *caps, low as int, high as int, best as int)
                == single_pass_root_class(options, *caps),
        decreases high + 1 - low,
    {
        let mid: u64 = low + (high - low) / 2;
        let fits = match compute_parity(mid, options) {
            Ok(parity) => mid + parity as u64 <= caps.max_index_root_fec_class_shards as u64,
            Err(_) => false,
        };
        if fits {
            best = mid;
            low = mid + 1;
        } else {
            high = mid - 1;
        }
    }
    Ok(best as u16)
}

/// A request that was completed with the class announced for a single pass.
pub open spec fn planned_single_pass_options(o: WriterOptions, caps: ReaderCaps) -> Result<
    WriterOptions,
    FormatError,
> {
    match planned_options(o, caps) {
        Err(e) => Err(e),
        Ok(p) => planned_options(
            WriterOptions {
                index_root_fec_data_shards: single_pass_root_class(p, caps) as u16,
                ..p
            },
            caps,
        ),
    }
}

/// Completes a request whose headers are written before its metadata is known.
pub fn plan_single_pass_writer_options(options: WriterOptions, caps: &ReaderCaps) -> (r: Result<
    WriterOptions,
    FormatError,
>)
    ensures
        r == planned_single_pass_options(options, *caps),
{
    let mut planned: WriterOptions = plan_writer_options(options, caps)?;
    planned.index_root_fec_data_shards = max_single_pass_index_root_data_shards(planned, caps)?;
    plan_writer_options(planned, caps)
}

/// Why a request cannot be served in one pass.
pub open spec fn single_pass_refusal(o: WriterOptions) -> Option<&'static str> {
    if o.volume_loss_tolerance != 0 {
        Some("streaming create cannot tolerate volume loss")
    } else if o.target_volume_size is Some {
        Some("streaming create does not support target volume sizing")
    } else {
        None
    }
}

pub fn validate_single_pass_writer_options(options: WriterOptions) -> (r: Result<(), FormatError>)
    ensures
        r == (match single_pass_refusal(options) {
            Some(rule) => Err(FormatError::WriterUnsupported(rule)),
            None => Ok(()),
        }),
{
    if options.volume_loss_tolerance != 0 {
        return Err(FormatError::WriterUnsupported("streaming create cannot tolerate volume loss"));
    }
    if options.target_volume_size.is_some() {
        return Err(
            FormatError::WriterUnsupported("streaming create does not support target volume sizing"),
        );
    }
    Ok(())
}

/// Why a dictionary cannot be used.
pub open spec fn dictionary_refusal(files_are_empty: bool, dictionary: Option<Seq<u8>>) -> Option<
    &'static str,
> {
    match dictionary {
        None => None,
        Some(bytes) => if bytes.len() == 0 {
            Some("dictionary archives require a non-empty dictionary")
        } else if files_are_empty {
            Some("dictionary archives require at least one file")
        } else if bytes.len() > u32::MAX {
            Some("dictionary decompressed size exceeds u32")
        } else {
            None
        },
    }
}

/// The content of an optional byte string.
pub open spec fn opt_bytes(b: Option<&[u8]>) -> Option<Seq<u8>> {
    match b {
        None => None,
        Some(bytes) => Some(bytes@),
    }
}

pub fn validate_dictionary_inputs(files_are_empty: bool, dictionary: Option<&[u8]>) -> (r: Result<
    (),
    FormatError,
>)
    ensures
        r == (match dictionary_refusal(files_are_empty, opt_bytes(dictionary)) {
            Some(rule) => Err(FormatError::WriterUnsupported(rule)),
            None => Ok(()),
        }),
{
    if let Some(bytes) = dictionary {
        if bytes.len() == 0 {
            return Err(
                FormatError::WriterUnsupported("dictionary archives require a non-empty dictionary"),
            );
        }
        if files_are_empty {
            return Err(
                FormatError::WriterUnsupported("dictionary archives require at least one file"),
            );
        }
        if bytes.len() as u64 > u32::MAX as u64 {
            return Err(FormatError::WriterUnsupported("dictionary decompressed size exceeds u32"));
        }
    }
    Ok(())
}

} // verus!
