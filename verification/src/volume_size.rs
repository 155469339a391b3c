//! How large the volumes of a plan become, and how many a size limit takes.
use crate::arith::{
    ceil_div, ceil_div_is_least_cover, ceil_div_outcome, checked_u64_add, checked_u64_mul, fit_u32,
    fit_u64, spec_ceil_div,
};
use crate::bytes::{zero_vec, zeros};
use crate::cmra::{build_v45_cmra, cmra_outcome, BuiltCmra, CmraBuildInput};
use crate::codec::{ArchiveCodec, WireLayout};
use crate::emit::volume_header;
use crate::errors::FormatError;
use crate::headers::{build_volume_trailer, trailer_outcome, VolumeTrailerBuildInput};
use crate::keys::{MasterKey, Subkeys};
use crate::object_plan::{blocks_on_volume, striped_block_count, striping_is_even};
use crate::options::{ReaderCaps, WriterOptions};
use crate::plan::{subkeys_outcome, writer_subkeys, PlanValue, WriterPlan};
use crate::suffix::{build_plan_manifest, cmra_input, plan_manifest, trailer_input, TailOffsets};
use crate::wire::{Record, VolumeHeader};
use vstd::prelude::*;

verus! {

/// Bytes that a block takes in a volume.
pub open spec fn block_record_len(o: WriterOptions, layout: WireLayout) -> int {
    o.block_size + layout.block_record_framing
}

/// A footer of zeros that is as long as the planned one.
pub open spec fn blank_footer(plan: PlanValue) -> Option<Seq<u8>> {
    match plan.root_auth_footer_length {
        Some(length) => Some(zeros(length as int)),
        None => None,
    }
}

pub open spec fn footer_len(plan: PlanValue) -> int {
    match plan.root_auth_footer_length {
        Some(length) => length as int,
        None => 0,
    }
}

/// Where the terminal parts of a volume of `block_count` blocks lie.
pub open spec fn planned_offsets(plan: PlanValue, layout: WireLayout, block_count: u64) -> Result<
    TailOffsets,
    FormatError,
> {
    let records = block_count * block_record_len(plan.options, layout);
    let manifest = plan.block_records_offset + records;
    if records > u64::MAX || manifest > u64::MAX {
        Err(FormatError::WriterUnsupported("volume records"))
    } else {
        Ok(
            TailOffsets {
                manifest: manifest as u64,
                root_auth: match plan.root_auth_footer_length {
                    Some(_) => Some((manifest + layout.manifest_footer) as u64),
                    None => None,
                },
                trailer: (manifest + layout.manifest_footer + footer_len(plan)) as u64,
                cmra: (manifest + layout.manifest_footer + footer_len(plan)
                    + layout.volume_trailer) as u64,
            },
        )
    }
}

/// The size of a volume of `block_count` blocks.
pub open spec fn planned_volume_size<C: ArchiveCodec>(
    codec: &C,
    plan: PlanValue,
    subkeys: Subkeys,
    caps: ReaderCaps,
    volume_index: u32,
    block_count: u64,
) -> Result<u64, FormatError> {
    let layout = codec.spec_layout();
    match planned_offsets(plan, layout, block_count) {
        Err(e) => Err(e),
        Ok(offsets) => match plan_manifest(codec, plan, subkeys, volume_index) {
            Err(e) => Err(e),
            Ok(manifest) => if offsets.manifest + layout.manifest_footer > u64::MAX
                && plan.root_auth_footer_length is Some {
                Err(FormatError::WriterUnsupported("RootAuthFooterV1"))
            } else if offsets.manifest + layout.manifest_footer + footer_len(plan) > u64::MAX {
                Err(FormatError::WriterUnsupported("VolumeTrailer"))
            } else {
                match trailer_outcome(
                    codec,
                    trailer_input(
                        plan,
                        subkeys,
                        volume_index,
                        block_count,
                        offsets,
                        blank_footer(plan),
                    ),
                ) {
                    Err(e) => Err(e),
                    Ok(trailer) => if offsets.trailer + layout.volume_trailer > u64::MAX {
                        Err(FormatError::WriterUnsupported("CMRA"))
                    } else {
                        match cmra_outcome(
                            codec,
                            cmra_input(
                                plan,
                                volume_index,
                                block_count,
                                codec.encoded(
                                    Record::VolumeHeader(
                                        volume_header(
                                            layout,
                                            plan.options.stripe_width,
                                            plan.crypto_header.bytes.len() as int,
                                            plan.archive_uuid,
                                            plan.session_id,
                                            plan.volume_format_rev,
                                            volume_index as int,
                                        ),
                                    ),
                                ),
                                manifest,
                                blank_footer(plan),
                                trailer,
                                offsets,
                            ),
                            caps.max_cmra_parity_pct,
                        ) {
                            Err(e) => Err(e),
                            Ok(cmra) => if offsets.cmra + cmra.bytes.len() > u64::MAX {
                                Err(FormatError::WriterUnsupported("CMRA"))
                            } else {
                                fit_u64(
                                    offsets.cmra + cmra.bytes.len() + 2 * layout.recovery_locator,
                                    "critical recovery locators",
                                )
                            },
                        }
                    },
                }
            },
        },
    }
}

/// The size of a volume of `block_count` blocks of a plan.
#[verifier::rlimit(60)]
pub fn plan_volume_size<C: ArchiveCodec>(
    codec: &C,
    plan: &WriterPlan,
    subkeys: &Subkeys,
    caps: &ReaderCaps,
    volume_index: u32,
    block_count: u64,
) -> (r: Result<u64, FormatError>)
    requires
        plan.wf(),
    ensures
        r == planned_volume_size(codec, plan@, *subkeys, *caps, volume_index, block_count),
{
    let layout: WireLayout = codec.layout();
    let header = VolumeHeader {
        format_version: layout.format_version,
        volume_format_rev: plan.volume_format_rev,
        volume_index,
        stripe_width: plan.options.stripe_width,
        archive_uuid: plan.archive_uuid,
        session_id: plan.session_id,
        crypto_header_offset: layout.volume_header as u32,
        crypto_header_length: plan.crypto_header.bytes.len() as u32,
        header_crc32c: 0,
    };
    let header_bytes: Vec<u8> = codec.encode(&Record::VolumeHeader(header));
    let record_len: u64 = plan.options.block_size as u64 + layout.block_record_framing as u64;
    let record_bytes: u64 = checked_u64_mul(block_count, record_len, "volume records")?;
    let manifest_offset: u64 = checked_u64_add(
        plan.block_records_offset,
        record_bytes,
        "volume records",
    )?;
    let ghost offsets = planned_offsets(plan@, layout, block_count)->Ok_0;
    let manifest: Vec<u8> = build_plan_manifest(codec, plan, subkeys, volume_index)?;
    let footer: Option<Vec<u8>> = match plan.root_auth_footer_length {
        Some(length) => Some(zero_vec(length as usize)),
        None => None,
    };
    let footer_bytes: Option<&[u8]> = match &footer {
        Some(bytes) => Some(bytes.as_slice()),
        None => None,
    };
    let footer_length: u64 = match plan.root_auth_footer_length {
        Some(length) => length as u64,
        None => 0,
    };
    let root_auth_offset: Option<u64> = match plan.root_auth_footer_length {
        Some(_) => Some(
            checked_u64_add(manifest_offset, layout.manifest_footer as u64, "RootAuthFooterV1")?,
        ),
        None => None,
    };
    let trailer_offset: u64 = checked_u64_add(
        manifest_offset,
        layout.manifest_footer as u64 + footer_length,
        "VolumeTrailer",
    )?;
    let root_auth_footer: Option<(u64, u32)> = match (
        root_auth_offset,
        plan.root_auth_footer_length,
    ) {
        (Some(offset), Some(length)) => Some((offset, length)),
        _ => None,
    };
    let input = VolumeTrailerBuildInput {
        subkeys: *subkeys,
        aead_algo: plan.options.aead_algo,
        volume_format_rev: plan.volume_format_rev,
        archive_uuid: plan.archive_uuid,
        session_id: plan.session_id,
        volume_index,
        block_count,
        bytes_written: trailer_offset,
        manifest_footer_offset: manifest_offset,
        closed_at_ns: plan.options.closed_at_ns,
        root_auth_footer,
    };
    assert(input == trailer_input(
        plan@,
        *subkeys,
        volume_index,
        block_count,
        offsets,
        blank_footer(plan@),
    ));
    let trailer: Vec<u8> = build_volume_trailer(codec, &input)?;
    let cmra_offset: u64 = checked_u64_add(trailer_offset, layout.volume_trailer as u64, "CMRA")?;
    let table: Option<&[u8]> = match &plan.key_wrap_table {
        Some(table) => Some(table.as_slice()),
        None => None,
    };
    let build = CmraBuildInput {
        volume_format_rev: plan.volume_format_rev,
        volume_header_bytes: header_bytes.as_slice(),
        crypto_header: plan.crypto_header.bytes.as_slice(),
        block_count,
        block_records_offset: plan.block_records_offset,
        manifest_footer_offset: manifest_offset,
        manifest_footer: manifest.as_slice(),
        root_auth_footer_offset: root_auth_offset,
        root_auth_footer: footer_bytes,
        key_wrap_table: table,
        trailer_offset,
        trailer: trailer.as_slice(),
        cmra_offset,
        options: plan.options,
        archive_uuid: plan.archive_uuid,
        session_id: plan.session_id,
        volume_index,
    };
    assert(build@ == cmra_input(
        plan@,
        volume_index,
        block_count,
        header_bytes@,
        manifest@,
        blank_footer(plan@),
        trailer@,
        offsets,
    ));
    let cmra: BuiltCmra = build_v45_cmra(codec, &build, caps.max_cmra_parity_pct)?;
    let end: u64 = checked_u64_add(cmra_offset, cmra.bytes.len() as u64, "CMRA")?;
    checked_u64_add(end, layout.recovery_locator as u64 * 2, "critical recovery locators")
}

// ---------------------------------------------------------------------------------------------
// Stripe width
// ---------------------------------------------------------------------------------------------

/// The largest volume, and the most that a volume holds beside its blocks.
pub struct VolumeExtremes {
    pub size: u64,
    pub overhead: u64,
}

/// Blocks of a plan on one of its volumes.
pub open spec fn volume_blocks(plan: PlanValue, volume_index: int) -> u64 {
    blocks_on_volume(
        0,
        plan.total_block_count as int,
        plan.options.stripe_width as int,
        volume_index,
    ) as u64
}

/// The extremes over the first `count` volumes.
pub open spec fn volume_extremes<C: ArchiveCodec>(
    codec: &C,
    plan: PlanValue,
    subkeys: Subkeys,
    caps: ReaderCaps,
    count: nat,
) -> Result<VolumeExtremes, FormatError>
    decreases count,
{
    if count == 0 {
        Ok(VolumeExtremes { size: 0, overhead: 0 })
    } else {
        match volume_extremes(codec, plan, subkeys, caps, (count - 1) as nat) {
            Err(e) => Err(e),
            Ok(before) => {
                let blocks = volume_blocks(plan, count - 1);
                let records = blocks * block_record_len(plan.options, codec.spec_layout());
                match planned_volume_size(
                    codec,
                    plan,
                    subkeys,
                    caps,
                    (count - 1) as u32,
                    blocks,
                ) {
                    Err(e) => Err(e),
                    Ok(size) => if size < records {
                        Err(FormatError::WriterInvariant("planned volume record overflow"))
                    } else {
                        Ok(
                            VolumeExtremes {
                                size: if size > before.size {
                                    size
                                } else {
                                    before.size
                                },
                                overhead: if size - records > before.overhead {
                                    (size - records) as u64
                                } else {
                                    before.overhead
                                },
                            },
                        )
                    },
                }
            },
        }
    }
}

proof fn first_volume_error_stays<C: ArchiveCodec>(
    codec: &C,
    plan: PlanValue,
    subkeys: Subkeys,
    caps: ReaderCaps,
    count: nat,
    total: nat,
)
    requires
        count <= total,
        volume_extremes(codec, plan, subkeys, caps, count) is Err,
    ensures
        volume_extremes(codec, plan, subkeys, caps, total) == volume_extremes(
            codec,
            plan,
            subkeys,
            caps,
            count,
        ),
    decreases total,
{
    if count < total {
        first_volume_error_stays(codec, plan, subkeys, caps, count, (total - 1) as nat);
    }
}

/// How many volumes keep each at or below `target` bytes.
pub open spec fn required_width(
    extremes: VolumeExtremes,
    total_blocks: u64,
    o: WriterOptions,
    layout: WireLayout,
    target: u64,
) -> Result<u32, FormatError> {
    let room = (target - extremes.overhead) / block_record_len(o, layout);
    if extremes.size <= target {
        Ok(o.stripe_width)
    } else if target <= extremes.overhead {
        Err(FormatError::WriterUnsupported("volume-size is too small for per-volume metadata"))
    } else if room == 0 {
        Err(
            FormatError::WriterUnsupported(
                "volume-size is too small for the configured block-size",
            ),
        )
    } else {
        match ceil_div_outcome(total_blocks as int, room) {
            Err(e) => Err(e),
            Ok(needed) => fit_u32(
                if needed > o.volume_loss_tolerance + 1 {
                    needed as int
                } else {
                    o.volume_loss_tolerance + 1
                },
                "volume count",
            ),
        }
    }
}

pub open spec fn stripe_width_outcome<C: ArchiveCodec>(
    codec: &C,
    plan: PlanValue,
    master_key: MasterKey,
    caps: ReaderCaps,
    target: u64,
) -> Result<u32, FormatError> {
    match subkeys_outcome(
        codec,
        master_key,
        plan.options.aead_algo,
        plan.archive_uuid,
        plan.session_id,
    ) {
        Err(e) => Err(e),
        Ok(subkeys) => match volume_extremes(
            codec,
            plan,
            subkeys,
            caps,
            plan.options.stripe_width as nat,
        ) {
            Err(e) => Err(e),
            Ok(extremes) => required_width(
                extremes,
                plan.total_block_count,
                plan.options,
                codec.spec_layout(),
                target,
            ),
        },
    }
}

/// How many volumes a plan needs to keep each at or below `target_volume_size` bytes.
#[verifier::loop_isolation(false)]
pub fn required_stripe_width_for_plan<C: ArchiveCodec>(
    codec: &C,
    plan: &WriterPlan,
    master_key: &MasterKey,
    caps: &ReaderCaps,
    target_volume_size: u64,
) -> (r: Result<u32, FormatError>)
    requires
        plan.wf(),
        plan.options.block_size > 0,
    ensures
        r == stripe_width_outcome(codec, plan@, *master_key, *caps, target_volume_size),
{
    let layout: WireLayout = codec.layout();
    let subkeys: Subkeys = writer_subkeys(
        codec,
        master_key,
        plan.options.aead_algo,
        &plan.archive_uuid,
        &plan.session_id,
    )?;
    let mut max_volume_size: u64 = 0;
    let mut max_overhead: u64 = 0;
    let record_len: u64 = plan.options.block_size as u64 + layout.block_record_framing as u64;
    let stripe_width: u32 = plan.options.stripe_width;
    let mut volume_index: u32 = 0;
    while volume_index < stripe_width
        invariant
            volume_index <= stripe_width,
            volume_extremes(codec, plan@, subkeys, *caps, volume_index as nat) == Ok::<
                VolumeExtremes,
                FormatError,
            >(VolumeExtremes { size: max_volume_size, overhead: max_overhead }),
        decreases stripe_width - volume_index,
    {
        proof {
            if volume_extremes(codec, plan@, subkeys, *caps, (volume_index + 1) as nat) is Err {
                first_volume_error_stays(
                    codec,
                    plan@,
                    subkeys,
                    *caps,
                    (volume_index + 1) as nat,
                    stripe_width as nat,
                );
            }
        }
        let block_count: u64 = striped_block_count(
            plan.total_block_count,
            stripe_width,
            volume_index,
        );
        let volume_size: u64 = plan_volume_size(
            codec,
            plan,
            &subkeys,
            caps,
            volume_index,
            block_count,
        )?;
        if volume_size > max_volume_size {
            max_volume_size = volume_size;
        }
        let record_bytes: u64 = checked_u64_mul(block_count, record_len, "volume records")?;
        if volume_size < record_bytes {
            return Err(FormatError::WriterInvariant("planned volume record overflow"));
        }
        let overhead: u64 = volume_size - record_bytes;
        if overhead > max_overhead {
            max_overhead = overhead;
        }
        volume_index = volume_index + 1;
    }
    if max_volume_size <= target_volume_size {
        return Ok(stripe_width);
    }
    if target_volume_size <= max_overhead {
        return Err(
            FormatError::WriterUnsupported("volume-size is too small for per-volume metadata"),
        );
    }
    let records_per_volume: u64 = (target_volume_size - max_overhead) / record_len;
    if records_per_volume == 0 {
        return Err(
            FormatError::WriterUnsupported(
                "volume-size is too small for the configured block-size",
            ),
        );
    }
    let needed: u64 = ceil_div(plan.total_block_count, records_per_volume)?;
    let least: u64 = plan.options.volume_loss_tolerance as u64 + 1;
    let required: u64 = if needed > least {
        needed
    } else {
        least
    };
    if required > u32::MAX as u64 {
        return Err(FormatError::WriterUnsupported("volume count"));
    }
    Ok(required as u32)
}

/// The planned size of one of the volumes.
pub open spec fn volume_outcome<C: ArchiveCodec>(
    codec: &C,
    plan: PlanValue,
    subkeys: Subkeys,
    caps: ReaderCaps,
    volume: int,
) -> Result<u64, FormatError> {
    planned_volume_size(codec, plan, subkeys, caps, volume as u32, volume_blocks(plan, volume))
}

/// The extremes bound every volume, and the largest size is that of some volume.
proof fn extremes_bound_the_volumes<C: ArchiveCodec>(
    codec: &C,
    plan: PlanValue,
    subkeys: Subkeys,
    caps: ReaderCaps,
    count: nat,
) -> (largest: int)
    requires
        volume_extremes(codec, plan, subkeys, caps, count) is Ok,
    ensures
        ({
            let x = volume_extremes(codec, plan, subkeys, caps, count)->Ok_0;
            let len = block_record_len(plan.options, codec.spec_layout());
            &&& forall|v: int|
                0 <= v < count ==> (#[trigger] volume_outcome(codec, plan, subkeys, caps, v)
                    matches Ok(size) && size <= x.size && size - volume_blocks(plan, v) * len
                    <= x.overhead)
            &&& x.size > 0 ==> 0 <= largest < count && volume_outcome(
                codec,
                plan,
                subkeys,
                caps,
                largest,
            ) == Ok::<u64, FormatError>(x.size)
        }),
    decreases count,
{
    if count == 0 {
        0
    } else {
        let before = extremes_bound_the_volumes(codec, plan, subkeys, caps, (count - 1) as nat);
        let b = volume_extremes(codec, plan, subkeys, caps, (count - 1) as nat)->Ok_0;
        let x = volume_extremes(codec, plan, subkeys, caps, count)->Ok_0;
        let size = volume_outcome(codec, plan, subkeys, caps, count - 1);
        assert(size is Ok);
        if x.size > b.size {
            count - 1
        } else {
            before
        }
    }
}

/// A plan that is not sent back for more volumes keeps every volume at or below the limit.
pub proof fn accepted_widths_meet_the_target<C: ArchiveCodec>(
    codec: &C,
    plan: PlanValue,
    master_key: MasterKey,
    subkeys: Subkeys,
    caps: ReaderCaps,
    target: u64,
    volume: int,
)
    requires
        plan.options.block_size > 0,
        0 <= volume < plan.options.stripe_width,
        subkeys_outcome(
            codec,
            master_key,
            plan.options.aead_algo,
            plan.archive_uuid,
            plan.session_id,
        ) == Ok::<Subkeys, FormatError>(subkeys),
        stripe_width_outcome(codec, plan, master_key, caps, target) matches Ok(width) && width
            <= plan.options.stripe_width,
    ensures
        volume_outcome(codec, plan, subkeys, caps, volume) matches Ok(size) && size <= target,
{
    let width = plan.options.stripe_width as int;
    let total = plan.total_block_count as int;
    let len = block_record_len(plan.options, codec.spec_layout());
    let x = volume_extremes(codec, plan, subkeys, caps, width as nat)->Ok_0;
    let largest = extremes_bound_the_volumes(codec, plan, subkeys, caps, width as nat);
    assert(volume_outcome(codec, plan, subkeys, caps, volume) is Ok);
    if x.size > target {
        let room = (target - x.overhead) / len;
        let blocks = blocks_on_volume(0, total, width, largest);
        striping_is_even(0, total, width, largest);
        ceil_div_is_least_cover(total, width);
        let share = spec_ceil_div(total, width);
        assert(volume_blocks(plan, largest) == blocks);
        assert(volume_outcome(codec, plan, subkeys, caps, largest) is Ok);
        assert(blocks * len + x.overhead > target);
        vstd::arithmetic::div_mod::lemma_fundamental_div_mod(target - x.overhead, len);
        vstd::arithmetic::div_mod::lemma_mod_bound(target - x.overhead, len);
        assert(blocks > room) by (nonlinear_arith)
            requires
                blocks * len > target - x.overhead,
                target - x.overhead >= len * room,
                len > 0,
        ;
        ceil_div_is_least_cover(total, room);
        let needed = spec_ceil_div(total, room);
        assert(needed > width) by {
            if needed <= width {
                assert(width * room >= needed * room) by (nonlinear_arith)
                    requires
                        needed <= width,
                        room > 0,
                ;
                assert(room * width == width * room) by (nonlinear_arith);
                assert(room >= share);
            }
        }
    }
}

} // verus!
