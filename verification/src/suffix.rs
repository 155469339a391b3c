//! Closing an archive: metadata objects, footers, trailers, recovery areas and locators.
use crate::arith::{checked_u64_add, fit_u32, u32_len};
use crate::clock::{nanos_since, now, WriterTimings};
use crate::cmra::{
    build_v45_cmra, cmra_outcome, BuiltCmra, CmraBuildInput, CmraInputValue, CmraValue,
};
use crate::codec::{ArchiveCodec, WireLayout};
use crate::emit::{emission, lift, opt_leaves, writes, Emission, WriterEmissionState};
use crate::errors::{ArchiveWriteError, FormatError};
use crate::headers::{
    build_bootstrap_sidecar, build_manifest_footer, build_volume_trailer, manifest_outcome,
    manifest_record, sidecar_outcome, trailer_outcome, VolumeTrailerBuildInput,
};
use crate::keys::Subkeys;
use crate::objects::{body_outcome, emit_plan_body, ArchiveSeal, BodyRecords, BodyValue};
use crate::options::{opt_bytes, ReaderCaps};
use crate::plan::{PlanValue, WriterPlan};
use crate::root_auth::{
    always_answers, build_root_auth_footer_from_leaf_hashes, footer_is_signed, DataLeaf,
    RootAuthFooterBuildInput, RootAuthInputValue, RootAuthSigningRequest, RootAuthWriterConfig,
};
use crate::sink::{failure_of, standing, ArchiveWriteSink, Standing};
use crate::wire::{BlockRecord, CriticalRecoveryLocator, Record};
use vstd::prelude::*;

verus! {

// ---------------------------------------------------------------------------------------------
// Parts of a volume
// ---------------------------------------------------------------------------------------------

/// Bytes added to a volume, and accounted for.
pub open spec fn with_part(e: Emission, volume: int, bytes: Seq<u8>, label: &'static str) -> Result<
    Emission,
    FormatError,
> {
    if e.bytes_written[volume] + bytes.len() > u64::MAX {
        Err(FormatError::WriterUnsupported(label))
    } else {
        Ok(
            Emission {
                volumes: e.volumes.update(volume, e.volumes[volume] + bytes),
                bytes_written: e.bytes_written.update(
                    volume,
                    (e.bytes_written[volume] + bytes.len()) as u64,
                ),
                ..e
            },
        )
    }
}

fn write_part<O: ArchiveWriteSink>(
    sink: &mut O,
    state: &mut WriterEmissionState,
    volume_index: usize,
    bytes: &[u8],
    label: &'static str,
    stripe_width: u32,
) -> (r: Result<(), ArchiveWriteError>)
    requires
        emission(*old(sink), *old(state)).wf(stripe_width),
        volume_index < stripe_width,
    ensures
        writes(
            standing(*old(sink)),
            standing(*final(sink)),
            emission(*final(sink), *final(state)),
            with_part(emission(*old(sink), *old(state)), volume_index as int, bytes@, label),
            failure_of(r),
        ),
        r is Ok ==> emission(*final(sink), *final(state)).wf(stripe_width),
        final(state).volume_headers == old(state).volume_headers,
        final(state).volume_format_rev == old(state).volume_format_rev,
{
    sink.write_volume(volume_index, bytes)?;
    let written: u64 = lift(
        checked_u64_add(state.bytes_written[volume_index], bytes.len() as u64, label),
    )?;
    state.bytes_written[volume_index] = written;
    Ok(())
}

/// The manifest footer of a volume.
pub open spec fn plan_manifest<C: ArchiveCodec>(
    codec: &C,
    plan: PlanValue,
    subkeys: Subkeys,
    volume_index: u32,
) -> Result<Seq<u8>, FormatError> {
    if plan.index_root_plaintext.len() > u32::MAX {
        Err(FormatError::WriterUnsupported("IndexRoot"))
    } else {
        manifest_outcome(
            codec,
            subkeys,
            plan.options.aead_algo,
            plan.volume_format_rev,
            manifest_record(
                plan.archive_uuid,
                plan.session_id,
                volume_index,
                plan.options.stripe_width,
                plan.index_root_extent,
                plan.index_root_plaintext.len() as int,
            ),
        )
    }
}

pub fn build_plan_manifest<C: ArchiveCodec>(
    codec: &C,
    plan: &WriterPlan,
    subkeys: &Subkeys,
    volume_index: u32,
) -> (r: Result<Vec<u8>, FormatError>)
    ensures
        crate::errors::bytes_agree(r, plan_manifest(codec, plan@, *subkeys, volume_index)),
        r matches Ok(bytes) ==> bytes@.len() == codec.spec_layout().manifest_footer,
{
    build_manifest_footer(
        codec,
        subkeys,
        plan.options.aead_algo,
        plan.volume_format_rev,
        plan.archive_uuid,
        plan.session_id,
        volume_index,
        plan.options.stripe_width,
        &plan.index_root_extent,
        plan.index_root_plaintext.len(),
    )
}

/// Where the parts behind the blocks of a volume lie.
pub struct TailOffsets {
    pub manifest: u64,
    pub root_auth: Option<u64>,
    pub trailer: u64,
    pub cmra: u64,
}

pub open spec fn trailer_input(
    plan: PlanValue,
    subkeys: Subkeys,
    volume_index: u32,
    block_count: u64,
    offsets: TailOffsets,
    footer: Option<Seq<u8>>,
) -> VolumeTrailerBuildInput {
    VolumeTrailerBuildInput {
        subkeys,
        aead_algo: plan.options.aead_algo,
        volume_format_rev: plan.volume_format_rev,
        archive_uuid: plan.archive_uuid,
        session_id: plan.session_id,
        volume_index,
        block_count,
        bytes_written: offsets.trailer,
        manifest_footer_offset: offsets.manifest,
        closed_at_ns: plan.options.closed_at_ns,
        root_auth_footer: match (offsets.root_auth, footer) {
            (Some(offset), Some(bytes)) => Some((offset, bytes.len() as u32)),
            _ => None,
        },
    }
}

pub open spec fn cmra_input(
    plan: PlanValue,
    volume_index: u32,
    block_count: u64,
    volume_header: Seq<u8>,
    manifest: Seq<u8>,
    footer: Option<Seq<u8>>,
    trailer: Seq<u8>,
    offsets: TailOffsets,
) -> CmraInputValue {
    CmraInputValue {
        volume_format_rev: plan.volume_format_rev,
        volume_header_bytes: volume_header,
        crypto_header: plan.crypto_header.bytes,
        block_count,
        block_records_offset: plan.block_records_offset,
        manifest_footer_offset: offsets.manifest,
        manifest_footer: manifest,
        root_auth_footer_offset: offsets.root_auth,
        root_auth_footer: footer,
        key_wrap_table: plan.key_wrap_table,
        trailer_offset: offsets.trailer,
        trailer,
        cmra_offset: offsets.cmra,
        options: plan.options,
        archive_uuid: plan.archive_uuid,
        session_id: plan.session_id,
        volume_index,
    }
}

/// A locator of the recovery area of a volume.
pub open spec fn locator_record(
    plan: PlanValue,
    volume_index: u32,
    cmra: CmraValue,
    offsets: TailOffsets,
    sequence: u32,
) -> CriticalRecoveryLocator {
    CriticalRecoveryLocator {
        cmra_offset: offsets.cmra,
        cmra_length: cmra.bytes.len() as u32,
        volume_trailer_offset: offsets.trailer,
        body_bytes_before_cmra: offsets.cmra,
        archive_uuid_hint: plan.archive_uuid,
        session_id_hint: plan.session_id,
        volume_index_hint: volume_index,
        locator_sequence: sequence,
        cmra_shard_size: cmra.shard_size,
        cmra_data_shard_count: cmra.data_shard_count,
        cmra_parity_shard_count: cmra.parity_shard_count,
        cmra_image_length: cmra.image_length,
        cmra_image_sha256: cmra.image_sha256,
        locator_crc32c: 0,
    }
}

/// The two locators that end a volume: the mirror, then the one that is found first.
pub open spec fn locator_bytes<C: ArchiveCodec>(
    codec: &C,
    plan: PlanValue,
    volume_index: u32,
    cmra: CmraValue,
    offsets: TailOffsets,
) -> Seq<u8> {
    codec.encoded(
        Record::RecoveryLocator(locator_record(plan, volume_index, cmra, offsets, 1)),
    ) + codec.encoded(
        Record::RecoveryLocator(locator_record(plan, volume_index, cmra, offsets, 0)),
    )
}

/// A volume after its root-authentication footer, where it has one.
pub open spec fn with_footer(e: Emission, volume: int, footer: Option<Seq<u8>>) -> Result<
    Emission,
    FormatError,
> {
    match footer {
        None => Ok(e),
        Some(bytes) => with_part(e, volume, bytes, "RootAuthFooterV1"),
    }
}

/// A volume after the parts behind its blocks: manifest footer, root-authentication footer,
/// trailer, recovery area and locators.
pub open spec fn with_tail<C: ArchiveCodec>(
    codec: &C,
    e: Emission,
    plan: PlanValue,
    subkeys: Subkeys,
    volume_header: Seq<u8>,
    footer: Option<Seq<u8>>,
    caps: ReaderCaps,
    volume: int,
) -> Result<Emission, FormatError> {
    let index = volume as u32;
    match plan_manifest(codec, plan, subkeys, index) {
        Err(f) => Err(f),
        Ok(manifest) => match with_part(e, volume, manifest, "ManifestFooter") {
            Err(f) => Err(f),
            Ok(e1) => match with_footer(e1, volume, footer) {
                Err(f) => Err(f),
                Ok(e2) => with_trailer(
                    codec,
                    e2,
                    plan,
                    subkeys,
                    volume_header,
                    manifest,
                    footer,
                    caps,
                    volume,
                    e.bytes_written[volume],
                    if footer is Some {
                        Some(e1.bytes_written[volume])
                    } else {
                        None
                    },
                ),
            },
        },
    }
}

/// A volume after its trailer and what follows it.
pub open spec fn with_trailer<C: ArchiveCodec>(
    codec: &C,
    e: Emission,
    plan: PlanValue,
    subkeys: Subkeys,
    volume_header: Seq<u8>,
    manifest: Seq<u8>,
    footer: Option<Seq<u8>>,
    caps: ReaderCaps,
    volume: int,
    manifest_offset: u64,
    root_auth_offset: Option<u64>,
) -> Result<Emission, FormatError> {
    let index = volume as u32;
    let count = e.record_counts[volume];
    let early = TailOffsets {
        manifest: manifest_offset,
        root_auth: root_auth_offset,
        trailer: e.bytes_written[volume],
        cmra: 0,
    };
    match trailer_outcome(codec, trailer_input(plan, subkeys, index, count, early, footer)) {
        Err(f) => Err(f),
        Ok(trailer) => match with_part(e, volume, trailer, "VolumeTrailer") {
            Err(f) => Err(f),
            Ok(e3) => {
                let offsets = TailOffsets { cmra: e3.bytes_written[volume], ..early };
                match cmra_outcome(
                    codec,
                    cmra_input(
                        plan,
                        index,
                        count,
                        volume_header,
                        manifest,
                        footer,
                        trailer,
                        offsets,
                    ),
                    caps.max_cmra_parity_pct,
                ) {
                    Err(f) => Err(f),
                    Ok(cmra) => match with_part(e3, volume, cmra.bytes, "CMRA") {
                        Err(f) => Err(f),
                        Ok(e4) => match fit_u32(cmra.bytes.len() as int, "CMRA") {
                            Err(f) => Err(f),
                            Ok(_) => with_part(
                                e4,
                                volume,
                                locator_bytes(codec, plan, index, cmra, offsets),
                                "critical recovery locators",
                            ),
                        },
                    },
                }
            },
        },
    }
}

fn write_locators<C: ArchiveCodec, O: ArchiveWriteSink>(
    codec: &C,
    plan: &WriterPlan,
    volume_index: u32,
    cmra: &BuiltCmra,
    cmra_length: u32,
    trailer_offset: u64,
    cmra_offset: u64,
    offsets: Ghost<TailOffsets>,
    sink: &mut O,
    state: &mut WriterEmissionState,
) -> (r: Result<(), ArchiveWriteError>)
    requires
        emission(*old(sink), *old(state)).wf(plan.options.stripe_width),
        volume_index < plan.options.stripe_width,
        offsets@.trailer == trailer_offset,
        offsets@.cmra == cmra_offset,
        cmra_length == cmra@.bytes.len(),
    ensures
        writes(
            standing(*old(sink)),
            standing(*final(sink)),
            emission(*final(sink), *final(state)),
            with_part(
                emission(*old(sink), *old(state)),
                volume_index as int,
                locator_bytes(codec, plan@, volume_index, cmra@, offsets@),
                "critical recovery locators",
            ),
            failure_of(r),
        ),
        r is Ok ==> emission(*final(sink), *final(state)).wf(plan.options.stripe_width),
        final(state).volume_headers == old(state).volume_headers,
        final(state).volume_format_rev == old(state).volume_format_rev,
{
    let layout: WireLayout = codec.layout();
    let base = CriticalRecoveryLocator {
        cmra_offset,
        cmra_length,
        volume_trailer_offset: trailer_offset,
        body_bytes_before_cmra: cmra_offset,
        archive_uuid_hint: plan.archive_uuid,
        session_id_hint: plan.session_id,
        volume_index_hint: volume_index,
        locator_sequence: 1,
        cmra_shard_size: cmra.shard_size,
        cmra_data_shard_count: cmra.data_shard_count,
        cmra_parity_shard_count: cmra.parity_shard_count,
        cmra_image_length: cmra.image_length,
        cmra_image_sha256: cmra.image_sha256,
        locator_crc32c: 0,
    };
    let volume: usize = volume_index as usize;
    let ghost e = emission(*sink, *state);
    let mirror: Vec<u8> = codec.encode(&Record::RecoveryLocator(base));
    sink.write_volume(volume, mirror.as_slice())?;
    let last: Vec<u8> = codec.encode(
        &Record::RecoveryLocator(CriticalRecoveryLocator { locator_sequence: 0, ..base }),
    );
    sink.write_volume(volume, last.as_slice())?;
    proof {
        let both = locator_bytes(codec, plan@, volume_index, cmra@, offsets@);
        assert(both == mirror@ + last@);
        assert(both.len() == 2 * layout.recovery_locator as nat);
        assert(sink.volumes() =~= e.volumes.update(
            volume as int,
            e.volumes[volume as int] + both,
        )) by {
            assert(e.volumes[volume as int] + mirror@ + last@ =~= e.volumes[volume as int] + both);
        }
    }
    let written: u64 = lift(
        checked_u64_add(
            state.bytes_written[volume],
            layout.recovery_locator as u64 * 2,
            "critical recovery locators",
        ),
    )?;
    state.bytes_written[volume] = written;
    Ok(())
}

/// Whether a state has the header of every volume.
pub open spec fn has_headers(state: WriterEmissionState, layout: WireLayout, stripe_width: u32) -> bool {
    &&& state.volume_headers@.len() == stripe_width
    &&& forall|i: int|
        0 <= i < stripe_width ==> (#[trigger] state.volume_headers@[i])@.len()
            == layout.volume_header
}

/// Writes the trailer of a volume and what follows it.
#[verifier::rlimit(40)]
fn emit_trailer<C: ArchiveCodec, O: ArchiveWriteSink>(
    codec: &C,
    plan: &WriterPlan,
    subkeys: &Subkeys,
    manifest: &Vec<u8>,
    footer: Option<&[u8]>,
    footer_length: Option<u32>,
    manifest_offset: u64,
    root_auth_offset: Option<u64>,
    caps: &ReaderCaps,
    volume_index: u32,
    sink: &mut O,
    state: &mut WriterEmissionState,
) -> (r: Result<(), ArchiveWriteError>)
    requires
        plan.wf(),
        emission(*old(sink), *old(state)).wf(plan.options.stripe_width),
        has_headers(*old(state), codec.spec_layout(), plan.options.stripe_width),
        volume_index < plan.options.stripe_width,
        manifest@.len() == codec.spec_layout().manifest_footer,
        footer is Some <==> footer_length is Some,
        footer is Some ==> footer->Some_0@.len() == footer_length->Some_0,
        footer is Some <==> root_auth_offset is Some,
    ensures
        writes(
            standing(*old(sink)),
            standing(*final(sink)),
            emission(*final(sink), *final(state)),
            with_trailer(
                codec,
                emission(*old(sink), *old(state)),
                plan@,
                *subkeys,
                old(state).volume_headers@[volume_index as int]@,
                manifest@,
                opt_bytes(footer),
                *caps,
                volume_index as int,
                manifest_offset,
                root_auth_offset,
            ),
            failure_of(r),
        ),
        r is Ok ==> emission(*final(sink), *final(state)).wf(plan.options.stripe_width),
        final(state).volume_headers == old(state).volume_headers,
        final(state).volume_format_rev == old(state).volume_format_rev,
{
    let volume: usize = volume_index as usize;
    let trailer_offset: u64 = state.bytes_written[volume];
    let block_count: u64 = state.record_counts[volume];
    let root_auth_footer: Option<(u64, u32)> = match (root_auth_offset, footer_length) {
        (Some(offset), Some(length)) => Some((offset, length)),
        _ => None,
    };
    let input = VolumeTrailerBuildInput {
        subkeys: *subkeys,
        aead_algo: plan.options.aead_algo,
        volume_format_rev: plan.volume_format_rev,
        archive_uuid: plan.archive_uuid,
        session_id: plan.session_id,
        volume_index,
        block_count,
        bytes_written: trailer_offset,
        manifest_footer_offset: manifest_offset,
        closed_at_ns: plan.options.closed_at_ns,
        root_auth_footer,
    };
    let ghost early = TailOffsets {
        manifest: manifest_offset,
        root_auth: root_auth_offset,
        trailer: trailer_offset,
        cmra: 0,
    };
    assert(input == trailer_input(
        plan@,
        *subkeys,
        volume_index,
        block_count,
        early,
        opt_bytes(footer),
    ));
    let trailer: Vec<u8> = lift(build_volume_trailer(codec, &input))?;
    write_part(
        sink,
        state,
        volume,
        trailer.as_slice(),
        "VolumeTrailer",
        plan.options.stripe_width,
    )?;
    let cmra_offset: u64 = state.bytes_written[volume];
    let ghost offsets = TailOffsets { cmra: cmra_offset, ..early };
    let table: Option<&[u8]> = match &plan.key_wrap_table {
        Some(table) => Some(table.as_slice()),
        None => None,
    };
    let build = CmraBuildInput {
        volume_format_rev: plan.volume_format_rev,
        volume_header_bytes: state.volume_headers[volume].as_slice(),
        crypto_header: plan.crypto_header.bytes.as_slice(),
        block_count,
        block_records_offset: plan.block_records_offset,
        manifest_footer_offset: manifest_offset,
        manifest_footer: manifest.as_slice(),
        root_auth_footer_offset: root_auth_offset,
        root_auth_footer: footer,
        key_wrap_table: table,
        trailer_offset,
        trailer: trailer.as_slice(),
        cmra_offset,
        options: plan.options,
        archive_uuid: plan.archive_uuid,
        session_id: plan.session_id,
        volume_index,
    };
    assert(build@ == cmra_input(
        plan@,
        volume_index,
        block_count,
        state.volume_headers@[volume as int]@,
        manifest@,
        opt_bytes(footer),
        trailer@,
        offsets,
    ));
    let cmra: BuiltCmra = lift(build_v45_cmra(codec, &build, caps.max_cmra_parity_pct))?;
    write_part(
        sink,
        state,
        volume,
        cmra.bytes.as_slice(),
        "CMRA",
        plan.options.stripe_width,
    )?;
    let cmra_length: u32 = lift(u32_len(cmra.bytes.len(), "CMRA"))?;
    write_locators(
        codec,
        plan,
        volume_index,
        &cmra,
        cmra_length,
        trailer_offset,
        cmra_offset,
        Ghost(offsets),
        sink,
        state,
    )
}

/// Writes the parts behind the blocks of a volume.
#[verifier::rlimit(40)]
pub fn emit_volume_tail<C: ArchiveCodec, O: ArchiveWriteSink>(
    codec: &C,
    plan: &WriterPlan,
    subkeys: &Subkeys,
    footer: Option<&[u8]>,
    footer_length: Option<u32>,
    caps: &ReaderCaps,
    volume_index: u32,
    sink: &mut O,
    state: &mut WriterEmissionState,
) -> (r: Result<(), ArchiveWriteError>)
    requires
        plan.wf(),
        emission(*old(sink), *old(state)).wf(plan.options.stripe_width),
        has_headers(*old(state), codec.spec_layout(), plan.options.stripe_width),
        volume_index < plan.options.stripe_width,
        footer is Some <==> footer_length is Some,
        footer is Some ==> footer->Some_0@.len() == footer_length->Some_0,
    ensures
        writes(
            standing(*old(sink)),
            standing(*final(sink)),
            emission(*final(sink), *final(state)),
            with_tail(
                codec,
                emission(*old(sink), *old(state)),
                plan@,
                *subkeys,
                old(state).volume_headers@[volume_index as int]@,
                opt_bytes(footer),
                *caps,
                volume_index as int,
            ),
            failure_of(r),
        ),
        r is Ok ==> emission(*final(sink), *final(state)).wf(plan.options.stripe_width),
        final(state).volume_headers == old(state).volume_headers,
        final(state).volume_format_rev == old(state).volume_format_rev,
{
    let stripe_width: u32 = plan.options.stripe_width;
    let volume: usize = volume_index as usize;
    let manifest_offset: u64 = state.bytes_written[volume];
    let manifest: Vec<u8> = lift(build_plan_manifest(codec, plan, subkeys, volume_index))?;
    write_part(sink, state, volume, manifest.as_slice(), "ManifestFooter", stripe_width)?;
    let mut root_auth_offset: Option<u64> = None;
    if let Some(bytes) = footer {
        root_auth_offset = Some(state.bytes_written[volume]);
        write_part(sink, state, volume, bytes, "RootAuthFooterV1", stripe_width)?;
    }
    emit_trailer(
        codec,
        plan,
        subkeys,
        &manifest,
        footer,
        footer_length,
        manifest_offset,
        root_auth_offset,
        caps,
        volume_index,
        sink,
        state,
    )
}

// ---------------------------------------------------------------------------------------------
// All volumes
// ---------------------------------------------------------------------------------------------

/// The contents of the volume headers of a state.
pub open spec fn header_values(state: WriterEmissionState) -> Seq<Seq<u8>> {
    crate::codec::contents_of(state.volume_headers@)
}

/// The first `count` volumes with all their parts.
pub open spec fn with_tails<C: ArchiveCodec>(
    codec: &C,
    e: Emission,
    plan: PlanValue,
    subkeys: Subkeys,
    headers: Seq<Seq<u8>>,
    footer: Option<Seq<u8>>,
    caps: ReaderCaps,
    count: nat,
) -> Result<Emission, FormatError>
    decreases count,
{
    if count == 0 {
        Ok(e)
    } else {
        match with_tails(codec, e, plan, subkeys, headers, footer, caps, (count - 1) as nat) {
            Err(f) => Err(f),
            Ok(before) => with_tail(
                codec,
                before,
                plan,
                subkeys,
                headers[count - 1],
                footer,
                caps,
                count - 1,
            ),
        }
    }
}

proof fn first_tail_error_stays<C: ArchiveCodec>(
    codec: &C,
    e: Emission,
    plan: PlanValue,
    subkeys: Subkeys,
    headers: Seq<Seq<u8>>,
    footer: Option<Seq<u8>>,
    caps: ReaderCaps,
    count: nat,
    total: nat,
)
    requires
        count <= total,
        with_tails(codec, e, plan, subkeys, headers, footer, caps, count) is Err,
    ensures
        with_tails(codec, e, plan, subkeys, headers, footer, caps, total) == with_tails(
            codec,
            e,
            plan,
            subkeys,
            headers,
            footer,
            caps,
            count,
        ),
    decreases total,
{
    if count < total {
        first_tail_error_stays(
            codec,
            e,
            plan,
            subkeys,
            headers,
            footer,
            caps,
            count,
            (total - 1) as nat,
        );
    }
}

/// Writes the parts behind the blocks of every volume.
#[verifier::loop_isolation(false)]
pub fn emit_volume_tails<C: ArchiveCodec, O: ArchiveWriteSink>(
    codec: &C,
    plan: &WriterPlan,
    subkeys: &Subkeys,
    footer: Option<&[u8]>,
    footer_length: Option<u32>,
    caps: &ReaderCaps,
    sink: &mut O,
    state: &mut WriterEmissionState,
) -> (r: Result<(), ArchiveWriteError>)
    requires
        plan.wf(),
        emission(*old(sink), *old(state)).wf(plan.options.stripe_width),
        has_headers(*old(state), codec.spec_layout(), plan.options.stripe_width),
        footer is Some <==> footer_length is Some,
        footer is Some ==> footer->Some_0@.len() == footer_length->Some_0,
    ensures
        writes(
            standing(*old(sink)),
            standing(*final(sink)),
            emission(*final(sink), *final(state)),
            with_tails(
                codec,
                emission(*old(sink), *old(state)),
                plan@,
                *subkeys,
                header_values(*old(state)),
                opt_bytes(footer),
                *caps,
                plan.options.stripe_width as nat,
            ),
            failure_of(r),
        ),
        r is Ok ==> emission(*final(sink), *final(state)).wf(plan.options.stripe_width),
        final(state).volume_headers == old(state).volume_headers,
        final(state).volume_format_rev == old(state).volume_format_rev,
{
    let ghost start = emission(*sink, *state);
    let ghost headers = header_values(*state);
    let ghost foot = opt_bytes(footer);
    let ghost began = standing(*sink);
    let ghost kept = state.volume_headers;
    let ghost rev = state.volume_format_rev;
    let stripe_width: u32 = plan.options.stripe_width;
    let mut i: u32 = 0;
    while i < stripe_width
        invariant
            i <= stripe_width,
            with_tails(codec, start, plan@, *subkeys, headers, foot, *caps, i as nat) == Ok::<
                Emission,
                FormatError,
            >(emission(*sink, *state)),
            emission(*sink, *state).wf(stripe_width),
            began.goes_on(standing(*sink)),
            state.volume_headers == kept,
            state.volume_format_rev == rev,
        decreases stripe_width - i,
    {
        proof {
            assert(headers[i as int] == kept@[i as int]@);
            if with_tails(
                codec,
                start,
                plan@,
                *subkeys,
                headers,
                foot,
                *caps,
                (i + 1) as nat,
            ) is Err {
                first_tail_error_stays(
                    codec,
                    start,
                    plan@,
                    *subkeys,
                    headers,
                    foot,
                    *caps,
                    (i + 1) as nat,
                    stripe_width as nat,
                );
            }
        }
        emit_volume_tail(codec, plan, subkeys, footer, footer_length, caps, i, sink, state)?;
        i = i + 1;
    }
    Ok(())
}

// ---------------------------------------------------------------------------------------------
// The whole end of an archive
// ---------------------------------------------------------------------------------------------

/// What became of an archive.
#[derive(Debug, Clone, Copy, PartialEq, Eq)]
pub struct WrittenArchiveSummary {
    pub volume_count: usize,
    pub archive_bytes: u64,
    pub bootstrap_sidecar_bytes: u64,
    pub archive_uuid: [u8; 16],
    pub session_id: [u8; 16],
    pub timings: WriterTimings,
}

/// Bytes of the first `count` volumes, as far as a number of 64 bits can tell.
pub open spec fn written_total(bytes_written: Seq<u64>, count: nat) -> u64
    decreases count,
{
    if count == 0 {
        0
    } else {
        ((written_total(bytes_written, (count - 1) as nat) + bytes_written[count - 1])
            % 0x1_0000_0000_0000_0000) as u64
    }
}

/// Adds up the bytes of all volumes.
pub fn sum_written(bytes_written: &Vec<u64>) -> (r: u64)
    ensures
        r == written_total(bytes_written@, bytes_written@.len()),
{
    let mut total: u64 = 0;
    let mut i: usize = 0;
    while i < bytes_written.len()
        invariant
            i <= bytes_written@.len(),
            total == written_total(bytes_written@, i as nat),
        decreases bytes_written.len() - i,
    {
        total = total.wrapping_add(bytes_written[i]);
        i = i + 1;
    }
    total
}

/// What a signer's footer is made from.
pub open spec fn root_auth_input(
    plan: PlanValue,
    manifest: Seq<u8>,
    leaves: Seq<DataLeaf>,
) -> RootAuthInputValue {
    RootAuthInputValue {
        archive_uuid: plan.archive_uuid,
        session_id: plan.session_id,
        volume_format_rev: plan.volume_format_rev,
        options: plan.options,
        crypto_header: plan.crypto_header,
        volume_zero_manifest: manifest,
        index_root_plaintext: plan.index_root_plaintext,
        index_root_extent: plan.index_root_extent,
        dictionary_extent: plan.dictionary_extent,
        shard_entries: plan.shard_entries,
        payload_objects: plan.objects,
        directory_hint_entries: plan.directory_hint_entries,
        data_leaf_hashes: leaves,
    }
}

/// The root-authentication footer of an archive, or why there is none.
pub type FooterAnswer = Result<Option<Seq<u8>>, FormatError>;

/// Whether a signer can have answered so. Nobody is asked where nothing is to be signed.
pub open spec fn footer_answers<
    C: ArchiveCodec,
    F: FnOnce(&RootAuthSigningRequest) -> Result<Vec<u8>, FormatError>,
>(
    codec: &C,
    root_auth: Option<RootAuthWriterConfig>,
    authenticator: Option<F>,
    plan: PlanValue,
    manifest: Seq<u8>,
    leaves: Option<Seq<DataLeaf>>,
    caps: ReaderCaps,
    answer: FooterAnswer,
) -> bool {
    match root_auth {
        None => answer == Ok::<Option<Seq<u8>>, FormatError>(None),
        Some(config) => match (authenticator, leaves) {
            (None, _) => answer == Err::<Option<Seq<u8>>, FormatError>(
                FormatError::WriterInvariant("missing root-auth authenticator"),
            ),
            (Some(_), None) => answer == Err::<Option<Seq<u8>>, FormatError>(
                FormatError::WriterInvariant("missing root-auth data leaf hashes"),
            ),
            (Some(signer), Some(list)) => match answer {
                Ok(Some(footer)) => footer_is_signed(
                    codec,
                    config,
                    signer,
                    root_auth_input(plan, manifest, list),
                    caps,
                    Ok(footer),
                ),
                Ok(None) => false,
                Err(e) => footer_is_signed(
                    codec,
                    config,
                    signer,
                    root_auth_input(plan, manifest, list),
                    caps,
                    Err(e),
                ),
            },
        },
    }
}

/// A closed archive.
pub struct ClosedArchive {
    pub emission: Emission,
    pub sidecar_bytes: u64,
}

/// An archive of one volume gets a sidecar.
pub open spec fn with_sidecar<C: ArchiveCodec>(
    codec: &C,
    e: Emission,
    plan: PlanValue,
    subkeys: Subkeys,
    manifest: Seq<u8>,
    body: BodyValue,
) -> Result<ClosedArchive, FormatError> {
    if plan.options.stripe_width != 1 {
        Ok(ClosedArchive { emission: e, sidecar_bytes: 0 })
    } else {
        match sidecar_outcome(
            codec,
            subkeys,
            plan.options.aead_algo,
            plan.volume_format_rev,
            plan.archive_uuid,
            plan.session_id,
            manifest,
            body.index_root,
            body.dictionary,
        ) {
            Err(f) => Err(f),
            Ok(bytes) => Ok(
                ClosedArchive {
                    emission: Emission { sidecar: e.sidecar + bytes, ..e },
                    sidecar_bytes: bytes.len() as u64,
                },
            ),
        }
    }
}

/// The archive after its body, closed with what the signer answered.
pub open spec fn closed_outcome<C: ArchiveCodec>(
    codec: &C,
    body: BodyValue,
    plan: PlanValue,
    subkeys: Subkeys,
    headers: Seq<Seq<u8>>,
    caps: ReaderCaps,
    manifest: Seq<u8>,
    answer: FooterAnswer,
) -> Result<ClosedArchive, FormatError> {
    match answer {
        Err(f) => Err(f),
        Ok(footer) => if footer matches Some(bytes) && bytes.len() > u32::MAX {
            Err(FormatError::WriterUnsupported("RootAuthFooterV1"))
        } else {
            match with_tails(
                codec,
                body.emission,
                plan,
                subkeys,
                headers,
                footer,
                caps,
                plan.options.stripe_width as nat,
            ) {
                Err(f) => Err(f),
                Ok(e) => with_sidecar(codec, e, plan, subkeys, manifest, body),
            }
        },
    }
}

/// How far writing the end of an archive comes, given what the signer answers.
pub open spec fn suffix_outcome<C: ArchiveCodec>(
    codec: &C,
    e: Emission,
    plan: PlanValue,
    subkeys: Subkeys,
    headers: Seq<Seq<u8>>,
    rev: u16,
    caps: ReaderCaps,
    answer: FooterAnswer,
) -> Result<ClosedArchive, FormatError> {
    let seal = ArchiveSeal {
        subkeys,
        archive_uuid: plan.archive_uuid,
        session_id: plan.session_id,
    };
    match body_outcome(codec, e, plan, seal, rev) {
        Err(f) => Err(f),
        Ok(body) => match plan_manifest(codec, plan, subkeys, 0) {
            Err(f) => Err(f),
            Ok(manifest) => closed_outcome(
                codec,
                body,
                plan,
                subkeys,
                headers,
                caps,
                manifest,
                answer,
            ),
        },
    }
}

/// Whether a signer can have answered so, if it came to that.
pub open spec fn suffix_answers<
    C: ArchiveCodec,
    F: FnOnce(&RootAuthSigningRequest) -> Result<Vec<u8>, FormatError>,
>(
    codec: &C,
    e: Emission,
    plan: PlanValue,
    subkeys: Subkeys,
    rev: u16,
    root_auth: Option<RootAuthWriterConfig>,
    authenticator: Option<F>,
    caps: ReaderCaps,
    answer: FooterAnswer,
) -> bool {
    let seal = ArchiveSeal {
        subkeys,
        archive_uuid: plan.archive_uuid,
        session_id: plan.session_id,
    };
    match (body_outcome(codec, e, plan, seal, rev), plan_manifest(codec, plan, subkeys, 0)) {
        (Ok(body), Ok(manifest)) => footer_answers(
            codec,
            root_auth,
            authenticator,
            plan,
            manifest,
            body.emission.leaves,
            caps,
            answer,
        ),
        _ => true,
    }
}

/// The archive in the making that a closed one is.
pub open spec fn closed_emission(r: Result<ClosedArchive, FormatError>) -> Result<
    Emission,
    FormatError,
> {
    match r {
        Ok(closed) => Ok(closed.emission),
        Err(e) => Err(e),
    }
}

/// Whether a summary tells of a closed archive.
pub open spec fn summarizes(
    summary: WrittenArchiveSummary,
    closed: ClosedArchive,
    stripe_width: u32,
    archive_uuid: [u8; 16],
    session_id: [u8; 16],
) -> bool {
    &&& summary.volume_count == stripe_width
    &&& summary.archive_bytes == written_total(
        closed.emission.bytes_written,
        closed.emission.bytes_written.len(),
    )
    &&& summary.bootstrap_sidecar_bytes == closed.sidecar_bytes
    &&& summary.archive_uuid == archive_uuid
    &&& summary.session_id == session_id
}

pub open spec fn footer_value(r: Result<Option<Vec<u8>>, FormatError>) -> FooterAnswer {
    match r {
        Ok(footer) => Ok(crate::key_wrap::opt_vec(footer)),
        Err(e) => Err(e),
    }
}

fn sign_plan<
    C: ArchiveCodec,
    F: FnOnce(&RootAuthSigningRequest) -> Result<Vec<u8>, FormatError>,
>(
    codec: &C,
    root_auth: Option<RootAuthWriterConfig<'_>>,
    authenticator: Option<F>,
    plan: &WriterPlan,
    manifest: &Vec<u8>,
    leaves: &Option<Vec<DataLeaf>>,
    caps: &ReaderCaps,
) -> (r: Result<Option<Vec<u8>>, FormatError>)
    requires
        plan.wf(),
        manifest@.len() >= crate::codec::MANIFEST_FOOTER_COVERED,
        authenticator matches Some(signer) ==> always_answers(signer),
    ensures
        footer_answers(
            codec,
            root_auth,
            authenticator,
            plan@,
            manifest@,
            opt_leaves(*leaves),
            *caps,
            footer_value(r),
        ),
{
    let config: RootAuthWriterConfig<'_> = match root_auth {
        Some(config) => config,
        None => {
            return Ok(None);
        },
    };
    let signer: F = match authenticator {
        Some(signer) => signer,
        None => {
            return Err(FormatError::WriterInvariant("missing root-auth authenticator"));
        },
    };
    match leaves {
        None => Err(FormatError::WriterInvariant("missing root-auth data leaf hashes")),
        Some(list) => {
            let input = RootAuthFooterBuildInput {
                archive_uuid: plan.archive_uuid,
                session_id: plan.session_id,
                volume_format_rev: plan.volume_format_rev,
                options: plan.options,
                crypto_header: &plan.crypto_header,
                volume_zero_manifest: manifest.as_slice(),
                index_root_plaintext: plan.index_root_plaintext.as_slice(),
                index_root_extent: plan.index_root_extent,
                dictionary_extent: plan.dictionary_extent,
                shard_entries: &plan.shard_entries,
                payload_objects: &plan.payload_objects,
                directory_hint_entries: &plan.directory_hint_entries,
                data_leaf_hashes: list,
            };
            assert(input@ == root_auth_input(plan@, manifest@, list@));
            let footer: Result<Vec<u8>, FormatError> = build_root_auth_footer_from_leaf_hashes(
                codec,
                &config,
                signer,
                &input,
                caps,
            );
            match footer {
                Ok(bytes) => Ok(Some(bytes)),
                Err(e) => Err(e),
            }
        },
    }
}

/// Writes the metadata objects of a plan and closes every volume.
#[verifier::rlimit(60)]
pub fn emit_writer_plan_suffix<
    C: ArchiveCodec,
    O: ArchiveWriteSink,
    F: FnOnce(&RootAuthSigningRequest) -> Result<Vec<u8>, FormatError>,
>(
    codec: &C,
    subkeys: &Subkeys,
    root_auth: Option<RootAuthWriterConfig<'_>>,
    authenticator: Option<F>,
    plan: &WriterPlan,
    caps: &ReaderCaps,
    sink: &mut O,
    state: &mut WriterEmissionState,
) -> (r: Result<WrittenArchiveSummary, ArchiveWriteError>)
    requires
        plan.wf(),
        plan.options.block_size > 0,
        emission(*old(sink), *old(state)).wf(plan.options.stripe_width),
        has_headers(*old(state), codec.spec_layout(), plan.options.stripe_width),
        authenticator matches Some(signer) ==> always_answers(signer),
    ensures
        standing(*old(sink)).hands_on(standing(*final(sink)), failure_of(r)),
        standing(*old(sink)).undisturbed(standing(*final(sink))) || r is Ok ==> exists|
            answer: FooterAnswer,
        | #[trigger]
            suffix_answers(
                codec,
                emission(*old(sink), *old(state)),
                plan@,
                *subkeys,
                old(state).volume_format_rev,
                root_auth,
                authenticator,
                *caps,
                answer,
            ) && closes(
                standing(*old(sink)),
                standing(*final(sink)),
                emission(*final(sink), *final(state)),
                suffix_outcome(
                    codec,
                    emission(*old(sink), *old(state)),
                    plan@,
                    *subkeys,
                    header_values(*old(state)),
                    old(state).volume_format_rev,
                    *caps,
                    answer,
                ),
                plan@,
                r,
            ),
{
    let emit_metadata_started = now();
    let ghost start = emission(*sink, *state);
    let ghost rev = state.volume_format_rev;
    let ghost headers = header_values(*state);
    let layout: WireLayout = codec.layout();
    let stripe_width: u32 = plan.options.stripe_width;
    let seal = ArchiveSeal {
        subkeys: *subkeys,
        archive_uuid: plan.archive_uuid,
        session_id: plan.session_id,
    };
    let ghost nobody: FooterAnswer = Ok(None);
    let emitted: Result<BodyRecords, ArchiveWriteError> = emit_plan_body(
        codec,
        plan,
        &seal,
        sink,
        state,
    );
    let records: BodyRecords = match emitted {
        Ok(records) => records,
        Err(error) => {
            assert(standing(*old(sink)).undisturbed(standing(*sink)) ==> suffix_answers(
                codec,
                start,
                plan@,
                *subkeys,
                rev,
                root_auth,
                authenticator,
                *caps,
                nobody,
            ));
            return Err(error);
        },
    };
    let ghost body = body_outcome(codec, start, plan@, seal, rev)->Ok_0;
    let built: Result<Vec<u8>, FormatError> = build_plan_manifest(codec, plan, subkeys, 0);
    let manifest: Vec<u8> = match built {
        Ok(manifest) => manifest,
        Err(e) => {
            assert(suffix_answers(
                codec,
                start,
                plan@,
                *subkeys,
                rev,
                root_auth,
                authenticator,
                *caps,
                nobody,
            ));
            return Err(ArchiveWriteError::Format(e));
        },
    };
    let signed: Result<Option<Vec<u8>>, FormatError> = sign_plan(
        codec,
        root_auth,
        authenticator,
        plan,
        &manifest,
        &state.data_leaf_hashes,
        caps,
    );
    let ghost answer: FooterAnswer = footer_value(signed);
    assert(suffix_answers(
        codec,
        start,
        plan@,
        *subkeys,
        rev,
        root_auth,
        authenticator,
        *caps,
        answer,
    ));
    let footer: Option<Vec<u8>> = lift(signed)?;
    let footer_length: Option<u32> = match &footer {
        Some(bytes) => Some(lift(u32_len(bytes.len(), "RootAuthFooterV1"))?),
        None => None,
    };
    let footer_bytes: Option<&[u8]> = match &footer {
        Some(bytes) => Some(bytes.as_slice()),
        None => None,
    };
    emit_volume_tails(
        codec,
        plan,
        subkeys,
        footer_bytes,
        footer_length,
        caps,
        sink,
        state,
    )?;
    let bootstrap_sidecar_bytes: u64 = if stripe_width == 1 {
        let dictionary: Option<&Vec<BlockRecord>> = match &records.dictionary {
            Some(list) => Some(list),
            None => None,
        };
        let sidecar: Vec<u8> = lift(
            build_bootstrap_sidecar(
                codec,
                subkeys,
                plan.options.aead_algo,
                plan.volume_format_rev,
                plan.archive_uuid,
                plan.session_id,
                manifest.as_slice(),
                &records.index_root,
                dictionary,
            ),
        )?;
        sink.write_bootstrap_sidecar(sidecar.as_slice())?;
        sidecar.len() as u64
    } else {
        0
    };
    let archive_bytes: u64 = sum_written(&state.bytes_written);
    Ok(
        WrittenArchiveSummary {
            volume_count: stripe_width as usize,
            archive_bytes,
            bootstrap_sidecar_bytes,
            archive_uuid: plan.archive_uuid,
            session_id: plan.session_id,
            timings: WriterTimings {
                total: 0,
                plan_payload: 0,
                plan_metadata: 0,
                emit_payload: 0,
                emit_metadata: nanos_since(&emit_metadata_started),
            },
        },
    )
}

/// Whether closing an archive went as `outcome` says.
pub open spec fn closes(
    before: Standing,
    now: Standing,
    after: Emission,
    outcome: Result<ClosedArchive, FormatError>,
    plan: PlanValue,
    r: Result<WrittenArchiveSummary, ArchiveWriteError>,
) -> bool {
    &&& writes(
        before,
        now,
        after,
        closed_emission(outcome),
        failure_of(r),
    )
    &&& r matches Ok(summary) ==> (outcome matches Ok(closed) && summarizes(
        summary,
        closed,
        plan.options.stripe_width,
        plan.archive_uuid,
        plan.session_id,
    ))
}

} // verus!
