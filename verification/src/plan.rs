//! The plan of an archive: everything that is decided before its last blocks are written.
use crate::arith::fit_u64;
use crate::codec::{ArchiveCodec, WireLayout};
use crate::errors::FormatError;
use crate::format::AeadAlgo;
use crate::headers::{build_crypto_header, crypto_header_outcome, CryptoHeader, CryptoHeaderValue};
use crate::hints::{
    build_directory_hint_plaintexts, hint_shard_values, hint_shards_agree, hint_shards_from,
    hint_values, hints_of_groups, is_hint_index, should_emit_directory_hints,
    DIRECTORY_HINT_REQUIRED_FILE_COUNT, HintRow, HintShardValue, HintValue,
    PlannedDirectoryHintShard,
};
use crate::index_plan::{
    build_index_root_plaintext, index_root_value, object_values, place_dictionary,
    place_directory_hints, place_index_shards, placed_dictionary, placed_hints, placed_shards,
    DictionaryValue, HintsValue, IndexRootPlaintextInput, MetadataObjectValue, PayloadCounts,
    PlannedMetadataObject, ShardsValue,
};
use crate::key_wrap::opt_vec;
use crate::keys::{KdfParams, KdfValue, MasterKey, Subkeys};
use crate::object_plan::{
    metadata_class_outcome, plan_index_root_metadata_class, MetadataClassPlan, ObjectExtent,
};
use crate::options::{opt_bytes, ReaderCaps, WriterOptions};
use crate::profile::MetadataProfile;
use crate::root_auth::{
    footer_length_outcome, root_auth_footer_wire_length, PayloadObject, RootAuthWriterConfig,
};
use crate::rows::{
    is_sorted_index, members_wf, partition_file_rows, partition_outcome, row_values,
    rows_name_members, shard_row_values, shards_lie_in_the_rows, sorted_file_rows,
    tar_member_values, FileRow, MemberValue, RowValue, TarMember,
};
use crate::shard::{
    build_index_shard_plaintexts, groups_name_members, index_shard_values, shards_for_groups,
    PayloadFrame, PlannedIndexShard,
};
use crate::wire::{DirectoryHintShardEntry, ShardEntry};
use vstd::prelude::*;

verus! {

/// The payload of an archive once it is planned.
pub struct PayloadPlanning {
    pub tar_members: Vec<TarMember>,
    pub frames: Vec<PayloadFrame>,
    pub payload_objects: Vec<PayloadObject>,
    pub payload_block_count: u64,
    pub tar_total_size: u64,
    pub content_sha256: [u8; 32],
}

/// The same by content.
pub struct PayloadValue {
    pub members: Seq<MemberValue>,
    pub frames: Seq<PayloadFrame>,
    pub objects: Seq<PayloadObject>,
    pub block_count: u64,
    pub tar_total: u64,
    pub content_sha256: [u8; 32],
}

impl View for PayloadPlanning {
    type V = PayloadValue;

    open spec fn view(&self) -> PayloadValue {
        PayloadValue {
            members: tar_member_values(self.tar_members@),
            frames: self.frames@,
            objects: self.payload_objects@,
            block_count: self.payload_block_count,
            tar_total: self.tar_total_size,
            content_sha256: self.content_sha256,
        }
    }
}

// ---------------------------------------------------------------------------------------------
// Metadata
// ---------------------------------------------------------------------------------------------

/// The rows of each index shard.
pub open spec fn index_groups(members: Seq<MemberValue>, rows: Seq<RowValue>) -> Result<
    Seq<Seq<RowValue>>,
    FormatError,
> {
    if members.len() == 0 {
        Ok(Seq::empty())
    } else {
        partition_outcome(rows)
    }
}

pub open spec fn wants_hints(members: Seq<MemberValue>) -> bool {
    members.len() > DIRECTORY_HINT_REQUIRED_FILE_COUNT
}

/// The directory-hint shards of an archive.
pub open spec fn hint_shards<C: ArchiveCodec>(
    codec: &C,
    members: Seq<MemberValue>,
    groups: Seq<Seq<RowValue>>,
    hints: Seq<HintValue>,
    o: WriterOptions,
) -> Result<Seq<HintShardValue>, FormatError> {
    if !wants_hints(members) {
        Ok(Seq::empty())
    } else if groups.len() > u32::MAX + 1 {
        Err(FormatError::WriterUnsupported("directory hint shard row index"))
    } else {
        hint_shards_from(codec, 0, hints, o)
    }
}

/// The metadata objects in front of the directory hints.
pub struct FrontValue {
    pub groups: Seq<Seq<RowValue>>,
    pub shards: ShardsValue,
    pub dictionary: DictionaryValue,
}

pub open spec fn front_plan<C: ArchiveCodec + MetadataProfile>(
    codec: &C,
    payload: PayloadValue,
    next: u64,
    o: WriterOptions,
    dictionary: Option<Seq<u8>>,
    rows: Seq<RowValue>,
) -> Result<FrontValue, FormatError> {
    match index_groups(payload.members, rows) {
        Err(e) => Err(e),
        Ok(groups) => match shards_for_groups(
            codec,
            payload.members,
            groups,
            groups.len(),
            payload.frames,
            payload.objects,
            o,
        ) {
            Err(e) => Err(e),
            Ok(shards) => match placed_shards(codec, shards, o, next, shards.len()) {
                Err(e) => Err(e),
                Ok(placed) => match placed_dictionary(codec, dictionary, o, placed.next) {
                    Err(e) => Err(e),
                    Ok(dict) => Ok(FrontValue { groups, shards: placed, dictionary: dict }),
                },
            },
        },
    }
}

/// The metadata objects of an archive in front of its index root.
pub struct MetadataValue {
    pub front: FrontValue,
    pub hints: HintsValue,
}

pub open spec fn metadata_plan<C: ArchiveCodec + MetadataProfile>(
    codec: &C,
    payload: PayloadValue,
    next: u64,
    o: WriterOptions,
    dictionary: Option<Seq<u8>>,
    rows: Seq<RowValue>,
    hints: Seq<HintValue>,
) -> Result<MetadataValue, FormatError> {
    match front_plan(codec, payload, next, o, dictionary, rows) {
        Err(e) => Err(e),
        Ok(front) => match hint_shards(codec, payload.members, front.groups, hints, o) {
            Err(e) => Err(e),
            Ok(list) => match placed_hints(codec, list, o, front.dictionary.next, list.len()) {
                Err(e) => Err(e),
                Ok(placed) => Ok(MetadataValue { front, hints: placed }),
            },
        },
    }
}

/// Whether `rows` are the members in index order and, where the plan comes to directory hints,
/// `hints` their directories.
pub open spec fn is_index_order<C: ArchiveCodec + MetadataProfile>(
    codec: &C,
    payload: PayloadValue,
    next: u64,
    o: WriterOptions,
    dictionary: Option<Seq<u8>>,
    rows: Seq<FileRow>,
    hints: Seq<HintRow>,
) -> bool {
    &&& is_sorted_index(codec, payload.members, rows)
    &&& match front_plan(codec, payload, next, o, dictionary, row_values(rows)) {
        Ok(front) => wants_hints(payload.members) && front.groups.len() <= u32::MAX + 1
            ==> is_hint_index(
            codec,
            hints_of_groups(front.groups, front.groups.len()),
            hints,
        ),
        Err(_) => true,
    }
}

/// Metadata objects that are compressed and placed.
pub struct MetadataPlan {
    pub index_shard_objects: Vec<PlannedMetadataObject>,
    pub shard_entries: Vec<ShardEntry>,
    pub compressed_dictionary: Option<Vec<u8>>,
    pub dictionary_extent: Option<(ObjectExtent, u32)>,
    pub directory_hint_objects: Vec<PlannedMetadataObject>,
    pub directory_hint_entries: Vec<DirectoryHintShardEntry>,
    pub next_block_index: u64,
}

/// Whether `p` is the plan `v`.
pub open spec fn metadata_agrees(p: MetadataPlan, v: MetadataValue) -> bool {
    &&& object_values(p.index_shard_objects@) == v.front.shards.objects
    &&& p.shard_entries@ == v.front.shards.entries
    &&& opt_vec(p.compressed_dictionary) == v.front.dictionary.compressed
    &&& p.dictionary_extent == v.front.dictionary.extent
    &&& object_values(p.directory_hint_objects@) == v.hints.objects
    &&& p.directory_hint_entries@ == v.hints.entries
    &&& p.next_block_index == v.hints.next
}

/// Rows of a part of all rows name members as those do.
proof fn parts_name_members(
    rows: Seq<RowValue>,
    group: Seq<FileRow>,
    low: int,
    high: int,
    member_count: int,
)
    requires
        0 <= low <= high <= rows.len(),
        row_values(group) == rows.subrange(low, high),
        forall|i: int| 0 <= i < rows.len() ==> (#[trigger] rows[i]).member_index < member_count,
    ensures
        forall|i: int| 0 <= i < group.len() ==> (#[trigger] group[i]).member_index < member_count,
{
    let part = row_values(group);
    assert(part.len() == group.len());
    assert forall|i: int| 0 <= i < group.len() implies (#[trigger] group[i]).member_index
        < member_count by {
        assert(part[i] == group[i]@);
        assert(part[i] == rows[low + i]);
    }
}

proof fn groups_hold_rows(members: Seq<MemberValue>, rows: Seq<RowValue>, groups: Seq<Vec<FileRow>>)
    requires
        index_groups(members, rows) == Ok::<Seq<Seq<RowValue>>, FormatError>(
            shard_row_values(groups),
        ),
        forall|i: int| 0 <= i < rows.len() ==> (#[trigger] rows[i]).member_index < members.len(),
    ensures
        groups_name_members(groups, members.len() as int),
{
    let parts = shard_row_values(groups);
    assert(parts.len() == groups.len());
    if members.len() > 0 {
        shards_lie_in_the_rows(rows, 0);
        let ranges = crate::rows::shard_ranges(rows, 0)->Ok_0;
        assert(parts == crate::rows::shared_rows(rows, ranges));
        assert forall|g: int, i: int|
            0 <= g < groups.len() && 0 <= i < (#[trigger] groups[g])@.len() implies (
        #[trigger] groups[g]@[i]).member_index < members.len() by {
            assert(parts[g] == row_values(groups[g]@));
            assert(parts[g] == rows.subrange(ranges[g].0, ranges[g].1));
            parts_name_members(
                rows,
                groups[g]@,
                ranges[g].0,
                ranges[g].1,
                members.len() as int,
            );
        }
    }
}

/// Index shards and dictionary, compressed and placed.
struct FrontPlan {
    groups: Vec<Vec<FileRow>>,
    index_shard_objects: Vec<PlannedMetadataObject>,
    shard_entries: Vec<ShardEntry>,
    compressed_dictionary: Option<Vec<u8>>,
    dictionary_extent: Option<(ObjectExtent, u32)>,
    next_block_index: u64,
}

fn plan_front<C: ArchiveCodec + MetadataProfile>(
    codec: &C,
    payload: &PayloadPlanning,
    rows: &Vec<FileRow>,
    next_block_index: u64,
    options: WriterOptions,
    dictionary: Option<&[u8]>,
) -> (r: Result<FrontPlan, FormatError>)
    requires
        options.block_size > 0,
        members_wf(payload.tar_members@),
        rows_name_members(codec, payload@.members, row_values(rows@)),
    ensures
        match (
            r,
            front_plan(
                codec,
                payload@,
                next_block_index,
                options,
                opt_bytes(dictionary),
                row_values(rows@),
            ),
        ) {
            (Ok(plan), Ok(value)) => {
                &&& shard_row_values(plan.groups@) == value.groups
                &&& object_values(plan.index_shard_objects@) == value.shards.objects
                &&& plan.shard_entries@ == value.shards.entries
                &&& opt_vec(plan.compressed_dictionary) == value.dictionary.compressed
                &&& plan.dictionary_extent == value.dictionary.extent
                &&& plan.next_block_index == value.dictionary.next
            },
            (Err(e), Err(f)) => e == f,
            _ => false,
        },
{
    let groups: Vec<Vec<FileRow>> = if payload.tar_members.len() == 0 {
        let none: Vec<Vec<FileRow>> = Vec::new();
        assert(shard_row_values(none@) =~= Seq::empty());
        none
    } else {
        partition_file_rows(rows)?
    };
    proof {
        assert(shard_row_values(groups@).len() == groups@.len());
        groups_hold_rows(payload@.members, row_values(rows@), groups@);
    }
    let planned_shards: Vec<PlannedIndexShard> = build_index_shard_plaintexts(
        codec,
        &payload.tar_members,
        &groups,
        &payload.frames,
        &payload.payload_objects,
        options,
    )?;
    assert(index_shard_values(planned_shards@).len() == planned_shards@.len());
    let (index_shard_objects, shard_entries, next) = place_index_shards(
        codec,
        &planned_shards,
        options,
        next_block_index,
    )?;
    let (compressed_dictionary, dictionary_extent, after_dictionary) = place_dictionary(
        codec,
        dictionary,
        options,
        next,
    )?;
    Ok(
        FrontPlan {
            groups,
            index_shard_objects,
            shard_entries,
            compressed_dictionary,
            dictionary_extent,
            next_block_index: after_dictionary,
        },
    )
}

/// Plans the metadata objects in front of the index root.
pub fn plan_metadata<C: ArchiveCodec + MetadataProfile>(
    codec: &C,
    payload: &PayloadPlanning,
    next_block_index: u64,
    options: WriterOptions,
    dictionary: Option<&[u8]>,
) -> (r: Result<MetadataPlan, FormatError>)
    requires
        options.block_size > 0,
        members_wf(payload.tar_members@),
    ensures
        exists|rows: Seq<FileRow>, hints: Seq<HintRow>| #[trigger]
            is_index_order(
                codec,
                payload@,
                next_block_index,
                options,
                opt_bytes(dictionary),
                rows,
                hints,
            ) && match (
                r,
                metadata_plan(
                    codec,
                    payload@,
                    next_block_index,
                    options,
                    opt_bytes(dictionary),
                    row_values(rows),
                    hint_values(hints),
                ),
            ) {
                (Ok(plan), Ok(value)) => metadata_agrees(plan, value),
                (Err(e), Err(f)) => e == f,
                _ => false,
            },
{
    let ghost dict = opt_bytes(dictionary);
    let rows: Vec<FileRow> = sorted_file_rows(codec, &payload.tar_members);
    let ghost mut hint_rows: Seq<HintRow> = Seq::empty();
    let planned: Result<FrontPlan, FormatError> = plan_front(
        codec,
        payload,
        &rows,
        next_block_index,
        options,
        dictionary,
    );
    let front: FrontPlan = match planned {
        Ok(front) => front,
        Err(e) => {
            assert(is_index_order(
                codec,
                payload@,
                next_block_index,
                options,
                dict,
                rows@,
                hint_rows,
            ));
            return Err(e);
        },
    };
    let built: Result<Vec<PlannedDirectoryHintShard>, FormatError> = if should_emit_directory_hints(
        payload.tar_members.len(),
    ) {
        let built: Result<Vec<PlannedDirectoryHintShard>, FormatError> =
            build_directory_hint_plaintexts(codec, &front.groups, options);
        proof {
            let parts = shard_row_values(front.groups@);
            assert(parts.len() == front.groups@.len());
            if parts.len() <= u32::MAX + 1 {
                hint_rows = choose|h: Seq<HintRow>| #[trigger]
                    is_hint_index(codec, hints_of_groups(parts, parts.len()), h)
                        && hint_shards_agree(
                        built,
                        hint_shards_from(codec, 0, hint_values(h), options),
                    );
            }
        }
        built
    } else {
        let none: Vec<PlannedDirectoryHintShard> = Vec::new();
        assert(hint_shard_values(none@) =~= Seq::empty());
        Ok(none)
    };
    assert(is_index_order(codec, payload@, next_block_index, options, dict, rows@, hint_rows));
    let planned_hints: Vec<PlannedDirectoryHintShard> = built?;
    assert(hint_shard_values(planned_hints@).len() == planned_hints@.len());
    let (directory_hint_objects, directory_hint_entries, next_block_index) = place_directory_hints(
        codec,
        &planned_hints,
        options,
        front.next_block_index,
    )?;
    Ok(
        MetadataPlan {
            index_shard_objects: front.index_shard_objects,
            shard_entries: front.shard_entries,
            compressed_dictionary: front.compressed_dictionary,
            dictionary_extent: front.dictionary_extent,
            directory_hint_objects,
            directory_hint_entries,
            next_block_index,
        },
    )
}

// ---------------------------------------------------------------------------------------------
// The plan
// ---------------------------------------------------------------------------------------------

/// The keys of an archive, or stand-ins where nothing is sealed.
pub open spec fn subkeys_outcome<C: ArchiveCodec>(
    codec: &C,
    master_key: MasterKey,
    aead_algo: AeadAlgo,
    archive_uuid: [u8; 16],
    session_id: [u8; 16],
) -> Result<Subkeys, FormatError> {
    if aead_algo == AeadAlgo::Unsealed {
        Ok(Subkeys::spec_placeholder())
    } else {
        codec.derived_subkeys(master_key, archive_uuid, session_id)
    }
}

pub fn writer_subkeys<C: ArchiveCodec>(
    codec: &C,
    master_key: &MasterKey,
    aead_algo: AeadAlgo,
    archive_uuid: &[u8; 16],
    session_id: &[u8; 16],
) -> (r: Result<Subkeys, FormatError>)
    ensures
        r == subkeys_outcome(codec, *master_key, aead_algo, *archive_uuid, *session_id),
{
    if aead_algo.is_encrypted() {
        codec.derive_subkeys(master_key, archive_uuid, session_id)
    } else {
        Ok(Subkeys::unencrypted_placeholder())
    }
}

/// Everything that is decided about an archive.
pub struct WriterPlan {
    pub options: WriterOptions,
    pub archive_uuid: [u8; 16],
    pub session_id: [u8; 16],
    pub volume_format_rev: u16,
    pub crypto_header: CryptoHeader,
    pub tar_members: Vec<TarMember>,
    pub frames: Vec<PayloadFrame>,
    pub payload_objects: Vec<PayloadObject>,
    pub index_root_plaintext: Vec<u8>,
    pub compressed_index_root: Vec<u8>,
    pub index_root_extent: ObjectExtent,
    pub index_shard_objects: Vec<PlannedMetadataObject>,
    pub shard_entries: Vec<ShardEntry>,
    pub compressed_dictionary: Option<Vec<u8>>,
    pub dictionary_extent: Option<(ObjectExtent, u32)>,
    pub directory_hint_objects: Vec<PlannedMetadataObject>,
    pub directory_hint_entries: Vec<DirectoryHintShardEntry>,
    pub root_auth_footer_length: Option<u32>,
    pub key_wrap_table: Option<Vec<u8>>,
    pub block_records_offset: u64,
    pub total_block_count: u64,
}

/// The same by content.
pub struct PlanValue {
    pub options: WriterOptions,
    pub archive_uuid: [u8; 16],
    pub session_id: [u8; 16],
    pub volume_format_rev: u16,
    pub crypto_header: CryptoHeaderValue,
    pub members: Seq<MemberValue>,
    pub frames: Seq<PayloadFrame>,
    pub objects: Seq<PayloadObject>,
    pub index_root_plaintext: Seq<u8>,
    pub compressed_index_root: Seq<u8>,
    pub index_root_extent: ObjectExtent,
    pub index_shard_objects: Seq<MetadataObjectValue>,
    pub shard_entries: Seq<ShardEntry>,
    pub compressed_dictionary: Option<Seq<u8>>,
    pub dictionary_extent: Option<(ObjectExtent, u32)>,
    pub directory_hint_objects: Seq<MetadataObjectValue>,
    pub directory_hint_entries: Seq<DirectoryHintShardEntry>,
    pub root_auth_footer_length: Option<u32>,
    pub key_wrap_table: Option<Seq<u8>>,
    pub block_records_offset: u64,
    pub total_block_count: u64,
}

impl View for WriterPlan {
    type V = PlanValue;

    open spec fn view(&self) -> PlanValue {
        PlanValue {
            options: self.options,
            archive_uuid: self.archive_uuid,
            session_id: self.session_id,
            volume_format_rev: self.volume_format_rev,
            crypto_header: self.crypto_header.value(),
            members: tar_member_values(self.tar_members@),
            frames: self.frames@,
            objects: self.payload_objects@,
            index_root_plaintext: self.index_root_plaintext@,
            compressed_index_root: self.compressed_index_root@,
            index_root_extent: self.index_root_extent,
            index_shard_objects: object_values(self.index_shard_objects@),
            shard_entries: self.shard_entries@,
            compressed_dictionary: opt_vec(self.compressed_dictionary),
            dictionary_extent: self.dictionary_extent,
            directory_hint_objects: object_values(self.directory_hint_objects@),
            directory_hint_entries: self.directory_hint_entries@,
            root_auth_footer_length: self.root_auth_footer_length,
            key_wrap_table: opt_vec(self.key_wrap_table),
            block_records_offset: self.block_records_offset,
            total_block_count: self.total_block_count,
        }
    }
}

impl WriterPlan {
    pub open spec fn wf(&self) -> bool {
        &&& members_wf(self.tar_members@)
        &&& self.crypto_header.wf()
    }
}

/// What a plan is made for.
pub struct PlanRequest<'a> {
    pub archive_uuid: [u8; 16],
    pub session_id: [u8; 16],
    pub volume_format_rev: u16,
    pub master_key: MasterKey,
    pub root_auth: Option<RootAuthWriterConfig<'a>>,
    pub caps: ReaderCaps,
}

/// The length of the root-authentication footer, where there is one.
pub open spec fn root_auth_length(
    layout: WireLayout,
    root_auth: Option<RootAuthWriterConfig>,
    caps: ReaderCaps,
) -> Result<Option<u32>, FormatError> {
    match root_auth {
        None => Ok(None),
        Some(config) => match footer_length_outcome(
            layout,
            config.signer_identity@.len() as int,
            config.authenticator_value_length as int,
            caps,
        ) {
            Err(e) => Err(e),
            Ok(length) => Ok(Some(length)),
        },
    }
}

pub open spec fn payload_counts(payload: PayloadValue) -> PayloadCounts {
    PayloadCounts {
        frame_count: payload.frames.len() as u64,
        envelope_count: payload.objects.len() as u64,
        file_count: payload.members.len() as u64,
        payload_block_count: payload.block_count,
        tar_total_size: payload.tar_total,
        content_sha256: payload.content_sha256,
    }
}

/// Where the blocks of each volume begin.
pub open spec fn records_offset(
    layout: WireLayout,
    header: CryptoHeaderValue,
    key_wrap_table: Option<Seq<u8>>,
) -> Result<u64, FormatError> {
    fit_u64(
        layout.volume_header + header.bytes.len() + match key_wrap_table {
            Some(table) => table.len() as int,
            None => 0,
        },
        "KeyWrapTableV1",
    )
}

/// The plan around the metadata objects `m`.
pub open spec fn plan_around<C: ArchiveCodec>(
    codec: &C,
    payload: PayloadValue,
    m: MetadataValue,
    o: WriterOptions,
    has_dictionary: bool,
    kdf: KdfValue,
    key_wrap_table: Option<Seq<u8>>,
    subkeys: Subkeys,
    request: PlanRequest,
) -> Result<PlanValue, FormatError> {
    let root = codec.index_root_bytes(
        index_root_value(
            payload_counts(payload),
            m.front.shards.entries,
            m.hints.entries,
            m.front.dictionary.extent,
        ),
    );
    match codec.compressed(root, o.zstd_level, None, o.jobs) {
        Err(e) => Err(e),
        Ok(compressed) => match metadata_class_outcome(
            o,
            compressed.len() as int,
            match m.front.dictionary.compressed {
                Some(c) => Some(c.len() as usize),
                None => None,
            },
        ) {
            Err(e) => Err(e),
            Ok(class) => match crypto_header_outcome(
                codec,
                class.options,
                request.volume_format_rev,
                has_dictionary,
                subkeys,
                request.archive_uuid,
                request.session_id,
                kdf,
            ) {
                Err(e) => Err(e),
                Ok(header) => {
                    let extent = ObjectExtent::placed(m.hints.next, class.index_root);
                    match extent.next_block_index_outcome() {
                        Err(e) => Err(e),
                        Ok(total) => match root_auth_length(
                            codec.spec_layout(),
                            request.root_auth,
                            request.caps,
                        ) {
                            Err(e) => Err(e),
                            Ok(footer_length) => match records_offset(
                                codec.spec_layout(),
                                header,
                                key_wrap_table,
                            ) {
                                Err(e) => Err(e),
                                Ok(offset) => Ok(
                                    PlanValue {
                                        options: class.options,
                                        archive_uuid: request.archive_uuid,
                                        session_id: request.session_id,
                                        volume_format_rev: request.volume_format_rev,
                                        crypto_header: header,
                                        members: payload.members,
                                        frames: payload.frames,
                                        objects: payload.objects,
                                        index_root_plaintext: root,
                                        compressed_index_root: compressed,
                                        index_root_extent: extent,
                                        index_shard_objects: m.front.shards.objects,
                                        shard_entries: m.front.shards.entries,
                                        compressed_dictionary: m.front.dictionary.compressed,
                                        dictionary_extent: m.front.dictionary.extent,
                                        directory_hint_objects: m.hints.objects,
                                        directory_hint_entries: m.hints.entries,
                                        root_auth_footer_length: footer_length,
                                        key_wrap_table,
                                        block_records_offset: offset,
                                        total_block_count: total,
                                    },
                                ),
                            },
                        },
                    }
                },
            },
        },
    }
}

/// The plan of an archive over a planned payload.
pub open spec fn plan_outcome<C: ArchiveCodec + MetadataProfile>(
    codec: &C,
    payload: PayloadValue,
    next: u64,
    o: WriterOptions,
    dictionary: Option<Seq<u8>>,
    kdf: KdfValue,
    key_wrap_table: Option<Seq<u8>>,
    request: PlanRequest,
    rows: Seq<RowValue>,
    hints: Seq<HintValue>,
) -> Result<PlanValue, FormatError> {
    match subkeys_outcome(
        codec,
        request.master_key,
        o.aead_algo,
        request.archive_uuid,
        request.session_id,
    ) {
        Err(e) => Err(e),
        Ok(subkeys) => match metadata_plan(codec, payload, next, o, dictionary, rows, hints) {
            Err(e) => Err(e),
            Ok(m) => plan_around(
                codec,
                payload,
                m,
                o,
                dictionary is Some,
                kdf,
                key_wrap_table,
                subkeys,
                request,
            ),
        },
    }
}

/// Whether `r` is a plan of the payload, its members taken in some index order.
pub open spec fn is_plan<C: ArchiveCodec + MetadataProfile>(
    codec: &C,
    payload: PayloadValue,
    next: u64,
    o: WriterOptions,
    dictionary: Option<Seq<u8>>,
    kdf: KdfValue,
    key_wrap_table: Option<Seq<u8>>,
    request: PlanRequest,
    r: Result<PlanValue, FormatError>,
) -> bool {
    exists|rows: Seq<FileRow>, hints: Seq<HintRow>| #[trigger]
        is_index_order(codec, payload, next, o, dictionary, rows, hints) && r == plan_outcome(
            codec,
            payload,
            next,
            o,
            dictionary,
            kdf,
            key_wrap_table,
            request,
            row_values(rows),
            hint_values(hints),
        )
}

pub open spec fn plan_value(r: Result<WriterPlan, FormatError>) -> Result<PlanValue, FormatError> {
    match r {
        Ok(plan) => Ok(plan@),
        Err(e) => Err(e),
    }
}

fn plan_footer_length<C: ArchiveCodec>(codec: &C, request: &PlanRequest<'_>) -> (r: Result<
    Option<u32>,
    FormatError,
>)
    ensures
        r == root_auth_length(codec.spec_layout(), request.root_auth, request.caps),
{
    match &request.root_auth {
        None => Ok(None),
        Some(config) => {
            let length: u32 = root_auth_footer_wire_length(
                config.signer_identity.len(),
                config.authenticator_value_length as usize,
                &codec.layout(),
                &request.caps,
            )?;
            Ok(Some(length))
        },
    }
}

fn plan_rest<C: ArchiveCodec>(
    codec: &C,
    payload: PayloadPlanning,
    metadata: MetadataPlan,
    options: WriterOptions,
    has_dictionary: bool,
    kdf_params: &KdfParams,
    key_wrap_table: Option<Vec<u8>>,
    subkeys: &Subkeys,
    request: &PlanRequest<'_>,
    value: Ghost<MetadataValue>,
) -> (r: Result<WriterPlan, FormatError>)
    requires
        options.block_size > 0,
        members_wf(payload.tar_members@),
        metadata_agrees(metadata, value@),
    ensures
        r matches Ok(plan) ==> plan.wf(),
        plan_value(r) == plan_around(
            codec,
            payload@,
            value@,
            options,
            has_dictionary,
            kdf_params@,
            opt_vec(key_wrap_table),
            *subkeys,
            *request,
        ),
{
    let layout: WireLayout = codec.layout();
    let index_root_plaintext: Vec<u8> = build_index_root_plaintext(
        codec,
        &IndexRootPlaintextInput {
            shard_entries: &metadata.shard_entries,
            frame_count: payload.frames.len() as u64,
            envelope_count: payload.payload_objects.len() as u64,
            file_count: payload.tar_members.len() as u64,
            payload_block_count: payload.payload_block_count,
            tar_total_size: payload.tar_total_size,
            content_sha256: payload.content_sha256,
            directory_hint_entries: &metadata.directory_hint_entries,
            dictionary_extent: metadata.dictionary_extent,
        },
    );
    let compressed_index_root: Vec<u8> = codec.compress(
        index_root_plaintext.as_slice(),
        options.zstd_level,
        None,
        options.jobs,
    )?;
    let dictionary_len: Option<usize> = match &metadata.compressed_dictionary {
        Some(compressed) => Some(compressed.len()),
        None => None,
    };
    let class: MetadataClassPlan = plan_index_root_metadata_class(
        options,
        compressed_index_root.len(),
        dictionary_len,
    )?;
    let crypto_header: CryptoHeader = build_crypto_header(
        codec,
        class.options,
        request.volume_format_rev,
        has_dictionary,
        subkeys,
        &request.archive_uuid,
        &request.session_id,
        kdf_params,
    )?;
    let index_root_extent: ObjectExtent = ObjectExtent::new(
        metadata.next_block_index,
        class.index_root,
    )?;
    let total_block_count: u64 = index_root_extent.next_block_index()?;
    let root_auth_footer_length: Option<u32> = plan_footer_length(codec, request)?;
    let table_len: u64 = match &key_wrap_table {
        Some(table) => table.len() as u64,
        None => 0,
    };
    let block_records_offset: u64 = crate::arith::checked_u64_add(
        layout.volume_header as u64 + crypto_header.bytes.len() as u64,
        table_len,
        "KeyWrapTableV1",
    )?;
    Ok(
        WriterPlan {
            options: class.options,
            archive_uuid: request.archive_uuid,
            session_id: request.session_id,
            volume_format_rev: request.volume_format_rev,
            crypto_header,
            tar_members: payload.tar_members,
            frames: payload.frames,
            payload_objects: payload.payload_objects,
            index_root_plaintext,
            compressed_index_root,
            index_root_extent,
            index_shard_objects: metadata.index_shard_objects,
            shard_entries: metadata.shard_entries,
            compressed_dictionary: metadata.compressed_dictionary,
            dictionary_extent: metadata.dictionary_extent,
            directory_hint_objects: metadata.directory_hint_objects,
            directory_hint_entries: metadata.directory_hint_entries,
            root_auth_footer_length,
            key_wrap_table,
            block_records_offset,
            total_block_count,
        },
    )
}

/// Plans an archive over a planned payload, whose blocks end in front of `next_block_index`.
pub fn build_writer_plan_from_payload<C: ArchiveCodec + MetadataProfile>(
    codec: &C,
    payload: PayloadPlanning,
    next_block_index: u64,
    options: WriterOptions,
    dictionary: Option<&[u8]>,
    kdf_params: &KdfParams,
    key_wrap_table: Option<Vec<u8>>,
    request: &PlanRequest<'_>,
) -> (r: Result<WriterPlan, FormatError>)
    requires
        options.block_size > 0,
        members_wf(payload.tar_members@),
    ensures
        r matches Ok(plan) ==> plan.wf(),
        is_plan(
            codec,
            payload@,
            next_block_index,
            options,
            opt_bytes(dictionary),
            kdf_params@,
            opt_vec(key_wrap_table),
            *request,
            plan_value(r),
        ),
{
    let ghost dict = opt_bytes(dictionary);
    let derived: Result<Subkeys, FormatError> = writer_subkeys(
        codec,
        &request.master_key,
        options.aead_algo,
        &request.archive_uuid,
        &request.session_id,
    );
    let planned: Result<MetadataPlan, FormatError> = plan_metadata(
        codec,
        &payload,
        next_block_index,
        options,
        dictionary,
    );
    let ghost (rows, hints) = choose|rows: Seq<FileRow>, hints: Seq<HintRow>| #[trigger]
        is_index_order(codec, payload@, next_block_index, options, dict, rows, hints) && match (
            planned,
            metadata_plan(
                codec,
                payload@,
                next_block_index,
                options,
                dict,
                row_values(rows),
                hint_values(hints),
            ),
        ) {
            (Ok(plan), Ok(value)) => metadata_agrees(plan, value),
            (Err(e), Err(f)) => e == f,
            _ => false,
        };
    let ghost value = metadata_plan(
        codec,
        payload@,
        next_block_index,
        options,
        dict,
        row_values(rows),
        hint_values(hints),
    )->Ok_0;
    assert(is_index_order(codec, payload@, next_block_index, options, dict, rows, hints));
    let subkeys: Subkeys = derived?;
    let metadata: MetadataPlan = planned?;
    plan_rest(
        codec,
        payload,
        metadata,
        options,
        dictionary.is_some(),
        kdf_params,
        key_wrap_table,
        &subkeys,
        request,
        Ghost(value),
    )
}

} // verus!
