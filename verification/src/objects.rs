//! Writing the metadata objects of a plan.
use crate::codec::{ArchiveCodec, ObjectDomain, SealContext};
use crate::emit::{
    emission, emission_of, emit_encrypted_object, with_object, writes, Emission,
    WriterEmissionState,
};
use crate::errors::{ArchiveWriteError, FormatError};
use crate::format::BlockKind;
use crate::index_plan::{object_values, MetadataObjectValue, PlannedMetadataObject};
use crate::keys::Subkeys;
use crate::object_plan::MetadataObjectKind;
use crate::options::WriterOptions;
use crate::plan::{PlanValue, WriterPlan};
use crate::seal::{block_values, EncryptedObject, ObjectEncryptionContext};
use crate::sink::{failure_of, standing, ArchiveWriteSink};
use crate::wire::{BlockRecord, BlockValue};
use vstd::prelude::*;

verus! {

/// The keys and the identity that the objects of an archive are sealed under.
#[derive(Debug, Clone, Copy, PartialEq, Eq)]
pub struct ArchiveSeal {
    pub subkeys: Subkeys,
    pub archive_uuid: [u8; 16],
    pub session_id: [u8; 16],
}

impl ArchiveSeal {
    pub open spec fn spec_context(
        self,
        domain: ObjectDomain,
        counter: u64,
        o: WriterOptions,
    ) -> ObjectEncryptionContext {
        ObjectEncryptionContext {
            key: match domain {
                ObjectDomain::Envelope => self.subkeys.enc_key,
                ObjectDomain::IndexShard => self.subkeys.index_shard_key,
                ObjectDomain::Dictionary => self.subkeys.dictionary_key,
                ObjectDomain::DirectoryHint => self.subkeys.dir_hint_key,
                ObjectDomain::IndexRoot => self.subkeys.index_root_key,
            },
            seal: SealContext {
                nonce_seed: match domain {
                    ObjectDomain::Envelope => self.subkeys.nonce_seed,
                    _ => self.subkeys.index_nonce_seed,
                },
                domain,
                archive_uuid: self.archive_uuid,
                session_id: self.session_id,
                counter,
            },
            data_kind: match domain {
                ObjectDomain::Envelope => BlockKind::PayloadData,
                ObjectDomain::IndexShard => BlockKind::IndexShardData,
                ObjectDomain::Dictionary => BlockKind::DictionaryData,
                ObjectDomain::DirectoryHint => BlockKind::DirectoryHintData,
                ObjectDomain::IndexRoot => BlockKind::IndexRootData,
            },
            parity_kind: match domain {
                ObjectDomain::Envelope => BlockKind::PayloadParity,
                ObjectDomain::IndexShard => BlockKind::IndexShardParity,
                ObjectDomain::Dictionary => BlockKind::DictionaryParity,
                ObjectDomain::DirectoryHint => BlockKind::DirectoryHintParity,
                ObjectDomain::IndexRoot => BlockKind::IndexRootParity,
            },
            data_shard_max: match domain {
                ObjectDomain::Envelope => o.fec_data_shards,
                ObjectDomain::IndexShard => o.index_fec_data_shards,
                ObjectDomain::DirectoryHint => o.index_fec_data_shards,
                ObjectDomain::Dictionary => o.index_root_fec_data_shards,
                ObjectDomain::IndexRoot => o.index_root_fec_data_shards,
            },
            class_parity_shard_max: match domain {
                ObjectDomain::Envelope => o.fec_parity_shards,
                ObjectDomain::IndexShard => o.index_fec_parity_shards,
                ObjectDomain::DirectoryHint => o.index_fec_parity_shards,
                ObjectDomain::Dictionary => o.index_root_fec_parity_shards,
                ObjectDomain::IndexRoot => o.index_root_fec_parity_shards,
            },
        }
    }

    /// How the object `counter` of a domain is sealed.
    pub fn context(&self, domain: ObjectDomain, counter: u64, options: WriterOptions) -> (r:
        ObjectEncryptionContext)
        ensures
            r == self.spec_context(domain, counter, options),
    {
        let keys: &Subkeys = &self.subkeys;
        let o: WriterOptions = options;
        let (key, nonce_seed, data_kind, parity_kind, data_shard_max, class_parity_shard_max) =
            match domain {
            ObjectDomain::Envelope => (
                keys.enc_key,
                keys.nonce_seed,
                BlockKind::PayloadData,
                BlockKind::PayloadParity,
                o.fec_data_shards,
                o.fec_parity_shards,
            ),
            ObjectDomain::IndexShard => (
                keys.index_shard_key,
                keys.index_nonce_seed,
                BlockKind::IndexShardData,
                BlockKind::IndexShardParity,
                o.index_fec_data_shards,
                o.index_fec_parity_shards,
            ),
            ObjectDomain::Dictionary => (
                keys.dictionary_key,
                keys.index_nonce_seed,
                BlockKind::DictionaryData,
                BlockKind::DictionaryParity,
                o.index_root_fec_data_shards,
                o.index_root_fec_parity_shards,
            ),
            ObjectDomain::DirectoryHint => (
                keys.dir_hint_key,
                keys.index_nonce_seed,
                BlockKind::DirectoryHintData,
                BlockKind::DirectoryHintParity,
                o.index_fec_data_shards,
                o.index_fec_parity_shards,
            ),
            ObjectDomain::IndexRoot => (
                keys.index_root_key,
                keys.index_nonce_seed,
                BlockKind::IndexRootData,
                BlockKind::IndexRootParity,
                o.index_root_fec_data_shards,
                o.index_root_fec_parity_shards,
            ),
        };
        ObjectEncryptionContext {
            key,
            seal: SealContext {
                nonce_seed,
                domain,
                archive_uuid: self.archive_uuid,
                session_id: self.session_id,
                counter,
            },
            data_kind,
            parity_kind,
            data_shard_max,
            class_parity_shard_max,
        }
    }
}

/// The first `count` objects of a list, written one after the other.
pub open spec fn with_metadata_objects<C: ArchiveCodec>(
    codec: &C,
    e: Emission,
    objects: Seq<MetadataObjectValue>,
    domain: ObjectDomain,
    seal: ArchiveSeal,
    o: WriterOptions,
    rev: u16,
    count: nat,
) -> Result<Emission, FormatError>
    decreases count,
{
    if count == 0 {
        Ok(e)
    } else {
        match with_metadata_objects(codec, e, objects, domain, seal, o, rev, (count - 1) as nat) {
            Err(f) => Err(f),
            Ok(before) => {
                let object = objects[count - 1];
                emission_of(
                    with_object(
                        codec,
                        before,
                        object.compressed,
                        seal.spec_context(domain, object.object_index, o),
                        o,
                        object.extent,
                        None,
                        rev,
                    ),
                )
            },
        }
    }
}

proof fn first_object_error_stays<C: ArchiveCodec>(
    codec: &C,
    e: Emission,
    objects: Seq<MetadataObjectValue>,
    domain: ObjectDomain,
    seal: ArchiveSeal,
    o: WriterOptions,
    rev: u16,
    count: nat,
    total: nat,
)
    requires
        count <= total,
        with_metadata_objects(codec, e, objects, domain, seal, o, rev, count) is Err,
    ensures
        with_metadata_objects(codec, e, objects, domain, seal, o, rev, total)
            == with_metadata_objects(codec, e, objects, domain, seal, o, rev, count),
    decreases total,
{
    if count < total {
        first_object_error_stays(
            codec,
            e,
            objects,
            domain,
            seal,
            o,
            rev,
            count,
            (total - 1) as nat,
        );
    }
}

/// Writes the objects of a list, one after the other.
#[verifier::loop_isolation(false)]
pub fn emit_metadata_objects<C: ArchiveCodec, O: ArchiveWriteSink>(
    codec: &C,
    objects: &Vec<PlannedMetadataObject>,
    domain: ObjectDomain,
    seal: &ArchiveSeal,
    options: WriterOptions,
    sink: &mut O,
    state: &mut WriterEmissionState,
) -> (r: Result<(), ArchiveWriteError>)
    requires
        options.block_size > 0,
        emission(*old(sink), *old(state)).wf(options.stripe_width),
    ensures
        writes(
            standing(*old(sink)),
            standing(*final(sink)),
            emission(*final(sink), *final(state)),
            with_metadata_objects(
                codec,
                emission(*old(sink), *old(state)),
                object_values(objects@),
                domain,
                *seal,
                options,
                old(state).volume_format_rev,
                objects@.len(),
            ),
            failure_of(r),
        ),
        r is Ok ==> emission(*final(sink), *final(state)).wf(options.stripe_width),
        final(state).volume_headers == old(state).volume_headers,
        final(state).volume_format_rev == old(state).volume_format_rev,
{
    let ghost start = emission(*sink, *state);
    let ghost rev = state.volume_format_rev;
    let ghost values = object_values(objects@);
    let ghost began = standing(*sink);
    let ghost headers = state.volume_headers;
    let mut i: usize = 0;
    while i < objects.len()
        invariant
            i <= objects@.len(),
            with_metadata_objects(
                codec,
                start,
                values,
                domain,
                *seal,
                options,
                rev,
                i as nat,
            ) == Ok::<Emission, FormatError>(emission(*sink, *state)),
            emission(*sink, *state).wf(options.stripe_width),
            began.goes_on(standing(*sink)),
            state.volume_format_rev == rev,
            state.volume_headers == headers,
        decreases objects.len() - i,
    {
        proof {
            assert(values[i as int] == objects@[i as int]@);
            if with_metadata_objects(
                codec,
                start,
                values,
                domain,
                *seal,
                options,
                rev,
                (i + 1) as nat,
            ) is Err {
                first_object_error_stays(
                    codec,
                    start,
                    values,
                    domain,
                    *seal,
                    options,
                    rev,
                    (i + 1) as nat,
                    objects@.len(),
                );
            }
        }
        let context: ObjectEncryptionContext = seal.context(
            domain,
            objects[i].object_index,
            options,
        );
        emit_encrypted_object(
            codec,
            objects[i].compressed.as_slice(),
            &context,
            options,
            objects[i].extent,
            None,
            sink,
            state,
        )?;
        i = i + 1;
    }
    Ok(())
}

/// The archive with all objects of its plan, and the blocks that a sidecar repeats.
pub struct BodyValue {
    pub emission: Emission,
    pub dictionary: Option<Seq<BlockValue>>,
    pub index_root: Seq<BlockValue>,
}

/// The archive and the blocks of its dictionary, where it has one.
pub struct DictionaryBlocks {
    pub emission: Emission,
    pub blocks: Option<Seq<BlockValue>>,
}

pub open spec fn with_dictionary<C: ArchiveCodec>(
    codec: &C,
    e: Emission,
    plan: PlanValue,
    seal: ArchiveSeal,
    rev: u16,
) -> Result<DictionaryBlocks, FormatError> {
    match (plan.compressed_dictionary, plan.dictionary_extent) {
        (Some(compressed), Some((extent, _))) => match with_object(
            codec,
            e,
            compressed,
            seal.spec_context(ObjectDomain::Dictionary, 0, plan.options),
            plan.options,
            extent,
            Some(MetadataObjectKind::Dictionary),
            rev,
        ) {
            Err(f) => Err(f),
            Ok(w) => Ok(DictionaryBlocks { emission: w.emission, blocks: Some(w.blocks) }),
        },
        _ => Ok(DictionaryBlocks { emission: e, blocks: None }),
    }
}

/// The archive after the metadata objects of its plan: index shards, dictionary, directory hints
/// and index root. They have to end where the plan ends.
pub open spec fn body_outcome<C: ArchiveCodec>(
    codec: &C,
    e: Emission,
    plan: PlanValue,
    seal: ArchiveSeal,
    rev: u16,
) -> Result<BodyValue, FormatError> {
    let o = plan.options;
    match with_metadata_objects(
        codec,
        e,
        plan.index_shard_objects,
        ObjectDomain::IndexShard,
        seal,
        o,
        rev,
        plan.index_shard_objects.len(),
    ) {
        Err(f) => Err(f),
        Ok(shards) => match with_dictionary(codec, shards, plan, seal, rev) {
            Err(f) => Err(f),
            Ok(dictionary) => match with_metadata_objects(
                codec,
                dictionary.emission,
                plan.directory_hint_objects,
                ObjectDomain::DirectoryHint,
                seal,
                o,
                rev,
                plan.directory_hint_objects.len(),
            ) {
                Err(f) => Err(f),
                Ok(hints) => match with_object(
                    codec,
                    hints,
                    plan.compressed_index_root,
                    seal.spec_context(ObjectDomain::IndexRoot, 0, o),
                    o,
                    plan.index_root_extent,
                    Some(MetadataObjectKind::IndexRoot),
                    rev,
                ) {
                    Err(f) => Err(f),
                    Ok(root) => if root.emission.next_block_index != plan.total_block_count {
                        Err(FormatError::WriterInvariant("streaming writer block plan mismatch"))
                    } else {
                        Ok(
                            BodyValue {
                                emission: root.emission,
                                dictionary: dictionary.blocks,
                                index_root: root.blocks,
                            },
                        )
                    },
                },
            },
        },
    }
}

pub open spec fn body_emission(r: Result<BodyValue, FormatError>) -> Result<Emission, FormatError> {
    match r {
        Ok(body) => Ok(body.emission),
        Err(e) => Err(e),
    }
}

/// The blocks that a sidecar repeats.
pub struct BodyRecords {
    pub index_root: Vec<BlockRecord>,
    pub dictionary: Option<Vec<BlockRecord>>,
}

pub open spec fn opt_block_values(records: Option<Vec<BlockRecord>>) -> Option<Seq<BlockValue>> {
    match records {
        Some(r) => Some(block_values(r@)),
        None => None,
    }
}

fn emit_dictionary<C: ArchiveCodec, O: ArchiveWriteSink>(
    codec: &C,
    plan: &WriterPlan,
    seal: &ArchiveSeal,
    sink: &mut O,
    state: &mut WriterEmissionState,
) -> (r: Result<Option<Vec<BlockRecord>>, ArchiveWriteError>)
    requires
        plan.options.block_size > 0,
        emission(*old(sink), *old(state)).wf(plan.options.stripe_width),
    ensures
        ({
            let outcome = with_dictionary(
                codec,
                emission(*old(sink), *old(state)),
                plan@,
                *seal,
                old(state).volume_format_rev,
            );
            &&& writes(
                standing(*old(sink)),
                standing(*final(sink)),
                emission(*final(sink), *final(state)),
                match outcome {
                    Ok(d) => Ok(d.emission),
                    Err(e) => Err(e),
                },
                failure_of(r),
            )
            &&& r matches Ok(records) ==> outcome matches Ok(d) && opt_block_values(records)
                == d.blocks
        }),
        r is Ok ==> emission(*final(sink), *final(state)).wf(plan.options.stripe_width),
        final(state).volume_headers == old(state).volume_headers,
        final(state).volume_format_rev == old(state).volume_format_rev,
{
    if let (Some(compressed), Some((extent, _))) = (
        &plan.compressed_dictionary,
        plan.dictionary_extent,
    ) {
        let context: ObjectEncryptionContext = seal.context(
            ObjectDomain::Dictionary,
            0,
            plan.options,
        );
        let object: EncryptedObject = emit_encrypted_object(
            codec,
            compressed.as_slice(),
            &context,
            plan.options,
            extent,
            Some(MetadataObjectKind::Dictionary),
            sink,
            state,
        )?;
        Ok(Some(object.records))
    } else {
        Ok(None)
    }
}

/// Writes the metadata objects of a plan.
#[verifier::rlimit(40)]
pub fn emit_plan_body<C: ArchiveCodec, O: ArchiveWriteSink>(
    codec: &C,
    plan: &WriterPlan,
    seal: &ArchiveSeal,
    sink: &mut O,
    state: &mut WriterEmissionState,
) -> (r: Result<BodyRecords, ArchiveWriteError>)
    requires
        plan.options.block_size > 0,
        emission(*old(sink), *old(state)).wf(plan.options.stripe_width),
    ensures
        ({
            let outcome = body_outcome(
                codec,
                emission(*old(sink), *old(state)),
                plan@,
                *seal,
                old(state).volume_format_rev,
            );
            &&& writes(
                standing(*old(sink)),
                standing(*final(sink)),
                emission(*final(sink), *final(state)),
                body_emission(outcome),
                failure_of(r),
            )
            &&& r matches Ok(records) ==> outcome matches Ok(body) && block_values(
                records.index_root@,
            ) == body.index_root && opt_block_values(records.dictionary) == body.dictionary
        }),
        r is Ok ==> emission(*final(sink), *final(state)).wf(plan.options.stripe_width),
        final(state).volume_headers == old(state).volume_headers,
        final(state).volume_format_rev == old(state).volume_format_rev,
{
    let options: WriterOptions = plan.options;
    assert(object_values(plan.index_shard_objects@).len() == plan.index_shard_objects@.len());
    assert(object_values(plan.directory_hint_objects@).len() == plan.directory_hint_objects@.len());
    emit_metadata_objects(
        codec,
        &plan.index_shard_objects,
        ObjectDomain::IndexShard,
        seal,
        options,
        sink,
        state,
    )?;
    let dictionary: Option<Vec<BlockRecord>> = emit_dictionary(codec, plan, seal, sink, state)?;
    emit_metadata_objects(
        codec,
        &plan.directory_hint_objects,
        ObjectDomain::DirectoryHint,
        seal,
        options,
        sink,
        state,
    )?;
    let context: ObjectEncryptionContext = seal.context(ObjectDomain::IndexRoot, 0, options);
    let root: EncryptedObject = emit_encrypted_object(
        codec,
        plan.compressed_index_root.as_slice(),
        &context,
        options,
        plan.index_root_extent,
        Some(MetadataObjectKind::IndexRoot),
        sink,
        state,
    )?;
    if state.next_block_index != plan.total_block_count {
        return Err(
            ArchiveWriteError::Format(
                FormatError::WriterInvariant("streaming writer block plan mismatch"),
            ),
        );
    }
    Ok(BodyRecords { index_root: root.records, dictionary })
}

} // verus!
