//! Wrapping the master key for recipients.
use crate::arith::u32_len;
use crate::bytes::to_bytes;
use crate::codec::{recipient_values, ArchiveCodec};
use crate::errors::FormatError;
use crate::format::VOLUME_FORMAT_REV_45;
use crate::keys::{KdfParams, KdfValue, NO_KEY};
use crate::wire::{KeyWrapTableHeader, RecipientRecordV1, RecipientValue};
use vstd::pervasive::arbitrary;
use vstd::prelude::*;

verus! {

/// Where the records of a key-wrap table start.
pub const KEY_WRAP_RECORDS_OFFSET: u32 = 96;

/// The only version of the key-wrap table.
pub const KEY_WRAP_TABLE_VERSION: u16 = 1;

/// Produces recipient records when they are needed. Each call may answer differently: one of the
/// answers that `given` lists. A callback outside verified code leaves `given` out, which then
/// stands for what it may answer.
pub trait RecipientRecords {
    /// The answers that asking may give.
    closed spec fn given(&self, k: nat) -> Result<Seq<RecipientValue>, FormatError> {
        arbitrary()
    }

    fn records(&self) -> (r: Result<Vec<RecipientRecordV1>, FormatError>)
        ensures
            exists|k: nat| #[trigger] self.given(k) == records_value(r),
    ;
}

/// An answer by content.
pub open spec fn records_value(r: Result<Vec<RecipientRecordV1>, FormatError>) -> Result<
    Seq<RecipientValue>,
    FormatError,
> {
    match r {
        Err(e) => Err(e),
        Ok(records) => Ok(recipient_values(records@)),
    }
}

/// An answer of a callback as the answer of a source.
pub open spec fn given_records(r: Result<Seq<RecipientValue>, FormatError>) -> Result<
    Option<Seq<RecipientValue>>,
    FormatError,
> {
    match r {
        Err(e) => Err(e),
        Ok(records) => Ok(Some(records)),
    }
}

/// Where recipient records come from.
pub enum KeyWrapRecordSource {
    Absent,
    Fixed(Vec<RecipientRecordV1>),
    Callback(Box<dyn RecipientRecords>),
}

impl Default for KeyWrapRecordSource {
    fn default() -> (r: Self)
        ensures
            r is Absent,
    {
        KeyWrapRecordSource::Absent
    }
}

/// What asking for recipient records may give: records, none, or an error.
pub open spec fn resolved_value(r: Result<Option<Vec<RecipientRecordV1>>, FormatError>) -> Result<
    Option<Seq<RecipientValue>>,
    FormatError,
> {
    match r {
        Err(e) => Err(e),
        Ok(None) => Ok(None),
        Ok(Some(records)) => Ok(Some(recipient_values(records@))),
    }
}

impl KeyWrapRecordSource {
    /// Whether this source may answer `answer`. A callback answers what it gives when it is asked.
    pub open spec fn may_answer(
        &self,
        answer: Result<Option<Seq<RecipientValue>>, FormatError>,
    ) -> bool {
        match self {
            KeyWrapRecordSource::Absent => answer == Ok::<
                Option<Seq<RecipientValue>>,
                FormatError,
            >(None),
            KeyWrapRecordSource::Fixed(records) => answer == Ok::<
                Option<Seq<RecipientValue>>,
                FormatError,
            >(Some(recipient_values(records@))),
            KeyWrapRecordSource::Callback(callback) => exists|k: nat|
                answer == given_records(#[trigger] callback.given(k)),
        }
    }

    pub fn fixed(records: Vec<RecipientRecordV1>) -> (r: Self)
        ensures
            r == KeyWrapRecordSource::Fixed(records),
    {
        KeyWrapRecordSource::Fixed(records)
    }

    /// A source that asks `callback`, and answers what it gives.
    pub fn callback(callback: Box<dyn RecipientRecords>) -> (r: Self)
        ensures
            r == KeyWrapRecordSource::Callback(callback),
    {
        KeyWrapRecordSource::Callback(callback)
    }

    pub fn resolve(&self) -> (r: Result<Option<Vec<RecipientRecordV1>>, FormatError>)
        ensures
            self.may_answer(resolved_value(r)),
    {
        match self {
            KeyWrapRecordSource::Absent => Ok(None),
            KeyWrapRecordSource::Fixed(records) => Ok(Some(duplicate_records(records))),
            KeyWrapRecordSource::Callback(callback) => {
                let given: Result<Vec<RecipientRecordV1>, FormatError> = callback.records();
                let ghost k = choose|k: nat| #[trigger] callback.given(k) == records_value(given);
                assert(callback.given(k) == records_value(given));
                match given {
                    Ok(records) => Ok(Some(records)),
                    Err(e) => Err(e),
                }
            },
        }
    }
}

/// What an optional source may answer; a missing one answers "none".
pub open spec fn source_answers(
    source: Option<&KeyWrapRecordSource>,
    answer: Result<Option<Seq<RecipientValue>>, FormatError>,
) -> bool {
    match source {
        None => answer == Ok::<Option<Seq<RecipientValue>>, FormatError>(None),
        Some(s) => s.may_answer(answer),
    }
}

/// Whether a source gives the same answer whenever it is asked. A callback does so if it always
/// gives the same records, or the same error.
pub open spec fn answers_alike(source: Option<&KeyWrapRecordSource>) -> bool {
    forall|
        a: Result<Option<Seq<RecipientValue>>, FormatError>,
        b: Result<Option<Seq<RecipientValue>>, FormatError>,
    |
        #![trigger source_answers(source, a), source_answers(source, b)]
        source_answers(source, a) && source_answers(source, b) ==> a == b
}

/// Only a callback can answer now this, now that.
pub proof fn records_at_hand_answer_alike(source: Option<&KeyWrapRecordSource>)
    requires
        source matches Some(s) ==> !(s is Callback),
    ensures
        answers_alike(source),
{
}

impl RecipientRecordV1 {
    pub fn duplicate(&self) -> (r: RecipientRecordV1)
        ensures
            r@ == self@,
    {
        RecipientRecordV1 {
            record_length: self.record_length,
            profile_id: self.profile_id,
            recipient_identity_type: self.recipient_identity_type,
            flags: self.flags,
            recipient_identity_length: self.recipient_identity_length,
            profile_payload_length: self.profile_payload_length,
            recipient_identity_digest: self.recipient_identity_digest,
            recipient_identity_bytes: to_bytes(self.recipient_identity_bytes.as_slice()),
            profile_payload_bytes: to_bytes(self.profile_payload_bytes.as_slice()),
        }
    }

    /// The record with its own length in it.
    pub fn with_record_length(self, record_length: u32) -> (r: RecipientRecordV1)
        ensures
            r@ == (RecipientValue { record_length, ..self@ }),
    {
        RecipientRecordV1 {
            record_length,
            profile_id: self.profile_id,
            recipient_identity_type: self.recipient_identity_type,
            flags: self.flags,
            recipient_identity_length: self.recipient_identity_length,
            profile_payload_length: self.profile_payload_length,
            recipient_identity_digest: self.recipient_identity_digest,
            recipient_identity_bytes: self.recipient_identity_bytes,
            profile_payload_bytes: self.profile_payload_bytes,
        }
    }
}

fn duplicate_records(records: &Vec<RecipientRecordV1>) -> (r: Vec<RecipientRecordV1>)
    ensures
        recipient_values(r@) == recipient_values(records@),
{
    let mut copy: Vec<RecipientRecordV1> = Vec::new();
    let mut i: usize = 0;
    while i < records.len()
        invariant
            i <= records.len(),
            copy@.len() == i,
            forall|k: int| 0 <= k < i ==> (#[trigger] copy@[k])@ == records@[k]@,
        decreases records.len() - i,
    {
        copy.push(records[i].duplicate());
        i = i + 1;
    }
    assert(recipient_values(copy@) =~= recipient_values(records@));
    copy
}

/// A record with its own length in it.
pub open spec fn sized_record<C: ArchiveCodec>(codec: &C, record: RecipientValue) -> Result<
    RecipientValue,
    FormatError,
> {
    match codec.recipient_bytes(record) {
        Err(e) => Err(e),
        Ok(bytes) => if bytes.len() > u32::MAX {
            Err(FormatError::WriterUnsupported("RecipientWrap record"))
        } else {
            Ok(RecipientValue { record_length: bytes.len() as u32, ..record })
        },
    }
}

/// Records with their own lengths in them, or the first error among them.
pub open spec fn sized_records<C: ArchiveCodec>(codec: &C, records: Seq<RecipientValue>) -> Result<
    Seq<RecipientValue>,
    FormatError,
>
    decreases records.len(),
{
    if records.len() == 0 {
        Ok(Seq::empty())
    } else {
        match sized_records(codec, records.drop_last()) {
            Err(e) => Err(e),
            Ok(before) => match sized_record(codec, records.last()) {
                Err(e) => Err(e),
                Ok(record) => Ok(before.push(record)),
            },
        }
    }
}

proof fn first_size_error_stays<C: ArchiveCodec>(codec: &C, records: Seq<RecipientValue>, n: int)
    requires
        0 <= n <= records.len(),
        sized_records(codec, records.take(n)) is Err,
    ensures
        sized_records(codec, records) == sized_records(codec, records.take(n)),
    decreases records.len(),
{
    if n == records.len() {
        assert(records.take(n) =~= records);
    } else {
        assert(records.drop_last().take(n) =~= records.take(n));
        first_size_error_stays(codec, records.drop_last(), n);
    }
}

/// The parameters that name a key-wrap table, and the table.
pub open spec fn key_wrap_outcome<C: ArchiveCodec>(
    codec: &C,
    kdf: KdfValue,
    archive_uuid: [u8; 16],
    session_id: [u8; 16],
    answer: Result<Option<Seq<RecipientValue>>, FormatError>,
) -> Result<(KdfValue, Option<Seq<u8>>), FormatError> {
    match kdf {
        KdfValue::RecipientWrap {
            key_wrap_table_length,
            key_wrap_table_record_count,
            key_wrap_table_version,
            key_wrap_table_digest,
        } => if key_wrap_table_version != KEY_WRAP_TABLE_VERSION {
            Err(FormatError::InvalidKdfParams("recipient-wrap table version must be 1"))
        } else {
            match answer {
                Err(e) => Err(e),
                Ok(None) => Err(
                    FormatError::WriterUnsupported("RecipientWrap requires key-wrap records"),
                ),
                Ok(Some(records)) => key_wrap_table_outcome(
                    codec,
                    key_wrap_table_length,
                    key_wrap_table_record_count,
                    archive_uuid,
                    session_id,
                    records,
                ),
            }
        },
        _ => Ok((kdf, None)),
    }
}

pub open spec fn key_wrap_header(archive_uuid: [u8; 16], session_id: [u8; 16], count: int) -> KeyWrapTableHeader {
    KeyWrapTableHeader {
        version: KEY_WRAP_TABLE_VERSION,
        volume_format_rev: VOLUME_FORMAT_REV_45,
        table_length: 0,
        flags: 0,
        archive_uuid,
        session_id,
        recipient_record_count: count as u32,
        records_offset: KEY_WRAP_RECORDS_OFFSET,
        records_length: 0,
    }
}

/// The table over given records. A declared length or count of zero leaves it open.
pub open spec fn key_wrap_table_outcome<C: ArchiveCodec>(
    codec: &C,
    declared_length: u32,
    declared_count: u32,
    archive_uuid: [u8; 16],
    session_id: [u8; 16],
    records: Seq<RecipientValue>,
) -> Result<(KdfValue, Option<Seq<u8>>), FormatError> {
    if records.len() == 0 {
        Err(FormatError::WriterUnsupported("RecipientWrap requires at least one recipient record"))
    } else {
        match sized_records(codec, records) {
            Err(e) => Err(e),
            Ok(sized) => if records.len() > u32::MAX {
                Err(FormatError::WriterUnsupported("KeyWrapTableV1 recipient_record_count"))
            } else if declared_count != 0 && declared_count != records.len() {
                Err(
                    FormatError::InvalidKdfParams(
                        "recipient-wrap key_wrap_table_record_count mismatch",
                    ),
                )
            } else {
                match codec.key_wrap_table_bytes(
                    key_wrap_header(archive_uuid, session_id, records.len() as int),
                    sized,
                ) {
                    Err(e) => Err(e),
                    Ok(table) => if table.len() > u32::MAX {
                        Err(FormatError::WriterUnsupported("KeyWrapTableV1 table_length"))
                    } else if declared_length != 0 && declared_length != table.len() {
                        Err(
                            FormatError::InvalidKdfParams(
                                "recipient-wrap key_wrap_table_length mismatch",
                            ),
                        )
                    } else {
                        Ok(
                            (
                                KdfValue::RecipientWrap {
                                    key_wrap_table_length: table.len() as u32,
                                    key_wrap_table_record_count: records.len() as u32,
                                    key_wrap_table_version: KEY_WRAP_TABLE_VERSION,
                                    key_wrap_table_digest: codec.key_wrap_table_digest(
                                        table.len() as u32,
                                        table,
                                    ),
                                },
                                Some(table),
                            ),
                        )
                    },
                }
            },
        }
    }
}

pub open spec fn opt_vec(v: Option<Vec<u8>>) -> Option<Seq<u8>> {
    match v {
        Some(bytes) => Some(bytes@),
        None => None,
    }
}

pub open spec fn key_wrap_agree(
    r: Result<(KdfParams, Option<Vec<u8>>), FormatError>,
    s: Result<(KdfValue, Option<Seq<u8>>), FormatError>,
) -> bool {
    match (r, s) {
        (Ok(v), Ok(w)) => v.0@ == w.0 && opt_vec(v.1) == w.1,
        (Err(e), Err(f)) => e == f,
        _ => false,
    }
}

/// Builds the table over given records and the parameters that name it.
#[verifier::loop_isolation(false)]
pub fn build_key_wrap_table<C: ArchiveCodec>(
    codec: &C,
    declared_length: u32,
    declared_count: u32,
    archive_uuid: &[u8; 16],
    session_id: &[u8; 16],
    records: &Vec<RecipientRecordV1>,
) -> (r: Result<(KdfParams, Option<Vec<u8>>), FormatError>)
    ensures
        key_wrap_agree(
            r,
            key_wrap_table_outcome(
                codec,
                declared_length,
                declared_count,
                *archive_uuid,
                *session_id,
                recipient_values(records@),
            ),
        ),
{
    if records.len() == 0 {
        return Err(
            FormatError::WriterUnsupported("RecipientWrap requires at least one recipient record"),
        );
    }
    let ghost values = recipient_values(records@);
    let mut recipient_records: Vec<RecipientRecordV1> = Vec::new();
    let mut i: usize = 0;
    assert(recipient_values(recipient_records@) =~= Seq::empty());
    while i < records.len()
        invariant
            i <= records.len(),
            sized_records(codec, values.take(i as int)) == Ok::<Seq<RecipientValue>, FormatError>(
                recipient_values(recipient_records@),
            ),
        decreases records.len() - i,
    {
        proof {
            assert(values.take(i + 1).drop_last() =~= values.take(i as int));
            assert(values.take(i + 1).last() == records@[i as int]@);
            if sized_records(codec, values.take(i + 1)) is Err {
                first_size_error_stays(codec, values, i + 1);
            }
        }
        let bytes: Vec<u8> = codec.encode_recipient(&records[i])?;
        let record_length: u32 = u32_len(bytes.len(), "RecipientWrap record")?;
        let ghost before = recipient_values(recipient_records@);
        recipient_records.push(records[i].duplicate().with_record_length(record_length));
        assert(recipient_values(recipient_records@) =~= before.push(
            recipient_records@.last()@,
        ));
        i = i + 1;
    }
    assert(values.take(i as int) =~= values);
    let declared_record_count: u32 = u32_len(
        records.len(),
        "KeyWrapTableV1 recipient_record_count",
    )?;
    if declared_count != 0 && declared_count != declared_record_count {
        return Err(
            FormatError::InvalidKdfParams("recipient-wrap key_wrap_table_record_count mismatch"),
        );
    }
    let header: KeyWrapTableHeader = KeyWrapTableHeader {
        version: KEY_WRAP_TABLE_VERSION,
        volume_format_rev: VOLUME_FORMAT_REV_45,
        table_length: 0,
        flags: 0,
        archive_uuid: *archive_uuid,
        session_id: *session_id,
        recipient_record_count: declared_record_count,
        records_offset: KEY_WRAP_RECORDS_OFFSET,
        records_length: 0,
    };
    let table: Vec<u8> = codec.encode_key_wrap_table(&header, &recipient_records)?;
    let table_length: u32 = u32_len(table.len(), "KeyWrapTableV1 table_length")?;
    if declared_length != 0 && declared_length != table_length {
        return Err(
            FormatError::InvalidKdfParams("recipient-wrap key_wrap_table_length mismatch"),
        );
    }
    let digest: [u8; 32] = codec.digest_key_wrap_table(table_length, table.as_slice());
    Ok(
        (
            KdfParams::RecipientWrap {
                key_wrap_table_length: table_length,
                key_wrap_table_record_count: declared_record_count,
                key_wrap_table_version: KEY_WRAP_TABLE_VERSION,
                key_wrap_table_digest: digest,
            },
            Some(table),
        ),
    )
}

/// A source of records can always have answered somehow.
pub proof fn some_answer_is_possible(source: Option<&KeyWrapRecordSource>)
    ensures
        exists|answer: Result<Option<Seq<RecipientValue>>, FormatError>| #[trigger]
            source_answers(source, answer),
{
    let answer: Result<Option<Seq<RecipientValue>>, FormatError> = match source {
        None => Ok(None),
        Some(KeyWrapRecordSource::Absent) => Ok(None),
        Some(KeyWrapRecordSource::Fixed(records)) => Ok(Some(recipient_values(records@))),
        Some(KeyWrapRecordSource::Callback(callback)) => given_records(callback.given(0)),
    };
    assert(source_answers(source, answer));
}

/// The key-derivation parameters of an archive, completed by its key-wrap table.
pub fn resolve_key_wrap_artifacts<C: ArchiveCodec>(
    codec: &C,
    kdf_params: &KdfParams,
    archive_uuid: &[u8; 16],
    session_id: &[u8; 16],
    key_wrap_records: Option<&KeyWrapRecordSource>,
) -> (r: Result<(KdfParams, Option<Vec<u8>>), FormatError>)
    ensures
        exists|answer: Result<Option<Seq<RecipientValue>>, FormatError>| #[trigger]
            source_answers(key_wrap_records, answer) && key_wrap_agree(
                r,
                key_wrap_outcome(codec, kdf_params@, *archive_uuid, *session_id, answer),
            ),
{
    proof {
        some_answer_is_possible(key_wrap_records);
    }
    match kdf_params {
        KdfParams::RecipientWrap {
            key_wrap_table_length,
            key_wrap_table_record_count,
            key_wrap_table_version,
            key_wrap_table_digest: _,
        } => {
            if *key_wrap_table_version != KEY_WRAP_TABLE_VERSION {
                return Err(FormatError::InvalidKdfParams("recipient-wrap table version must be 1"));
            }
            let source: &KeyWrapRecordSource = match key_wrap_records {
                Some(source) => source,
                None => {
                    return Err(
                        FormatError::WriterUnsupported("RecipientWrap requires key-wrap records"),
                    );
                },
            };
            let resolved: Result<Option<Vec<RecipientRecordV1>>, FormatError> = source.resolve();
            assert(source_answers(key_wrap_records, resolved_value(resolved)));
            match resolved {
                Err(e) => Err(e),
                Ok(None) => Err(
                    FormatError::WriterUnsupported("RecipientWrap requires key-wrap records"),
                ),
                Ok(Some(records)) => build_key_wrap_table(
                    codec,
                    *key_wrap_table_length,
                    *key_wrap_table_record_count,
                    archive_uuid,
                    session_id,
                    &records,
                ),
            }
        },
        _ => Ok((kdf_params.duplicate(), None)),
    }
}

pub open spec fn open_recipient_wrap(count: int) -> KdfValue {
    KdfValue::RecipientWrap {
        key_wrap_table_length: 0,
        key_wrap_table_record_count: count as u32,
        key_wrap_table_version: KEY_WRAP_TABLE_VERSION,
        key_wrap_table_digest: NO_KEY,
    }
}

/// Parameters for a key-wrap table of `record_count` records that is still to be built.
pub fn recipient_wrap_kdf_params_for_record_count(record_count: usize) -> (r: Result<
    KdfParams,
    FormatError,
>)
    ensures
        match r {
            Ok(params) => record_count <= u32::MAX && params@ == open_recipient_wrap(
                record_count as int,
            ),
            Err(e) => record_count > u32::MAX && e == FormatError::WriterUnsupported(
                "KeyWrapTableV1 recipient_record_count",
            ),
        },
{
    Ok(
        KdfParams::RecipientWrap {
            key_wrap_table_length: 0,
            key_wrap_table_record_count: u32_len(
                record_count,
                "KeyWrapTableV1 recipient_record_count",
            )?,
            key_wrap_table_version: KEY_WRAP_TABLE_VERSION,
            key_wrap_table_digest: NO_KEY,
        },
    )
}

/// The source to use for the rest of a run, given what the first one answered.
pub open spec fn stabilized_outcome(
    kdf: KdfValue,
    answer: Result<Option<Seq<RecipientValue>>, FormatError>,
) -> Result<Option<Seq<RecipientValue>>, FormatError> {
    match kdf {
        KdfValue::RecipientWrap { .. } => match answer {
            Err(e) => Err(e),
            Ok(None) => Err(
                FormatError::WriterUnsupported("RecipientWrap requires key-wrap records"),
            ),
            Ok(Some(records)) => Ok(Some(records)),
        },
        _ => Ok(None),
    }
}

/// The records of a fixed source.
pub open spec fn fixed_records(r: Result<Option<KeyWrapRecordSource>, FormatError>) -> Result<
    Option<Seq<RecipientValue>>,
    FormatError,
> {
    match r {
        Err(e) => Err(e),
        Ok(Some(KeyWrapRecordSource::Fixed(records))) => Ok(Some(recipient_values(records@))),
        Ok(_) => Ok(None),
    }
}

/// Asks a source once and fixes its answer, so that later uses agree.
pub fn stabilized_key_wrap_record_source(
    kdf_params: &KdfParams,
    key_wrap_records: Option<&KeyWrapRecordSource>,
) -> (r: Result<Option<KeyWrapRecordSource>, FormatError>)
    ensures
        !(kdf_params is RecipientWrap) ==> r matches Ok(None),
        kdf_params is RecipientWrap ==> (r matches Ok(source) ==> source matches Some(s)
            && s is Fixed),
        kdf_params is RecipientWrap ==> exists|
            answer: Result<Option<Seq<RecipientValue>>, FormatError>,
        | #[trigger]
            source_answers(key_wrap_records, answer) && fixed_records(r) == stabilized_outcome(
                kdf_params@,
                answer,
            ),
{
    match kdf_params {
        KdfParams::RecipientWrap { .. } => {},
        _ => {
            return Ok(None);
        },
    }
    let source: &KeyWrapRecordSource = match key_wrap_records {
        Some(source) => source,
        None => {
            assert(source_answers(
                key_wrap_records,
                Ok::<Option<Seq<RecipientValue>>, FormatError>(None),
            ));
            return Err(FormatError::WriterUnsupported("RecipientWrap requires key-wrap records"));
        },
    };
    let resolved: Result<Option<Vec<RecipientRecordV1>>, FormatError> = source.resolve();
    assert(source_answers(key_wrap_records, resolved_value(resolved)));
    match resolved {
        Err(e) => Err(e),
        Ok(None) => Err(FormatError::WriterUnsupported("RecipientWrap requires key-wrap records")),
        Ok(Some(records)) => Ok(Some(KeyWrapRecordSource::fixed(records))),
    }
}

/// Where a table is built, the parameters name it: its length, its record count and its digest.
pub proof fn key_wrap_parameters_name_their_table<C: ArchiveCodec>(
    codec: &C,
    kdf: KdfValue,
    archive_uuid: [u8; 16],
    session_id: [u8; 16],
    answer: Result<Option<Seq<RecipientValue>>, FormatError>,
)
    ensures
        key_wrap_outcome(codec, kdf, archive_uuid, session_id, answer) matches Ok((named, table))
            ==> {
            &&& table is Some <==> kdf is RecipientWrap
            &&& table is None ==> named == kdf
            &&& table matches Some(bytes) ==> named == (KdfValue::RecipientWrap {
                key_wrap_table_length: bytes.len() as u32,
                key_wrap_table_record_count: answer->Ok_0->Some_0.len() as u32,
                key_wrap_table_version: KEY_WRAP_TABLE_VERSION,
                key_wrap_table_digest: codec.key_wrap_table_digest(bytes.len() as u32, bytes),
            })
        },
{
}

/// Completing parameters that are already complete changes nothing.
pub proof fn key_wrap_is_idempotent<C: ArchiveCodec>(
    codec: &C,
    kdf: KdfValue,
    archive_uuid: [u8; 16],
    session_id: [u8; 16],
    answer: Result<Option<Seq<RecipientValue>>, FormatError>,
)
    ensures
        key_wrap_outcome(codec, kdf, archive_uuid, session_id, answer) matches Ok((named, table))
            ==> key_wrap_outcome(codec, named, archive_uuid, session_id, answer) == Ok::<
            (KdfValue, Option<Seq<u8>>),
            FormatError,
        >((named, table)),
{
}

} // verus!
