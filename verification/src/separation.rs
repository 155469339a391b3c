//! Objects of an archive are sealed apart: each domain under a key of its own, each object under a
//! number of its own.
use crate::codec::ObjectDomain;
use crate::keys::Subkeys;
use crate::objects::ArchiveSeal;
use crate::options::WriterOptions;
use vstd::prelude::*;

verus! {

/// Whether the keys that objects are sealed under differ from one another.
pub open spec fn keys_differ(keys: Subkeys) -> bool {
    &&& keys.enc_key != keys.index_shard_key
    &&& keys.enc_key != keys.index_root_key
    &&& keys.enc_key != keys.dictionary_key
    &&& keys.enc_key != keys.dir_hint_key
    &&& keys.index_shard_key != keys.index_root_key
    &&& keys.index_shard_key != keys.dictionary_key
    &&& keys.index_shard_key != keys.dir_hint_key
    &&& keys.index_root_key != keys.dictionary_key
    &&& keys.index_root_key != keys.dir_hint_key
    &&& keys.dictionary_key != keys.dir_hint_key
}

/// Two objects are sealed under one context only where they are of one domain and one number. Where
/// the keys differ, objects of one key are of one domain; and so are objects whose data blocks, or
/// whose parity blocks, are of one kind. Data blocks carry object bytes, parity blocks do not.
pub proof fn objects_are_sealed_apart(
    seal: ArchiveSeal,
    domain: ObjectDomain,
    counter: u64,
    other_domain: ObjectDomain,
    other_counter: u64,
    o: WriterOptions,
)
    ensures
        ({
            let a = seal.spec_context(domain, counter, o);
            let b = seal.spec_context(other_domain, other_counter, o);
            &&& a.seal == b.seal <==> domain == other_domain && counter == other_counter
            &&& keys_differ(seal.subkeys) ==> (a.key == b.key <==> domain == other_domain)
            &&& a.data_kind == b.data_kind <==> domain == other_domain
            &&& a.parity_kind == b.parity_kind <==> domain == other_domain
            &&& a.data_kind.spec_is_data() && !a.parity_kind.spec_is_data()
            &&& a.seal.archive_uuid == seal.archive_uuid
            &&& a.seal.session_id == seal.session_id
        }),
{
}

/// Objects of two archives, or of two sessions of one archive, are never sealed under one context.
pub proof fn archives_are_sealed_apart(
    seal: ArchiveSeal,
    other: ArchiveSeal,
    domain: ObjectDomain,
    counter: u64,
    other_domain: ObjectDomain,
    other_counter: u64,
    o: WriterOptions,
    other_o: WriterOptions,
)
    requires
        seal.archive_uuid != other.archive_uuid || seal.session_id != other.session_id,
    ensures
        seal.spec_context(domain, counter, o).seal != other.spec_context(
            other_domain,
            other_counter,
            other_o,
        ).seal,
{
}

} // verus!
