//! Keys, and the parameters that say where a master key comes from.
use crate::errors::FormatError;
use crate::format::KdfAlgo;
use vstd::prelude::*;

verus! {

/// Thirty-two zero bytes: the key, tag or digest of what has none.
pub const NO_KEY: [u8; 32] = [0, 0, 0, 0, 0, 0, 0, 0, 0, 0, 0, 0, 0, 0, 0, 0, 0, 0, 0, 0, 0, 0, 0, 0, 0, 0, 0, 0, 0, 0, 0, 0];

/// The key that every other key of an archive is derived from.
#[derive(Debug, Clone, Copy, PartialEq, Eq)]
pub struct MasterKey(pub [u8; 32]);

impl MasterKey {
    pub fn from_raw_key(raw: &[u8; 32]) -> (r: Result<MasterKey, FormatError>)
        ensures
            r == Ok::<MasterKey, FormatError>(MasterKey(*raw)),
    {
        Ok(MasterKey(*raw))
    }
}

/// The keys of one archive.
#[derive(Debug, Clone, Copy, PartialEq, Eq)]
pub struct Subkeys {
    pub enc_key: [u8; 32],
    pub nonce_seed: [u8; 32],
    pub index_shard_key: [u8; 32],
    pub index_root_key: [u8; 32],
    pub dictionary_key: [u8; 32],
    pub dir_hint_key: [u8; 32],
    pub index_nonce_seed: [u8; 32],
    pub mac_key: [u8; 32],
}

impl Subkeys {
    /// Stands in for keys where nothing is sealed.
    pub fn unencrypted_placeholder() -> (r: Subkeys)
        ensures
            r == Subkeys::spec_placeholder(),
    {
        Subkeys {
            enc_key: NO_KEY,
            nonce_seed: NO_KEY,
            index_shard_key: NO_KEY,
            index_root_key: NO_KEY,
            dictionary_key: NO_KEY,
            dir_hint_key: NO_KEY,
            index_nonce_seed: NO_KEY,
            mac_key: NO_KEY,
        }
    }

    pub open spec fn spec_placeholder() -> Subkeys {
        Subkeys {
            enc_key: NO_KEY,
            nonce_seed: NO_KEY,
            index_shard_key: NO_KEY,
            index_root_key: NO_KEY,
            dictionary_key: NO_KEY,
            dir_hint_key: NO_KEY,
            index_nonce_seed: NO_KEY,
            mac_key: NO_KEY,
        }
    }
}

/// Where the master key comes from.
#[derive(Debug, Clone, PartialEq, Eq)]
pub enum KdfParams {
    NoKey,
    Raw,
    Argon2id { t_cost: u32, m_cost_kib: u32, parallelism: u32, salt: Vec<u8> },
    RecipientWrap {
        key_wrap_table_length: u32,
        key_wrap_table_record_count: u32,
        key_wrap_table_version: u16,
        key_wrap_table_digest: [u8; 32],
    },
}

/// Key-derivation parameters by content.
pub enum KdfValue {
    NoKey,
    Raw,
    Argon2id { t_cost: u32, m_cost_kib: u32, parallelism: u32, salt: Seq<u8> },
    RecipientWrap {
        key_wrap_table_length: u32,
        key_wrap_table_record_count: u32,
        key_wrap_table_version: u16,
        key_wrap_table_digest: [u8; 32],
    },
}

impl View for KdfParams {
    type V = KdfValue;

    open spec fn view(&self) -> KdfValue {
        match *self {
            KdfParams::NoKey => KdfValue::NoKey,
            KdfParams::Raw => KdfValue::Raw,
            KdfParams::Argon2id { t_cost, m_cost_kib, parallelism, salt } => KdfValue::Argon2id {
                t_cost,
                m_cost_kib,
                parallelism,
                salt: salt@,
            },
            KdfParams::RecipientWrap {
                key_wrap_table_length,
                key_wrap_table_record_count,
                key_wrap_table_version,
                key_wrap_table_digest,
            } => KdfValue::RecipientWrap {
                key_wrap_table_length,
                key_wrap_table_record_count,
                key_wrap_table_version,
                key_wrap_table_digest,
            },
        }
    }
}

impl KdfValue {
    pub open spec fn algo(self) -> KdfAlgo {
        match self {
            KdfValue::NoKey => KdfAlgo::NoKey,
            KdfValue::Raw => KdfAlgo::Raw,
            KdfValue::Argon2id { .. } => KdfAlgo::Argon2id,
            KdfValue::RecipientWrap { .. } => KdfAlgo::RecipientWrap,
        }
    }
}

impl KdfParams {
    pub fn algo(&self) -> (r: KdfAlgo)
        ensures
            r == self@.algo(),
    {
        match self {
            KdfParams::NoKey => KdfAlgo::NoKey,
            KdfParams::Raw => KdfAlgo::Raw,
            KdfParams::Argon2id { .. } => KdfAlgo::Argon2id,
            KdfParams::RecipientWrap { .. } => KdfAlgo::RecipientWrap,
        }
    }

    /// A copy with the same content.
    pub fn duplicate(&self) -> (r: KdfParams)
        ensures
            r@ == self@,
    {
        match self {
            KdfParams::NoKey => KdfParams::NoKey,
            KdfParams::Raw => KdfParams::Raw,
            KdfParams::Argon2id { t_cost, m_cost_kib, parallelism, salt } => KdfParams::Argon2id {
                t_cost: *t_cost,
                m_cost_kib: *m_cost_kib,
                parallelism: *parallelism,
                salt: crate::bytes::to_bytes(salt.as_slice()),
            },
            KdfParams::RecipientWrap {
                key_wrap_table_length,
                key_wrap_table_record_count,
                key_wrap_table_version,
                key_wrap_table_digest,
            } => KdfParams::RecipientWrap {
                key_wrap_table_length: *key_wrap_table_length,
                key_wrap_table_record_count: *key_wrap_table_record_count,
                key_wrap_table_version: *key_wrap_table_version,
                key_wrap_table_digest: *key_wrap_table_digest,
            },
        }
    }
}

} // verus!
