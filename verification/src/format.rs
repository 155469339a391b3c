//! The algorithms and identifiers that an archive records about itself.
use vstd::prelude::*;

verus! {

/// Length of one tar record.
pub const TAR_BLOCK_LEN: usize = 512;

/// Smallest block size that the writer accepts.
pub const MIN_BLOCK_SIZE: u32 = 4096;

/// Largest number of shards of one Reed-Solomon code over GF(2^16).
pub const MAX_REED_SOLOMON_GF16_SHARDS: u64 = 65_535;

/// The volume format revision that the writer emits.
pub const VOLUME_FORMAT_REV_45: u16 = 45;

/// Length of the terminator that closes the extension area of a crypto header.
pub const CRYPTO_EXTENSION_HEADER_LEN: usize = 6;

/// Length of the tag that closes a crypto header.
pub const CRYPTO_HEADER_HMAC_LEN: usize = 32;

/// How object payloads are sealed.
#[derive(Debug, Clone, Copy, PartialEq, Eq, Structural)]
pub enum AeadAlgo {
    Unsealed,
    AesGcmSiv256,
}

impl AeadAlgo {
    pub open spec fn spec_tag_len(self) -> nat {
        match self {
            AeadAlgo::Unsealed => 0,
            AeadAlgo::AesGcmSiv256 => 16,
        }
    }

    /// Bytes that sealing adds to a payload.
    pub fn tag_len(self) -> (r: usize)
        ensures
            r == self.spec_tag_len(),
    {
        match self {
            AeadAlgo::Unsealed => 0,
            AeadAlgo::AesGcmSiv256 => 16,
        }
    }

    pub open spec fn spec_nonce_len(self) -> nat {
        match self {
            AeadAlgo::Unsealed => 0,
            AeadAlgo::AesGcmSiv256 => 12,
        }
    }

    /// Length of the nonce that sealing takes.
    pub fn nonce_len(self) -> (r: usize)
        ensures
            r == self.spec_nonce_len(),
    {
        match self {
            AeadAlgo::Unsealed => 0,
            AeadAlgo::AesGcmSiv256 => 12,
        }
    }

    pub open spec fn spec_is_encrypted(self) -> bool {
        self != AeadAlgo::Unsealed
    }

    pub fn is_encrypted(self) -> (r: bool)
        ensures
            r == self.spec_is_encrypted(),
    {
        match self {
            AeadAlgo::Unsealed => false,
            AeadAlgo::AesGcmSiv256 => true,
        }
    }
}

/// How the master key is obtained.
#[derive(Debug, Clone, Copy, PartialEq, Eq, Structural)]
pub enum KdfAlgo {
    NoKey,
    Raw,
    Argon2id,
    RecipientWrap,
}

#[derive(Debug, Clone, Copy, PartialEq, Eq, Structural)]
pub enum CompressionAlgo {
    ZstdFramed,
}

#[derive(Debug, Clone, Copy, PartialEq, Eq, Structural)]
pub enum FecAlgo {
    ReedSolomonGF16,
}

/// What a block of a volume holds.
#[derive(Debug, Clone, Copy, PartialEq, Eq, Structural)]
pub enum BlockKind {
    PayloadData,
    PayloadParity,
    IndexShardData,
    IndexShardParity,
    DictionaryData,
    DictionaryParity,
    DirectoryHintData,
    DirectoryHintParity,
    IndexRootData,
    IndexRootParity,
}

impl BlockKind {
    pub open spec fn spec_is_data(self) -> bool {
        self == BlockKind::PayloadData || self == BlockKind::IndexShardData || self
            == BlockKind::DictionaryData || self == BlockKind::DirectoryHintData || self
            == BlockKind::IndexRootData
    }

    /// Whether a block of this kind carries object bytes rather than recovery bytes.
    pub fn is_data(self) -> (r: bool)
        ensures
            r == self.spec_is_data(),
    {
        match self {
            BlockKind::PayloadData => true,
            BlockKind::IndexShardData => true,
            BlockKind::DictionaryData => true,
            BlockKind::DirectoryHintData => true,
            BlockKind::IndexRootData => true,
            BlockKind::PayloadParity => false,
            BlockKind::IndexShardParity => false,
            BlockKind::DictionaryParity => false,
            BlockKind::DirectoryHintParity => false,
            BlockKind::IndexRootParity => false,
        }
    }
}

} // verus!
