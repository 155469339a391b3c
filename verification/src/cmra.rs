//! The critical-metadata recovery area, which repeats the vital parts of a volume with parity.
use crate::arith::{
    ceil_div, ceil_div_is_least_cover, ceil_div_outcome, checked_u64_add, checked_u64_mul,
    spec_ceil_div, u32_len,
};
use crate::bytes::{append, append_zeros, to_bytes, zeros};
use crate::codec::{contents_of, region_values, ArchiveCodec, WireLayout};
use crate::digest::{sha256, sha256_bytes};
use crate::errors::FormatError;
use crate::format::VOLUME_FORMAT_REV_45;
use crate::keys::NO_KEY;
use crate::object_plan::max;
use crate::options::{opt_bytes, WriterOptions};
use crate::wire::{
    CriticalMetadataLayout, CriticalMetadataRecoveryHeader, Record, RegionValue, SerializedRegion,
};
use vstd::prelude::*;

verus! {

/// Bytes of image in a shard of the area.
pub const CMRA_SHARD_SIZE: usize = 512;

/// Parity shards that an area has at least.
pub const CMRA_MIN_PARITY: u64 = 2;

/// Set in an image whose volume carries a root-authentication footer.
pub const IMAGE_ROOT_AUTH_FLAG: u32 = 1;

/// Set in an image whose volume carries a key-wrap table.
pub const IMAGE_KEY_WRAP_FLAG: u32 = 2;

/// Both of the above.
pub const IMAGE_BOTH_FLAGS: u32 = 3;

/// The parts of a volume that the area repeats, and where they lie.
#[derive(Debug, Clone, Copy)]
pub struct CmraBuildInput<'a> {
    pub volume_format_rev: u16,
    pub volume_header_bytes: &'a [u8],
    pub crypto_header: &'a [u8],
    pub block_count: u64,
    pub block_records_offset: u64,
    pub manifest_footer_offset: u64,
    pub manifest_footer: &'a [u8],
    pub root_auth_footer_offset: Option<u64>,
    pub root_auth_footer: Option<&'a [u8]>,
    pub key_wrap_table: Option<&'a [u8]>,
    pub trailer_offset: u64,
    pub trailer: &'a [u8],
    pub cmra_offset: u64,
    pub options: WriterOptions,
    pub archive_uuid: [u8; 16],
    pub session_id: [u8; 16],
    pub volume_index: u32,
}

/// The same by content.
pub struct CmraInputValue {
    pub volume_format_rev: u16,
    pub volume_header_bytes: Seq<u8>,
    pub crypto_header: Seq<u8>,
    pub block_count: u64,
    pub block_records_offset: u64,
    pub manifest_footer_offset: u64,
    pub manifest_footer: Seq<u8>,
    pub root_auth_footer_offset: Option<u64>,
    pub root_auth_footer: Option<Seq<u8>>,
    pub key_wrap_table: Option<Seq<u8>>,
    pub trailer_offset: u64,
    pub trailer: Seq<u8>,
    pub cmra_offset: u64,
    pub options: WriterOptions,
    pub archive_uuid: [u8; 16],
    pub session_id: [u8; 16],
    pub volume_index: u32,
}

impl<'a> View for CmraBuildInput<'a> {
    type V = CmraInputValue;

    open spec fn view(&self) -> CmraInputValue {
        CmraInputValue {
            volume_format_rev: self.volume_format_rev,
            volume_header_bytes: self.volume_header_bytes@,
            crypto_header: self.crypto_header@,
            block_count: self.block_count,
            block_records_offset: self.block_records_offset,
            manifest_footer_offset: self.manifest_footer_offset,
            manifest_footer: self.manifest_footer@,
            root_auth_footer_offset: self.root_auth_footer_offset,
            root_auth_footer: opt_bytes(self.root_auth_footer),
            key_wrap_table: opt_bytes(self.key_wrap_table),
            trailer_offset: self.trailer_offset,
            trailer: self.trailer@,
            cmra_offset: self.cmra_offset,
            options: self.options,
            archive_uuid: self.archive_uuid,
            session_id: self.session_id,
            volume_index: self.volume_index,
        }
    }
}

impl<'a> CmraBuildInput<'a> {
    /// Whether the fixed-length parts have their lengths.
    pub open spec fn wf(self, layout: WireLayout) -> bool {
        &&& self.volume_header_bytes@.len() == layout.volume_header
        &&& self.manifest_footer@.len() == layout.manifest_footer
        &&& self.trailer@.len() == layout.volume_trailer
        &&& layout.volume_header + self.crypto_header@.len() <= u64::MAX
    }
}

impl CmraInputValue {
    pub open spec fn crypto_end(self, layout: WireLayout) -> int {
        layout.volume_header + self.crypto_header.len()
    }
}

/// A built area.
#[derive(Debug, Clone, PartialEq, Eq)]
pub struct BuiltCmra {
    pub bytes: Vec<u8>,
    pub shard_size: u32,
    pub data_shard_count: u16,
    pub parity_shard_count: u16,
    pub image_length: u32,
    pub image_sha256: [u8; 32],
}

/// A built area by content.
pub struct CmraValue {
    pub bytes: Seq<u8>,
    pub shard_size: u32,
    pub data_shard_count: u16,
    pub parity_shard_count: u16,
    pub image_length: u32,
    pub image_sha256: [u8; 32],
}

impl View for BuiltCmra {
    type V = CmraValue;

    open spec fn view(&self) -> CmraValue {
        CmraValue {
            bytes: self.bytes@,
            shard_size: self.shard_size,
            data_shard_count: self.data_shard_count,
            parity_shard_count: self.parity_shard_count,
            image_length: self.image_length,
            image_sha256: self.image_sha256,
        }
    }
}

// ---------------------------------------------------------------------------------------------
// Parity
// ---------------------------------------------------------------------------------------------

/// Parity shards for `data` shards with a margin of `pct` percent.
pub open spec fn cmra_parity(data: int, pct: int) -> int {
    max(CMRA_MIN_PARITY as int, spec_ceil_div(data * pct, 100))
}

pub open spec fn cmra_parity_outcome(data: int, pct: int) -> Result<u64, FormatError> {
    if data * pct > u64::MAX {
        Err(FormatError::WriterUnsupported("CMRA parity overflow"))
    } else {
        match ceil_div_outcome(data * pct, 100) {
            Err(e) => Err(e),
            Ok(_) => Ok(cmra_parity(data, pct) as u64),
        }
    }
}

pub fn cmra_min_parity_shards(data_shard_count: u64, pct: u8) -> (r: Result<u64, FormatError>)
    ensures
        r == cmra_parity_outcome(data_shard_count as int, pct as int),
{
    let by_pct: u64 = ceil_div(
        checked_u64_mul(data_shard_count, pct as u64, "CMRA parity overflow")?,
        100,
    )?;
    Ok(
        if by_pct > CMRA_MIN_PARITY {
            by_pct
        } else {
            CMRA_MIN_PARITY
        },
    )
}

// ---------------------------------------------------------------------------------------------
// Image
// ---------------------------------------------------------------------------------------------

/// Why the parts of a volume do not lie as an area demands.
pub open spec fn cmra_refusal(input: CmraInputValue, layout: WireLayout) -> Option<FormatError> {
    let manifest_end = input.manifest_footer_offset + layout.manifest_footer;
    let table_len: int = match input.key_wrap_table {
        Some(table) => table.len() as int,
        None => 0,
    };
    if input.key_wrap_table matches Some(table) && table.len() == 0 {
        Some(
            FormatError::WriterInvariant("KeyWrapTableV1 must include at least one recipient record"),
        )
    } else if table_len > u32::MAX {
        Some(FormatError::WriterUnsupported("KeyWrapTableV1 table_length"))
    } else if input.volume_format_rev != VOLUME_FORMAT_REV_45 && input.key_wrap_table is Some {
        Some(FormatError::WriterInvariant("KeyWrapTableV1 requires volume_format_rev 45"))
    } else if input.crypto_end(layout) + table_len > u64::MAX {
        Some(FormatError::WriterUnsupported("KeyWrapTableV1"))
    } else if input.block_records_offset != input.crypto_end(layout) + table_len {
        Some(
            FormatError::WriterInvariant(
                "CMRA block records offset does not match key-wrap table layout",
            ),
        )
    } else if input.block_count * (input.options.block_size + layout.block_record_framing)
        > u64::MAX {
        Some(FormatError::WriterUnsupported("CMRA BlockRecord length overflow"))
    } else if manifest_end > u64::MAX {
        Some(FormatError::WriterUnsupported("CMRA terminal overflow"))
    } else if input.root_auth_footer matches Some(footer) && footer.len() > u32::MAX {
        Some(FormatError::WriterUnsupported("RootAuthFooterV1"))
    } else {
        match terminal_refusal(input, manifest_end) {
            Some(e) => Some(e),
            None => if input.trailer_offset + layout.volume_trailer > u64::MAX {
                Some(FormatError::WriterUnsupported("CMRA terminal overflow"))
            } else if input.trailer_offset + layout.volume_trailer != input.cmra_offset {
                Some(FormatError::WriterInvariant("CMRA does not start after VolumeTrailer"))
            } else if input.crypto_header.len() > u32::MAX {
                Some(FormatError::WriterUnsupported("CryptoHeader"))
            } else {
                None
            },
        }
    }
}

/// Why the terminal parts of a volume do not follow one another.
pub open spec fn terminal_refusal(input: CmraInputValue, manifest_end: int) -> Option<FormatError> {
    match (input.root_auth_footer_offset, input.root_auth_footer) {
        (Some(offset), Some(footer)) => if manifest_end != offset {
            Some(
                FormatError::WriterInvariant(
                    "RootAuthFooter does not sit between ManifestFooter and VolumeTrailer",
                ),
            )
        } else if offset + footer.len() > u64::MAX {
            Some(FormatError::WriterUnsupported("CMRA terminal overflow"))
        } else if offset + footer.len() != input.trailer_offset {
            Some(
                FormatError::WriterInvariant(
                    "RootAuthFooter does not sit between ManifestFooter and VolumeTrailer",
                ),
            )
        } else {
            None
        },
        (None, None) => if manifest_end != input.trailer_offset {
            Some(FormatError::WriterInvariant("ManifestFooter does not end at VolumeTrailer"))
        } else {
            None
        },
        _ => Some(FormatError::WriterInvariant("RootAuthFooter offset/bytes mismatch")),
    }
}

/// A repeated part where it exists.
pub open spec fn optional_region(region_type: u16, offset: int, bytes: Option<Seq<u8>>) -> Seq<
    RegionValue,
> {
    match bytes {
        Some(b) => seq![RegionValue { region_type, offset: offset as u64, bytes: b }],
        None => Seq::empty(),
    }
}

/// The repeated parts in the order of the volume.
pub open spec fn cmra_regions(input: CmraInputValue, layout: WireLayout) -> Seq<RegionValue> {
    let root_auth_offset: int = match input.root_auth_footer_offset {
        Some(offset) => offset as int,
        None => 0,
    };
    seq![
        RegionValue { region_type: 1, offset: 0, bytes: input.volume_header_bytes },
        RegionValue {
            region_type: 2,
            offset: layout.volume_header as u64,
            bytes: input.crypto_header,
        },
    ] + optional_region(6, input.crypto_end(layout), input.key_wrap_table) + seq![
        RegionValue {
            region_type: 3,
            offset: input.manifest_footer_offset,
            bytes: input.manifest_footer,
        },
    ] + optional_region(4, root_auth_offset, input.root_auth_footer) + seq![
        RegionValue { region_type: 5, offset: input.trailer_offset, bytes: input.trailer },
    ]
}

/// The digest of a part, or zeros where there is none.
pub open spec fn optional_digest(bytes: Option<Seq<u8>>) -> [u8; 32] {
    match bytes {
        Some(b) => sha256(b),
        None => NO_KEY,
    }
}

pub open spec fn image_flags(has_root_auth: bool, has_key_wrap: bool) -> u32 {
    if has_root_auth && has_key_wrap {
        IMAGE_BOTH_FLAGS
    } else if has_root_auth {
        IMAGE_ROOT_AUTH_FLAG
    } else if has_key_wrap {
        IMAGE_KEY_WRAP_FLAG
    } else {
        0
    }
}

/// Where the parts of the volume lie, and their digests.
pub open spec fn cmra_layout(input: CmraInputValue, layout: WireLayout) -> CriticalMetadataLayout {
    CriticalMetadataLayout {
        volume_format_rev: input.volume_format_rev,
        archive_uuid: input.archive_uuid,
        session_id: input.session_id,
        volume_index: input.volume_index,
        stripe_width: input.options.stripe_width,
        layout_flags: image_flags(input.root_auth_footer is Some, input.key_wrap_table is Some),
        volume_header_offset: 0,
        volume_header_length: layout.volume_header as u32,
        crypto_header_offset: layout.volume_header as u64,
        crypto_header_length: input.crypto_header.len() as u32,
        key_wrap_table_offset: match input.key_wrap_table {
            Some(_) => input.crypto_end(layout) as u64,
            None => 0,
        },
        key_wrap_table_length: match input.key_wrap_table {
            Some(table) => table.len() as u32,
            None => 0,
        },
        block_records_offset: input.block_records_offset,
        block_records_length: (input.block_count * (input.options.block_size
            + layout.block_record_framing)) as u64,
        block_count: input.block_count,
        manifest_footer_offset: input.manifest_footer_offset,
        manifest_footer_length: layout.manifest_footer as u32,
        root_auth_footer_offset: match input.root_auth_footer_offset {
            Some(offset) => offset,
            None => 0,
        },
        root_auth_footer_length: match input.root_auth_footer {
            Some(footer) => footer.len() as u32,
            None => 0,
        },
        volume_trailer_offset: input.trailer_offset,
        volume_trailer_length: layout.volume_trailer as u32,
        body_bytes_before_cmra: (input.trailer_offset + layout.volume_trailer) as u64,
        volume_header_sha256: sha256(input.volume_header_bytes),
        crypto_header_sha256: sha256(input.crypto_header),
        key_wrap_table_sha256: optional_digest(input.key_wrap_table),
        manifest_footer_sha256: sha256(input.manifest_footer),
        root_auth_footer_sha256: optional_digest(input.root_auth_footer),
        volume_trailer_sha256: sha256(input.trailer),
    }
}

/// The image of the critical parts of a volume.
pub open spec fn cmra_image<C: ArchiveCodec>(codec: &C, input: CmraInputValue) -> Result<
    Seq<u8>,
    FormatError,
> {
    let layout = codec.spec_layout();
    match cmra_refusal(input, layout) {
        Some(e) => Err(e),
        None => codec.image_bytes(cmra_layout(input, layout), cmra_regions(input, layout)),
    }
}

fn optional_sha256(bytes: Option<&[u8]>) -> (r: [u8; 32])
    ensures
        r == optional_digest(opt_bytes(bytes)),
{
    match bytes {
        Some(b) => sha256_bytes(b),
        None => NO_KEY,
    }
}

/// Builds the image of the critical parts of a volume.
#[verifier::rlimit(60)]
pub fn build_cmra_image<C: ArchiveCodec>(codec: &C, input: &CmraBuildInput<'_>) -> (r: Result<
    Vec<u8>,
    FormatError,
>)
    requires
        input.wf(codec.spec_layout()),
    ensures
        crate::errors::bytes_agree(r, cmra_image(codec, input@)),
{
    let layout: WireLayout = codec.layout();
    let block_record_len: u64 = input.options.block_size as u64
        + layout.block_record_framing as u64;
    let crypto_end: u64 = layout.volume_header as u64 + input.crypto_header.len() as u64;
    let key_wrap_table_length: u32 = match input.key_wrap_table {
        Some(table) => {
            if table.len() == 0 {
                return Err(
                    FormatError::WriterInvariant(
                        "KeyWrapTableV1 must include at least one recipient record",
                    ),
                );
            }
            u32_len(table.len(), "KeyWrapTableV1 table_length")?
        },
        None => 0,
    };
    if input.volume_format_rev != VOLUME_FORMAT_REV_45 && input.key_wrap_table.is_some() {
        return Err(FormatError::WriterInvariant("KeyWrapTableV1 requires volume_format_rev 45"));
    }
    let expected_block_records_offset: u64 = checked_u64_add(
        crypto_end,
        key_wrap_table_length as u64,
        "KeyWrapTableV1",
    )?;
    if input.block_records_offset != expected_block_records_offset {
        return Err(
            FormatError::WriterInvariant(
                "CMRA block records offset does not match key-wrap table layout",
            ),
        );
    }
    let block_records_length: u64 = checked_u64_mul(
        input.block_count,
        block_record_len,
        "CMRA BlockRecord length overflow",
    )?;
    let manifest_end: u64 = checked_u64_add(
        input.manifest_footer_offset,
        layout.manifest_footer as u64,
        "CMRA terminal overflow",
    )?;
    let root_auth_footer_length: u32 = match input.root_auth_footer {
        Some(footer) => u32_len(footer.len(), "RootAuthFooterV1")?,
        None => 0,
    };
    match (input.root_auth_footer_offset, input.root_auth_footer) {
        (Some(offset), Some(_)) => {
            if manifest_end != offset {
                return Err(
                    FormatError::WriterInvariant(
                        "RootAuthFooter does not sit between ManifestFooter and VolumeTrailer",
                    ),
                );
            }
            let end: u64 = checked_u64_add(
                offset,
                root_auth_footer_length as u64,
                "CMRA terminal overflow",
            )?;
            if end != input.trailer_offset {
                return Err(
                    FormatError::WriterInvariant(
                        "RootAuthFooter does not sit between ManifestFooter and VolumeTrailer",
                    ),
                );
            }
        },
        (None, None) => {
            if manifest_end != input.trailer_offset {
                return Err(
                    FormatError::WriterInvariant("ManifestFooter does not end at VolumeTrailer"),
                );
            }
        },
        _ => {
            return Err(FormatError::WriterInvariant("RootAuthFooter offset/bytes mismatch"));
        },
    }
    let body_bytes_before_cmra: u64 = checked_u64_add(
        input.trailer_offset,
        layout.volume_trailer as u64,
        "CMRA terminal overflow",
    )?;
    if body_bytes_before_cmra != input.cmra_offset {
        return Err(FormatError::WriterInvariant("CMRA does not start after VolumeTrailer"));
    }
    let crypto_header_length: u32 = u32_len(input.crypto_header.len(), "CryptoHeader")?;

    let mut regions: Vec<SerializedRegion> = Vec::new();
    regions.push(
        SerializedRegion { region_type: 1, offset: 0, bytes: to_bytes(input.volume_header_bytes) },
    );
    regions.push(
        SerializedRegion {
            region_type: 2,
            offset: layout.volume_header as u64,
            bytes: to_bytes(input.crypto_header),
        },
    );
    if let Some(table) = input.key_wrap_table {
        regions.push(
            SerializedRegion { region_type: 6, offset: crypto_end, bytes: to_bytes(table) },
        );
    }
    regions.push(
        SerializedRegion {
            region_type: 3,
            offset: input.manifest_footer_offset,
            bytes: to_bytes(input.manifest_footer),
        },
    );
    if let (Some(offset), Some(footer)) = (input.root_auth_footer_offset, input.root_auth_footer) {
        regions.push(SerializedRegion { region_type: 4, offset, bytes: to_bytes(footer) });
    }
    regions.push(
        SerializedRegion {
            region_type: 5,
            offset: input.trailer_offset,
            bytes: to_bytes(input.trailer),
        },
    );
    assert(region_values(regions@) =~= cmra_regions(input@, layout));
    let layout_flags: u32 = match (input.root_auth_footer, input.key_wrap_table) {
        (Some(_), Some(_)) => IMAGE_BOTH_FLAGS,
        (Some(_), None) => IMAGE_ROOT_AUTH_FLAG,
        (None, Some(_)) => IMAGE_KEY_WRAP_FLAG,
        (None, None) => 0,
    };
    let image_layout: CriticalMetadataLayout = CriticalMetadataLayout {
        volume_format_rev: input.volume_format_rev,
        archive_uuid: input.archive_uuid,
        session_id: input.session_id,
        volume_index: input.volume_index,
        stripe_width: input.options.stripe_width,
        layout_flags,
        volume_header_offset: 0,
        volume_header_length: layout.volume_header as u32,
        crypto_header_offset: layout.volume_header as u64,
        crypto_header_length,
        key_wrap_table_offset: match input.key_wrap_table {
            Some(_) => crypto_end,
            None => 0,
        },
        key_wrap_table_length,
        block_records_offset: input.block_records_offset,
        block_records_length,
        block_count: input.block_count,
        manifest_footer_offset: input.manifest_footer_offset,
        manifest_footer_length: layout.manifest_footer as u32,
        root_auth_footer_offset: match input.root_auth_footer_offset {
            Some(offset) => offset,
            None => 0,
        },
        root_auth_footer_length,
        volume_trailer_offset: input.trailer_offset,
        volume_trailer_length: layout.volume_trailer as u32,
        body_bytes_before_cmra,
        volume_header_sha256: sha256_bytes(input.volume_header_bytes),
        crypto_header_sha256: sha256_bytes(input.crypto_header),
        key_wrap_table_sha256: optional_sha256(input.key_wrap_table),
        manifest_footer_sha256: sha256_bytes(input.manifest_footer),
        root_auth_footer_sha256: optional_sha256(input.root_auth_footer),
        volume_trailer_sha256: sha256_bytes(input.trailer),
    };
    assert(image_layout == cmra_layout(input@, layout));
    codec.encode_image(&image_layout, &regions)
}

// ---------------------------------------------------------------------------------------------
// Shards
// ---------------------------------------------------------------------------------------------

/// How much of the image the `i`-th data shard holds.
pub open spec fn shard_fill(image_len: int, i: int) -> int {
    if image_len - i * CMRA_SHARD_SIZE < CMRA_SHARD_SIZE {
        image_len - i * CMRA_SHARD_SIZE
    } else {
        CMRA_SHARD_SIZE as int
    }
}

/// The `i`-th data shard: its part of the image, filled up with zeros.
pub open spec fn data_shard(image: Seq<u8>, i: int) -> Seq<u8> {
    let start = i * CMRA_SHARD_SIZE;
    let fill = shard_fill(image.len() as int, i);
    image.subrange(start, start + fill) + zeros(CMRA_SHARD_SIZE - fill)
}

pub open spec fn data_shards(image: Seq<u8>, count: int) -> Seq<Seq<u8>> {
    Seq::new(count as nat, |i: int| data_shard(image, i))
}

/// The `i`-th shard of the area: data first, then parity.
pub open spec fn written_shard<C: ArchiveCodec>(
    codec: &C,
    image: Seq<u8>,
    data_count: int,
    parity: Seq<Seq<u8>>,
    i: int,
) -> Result<Seq<u8>, FormatError> {
    if i < data_count {
        codec.recovery_shard_bytes(
            i as u16,
            0,
            shard_fill(image.len() as int, i) as u32,
            data_shard(image, i),
        )
    } else if i > u16::MAX {
        Err(FormatError::WriterUnsupported("CMRA shard index"))
    } else {
        codec.recovery_shard_bytes(i as u16, 1, CMRA_SHARD_SIZE as u32, parity[i - data_count])
    }
}

/// The first `count` shards of the area one behind the other, or the first error among them.
pub open spec fn written_shards<C: ArchiveCodec>(
    codec: &C,
    image: Seq<u8>,
    data_count: int,
    parity: Seq<Seq<u8>>,
    count: nat,
) -> Result<Seq<u8>, FormatError>
    decreases count,
{
    if count == 0 {
        Ok(Seq::empty())
    } else {
        match written_shards(codec, image, data_count, parity, (count - 1) as nat) {
            Err(e) => Err(e),
            Ok(before) => match written_shard(codec, image, data_count, parity, count - 1) {
                Err(e) => Err(e),
                Ok(shard) => Ok(before + shard),
            },
        }
    }
}

proof fn first_error_stays<C: ArchiveCodec>(
    codec: &C,
    image: Seq<u8>,
    data_count: int,
    parity: Seq<Seq<u8>>,
    count: nat,
    total: nat,
)
    requires
        count <= total,
        written_shards(codec, image, data_count, parity, count) is Err,
    ensures
        written_shards(codec, image, data_count, parity, total) == written_shards(
            codec,
            image,
            data_count,
            parity,
            count,
        ),
    decreases total,
{
    if count < total {
        first_error_stays(codec, image, data_count, parity, count, (total - 1) as nat);
    }
}

/// The area over an image.
pub open spec fn area_of_image<C: ArchiveCodec>(
    codec: &C,
    image: Seq<u8>,
    bit_rot_pct: u8,
    max_pct: u8,
    archive_uuid: [u8; 16],
    session_id: [u8; 16],
    volume_index: u32,
) -> Result<CmraValue, FormatError> {
    match ceil_div_outcome(image.len() as int, CMRA_SHARD_SIZE as int) {
        Err(e) => Err(e),
        Ok(n) => if n > u16::MAX {
            Err(FormatError::WriterUnsupported("CMRA data shard count"))
        } else {
            let lower = cmra_parity(n as int, bit_rot_pct as int);
            if lower > cmra_parity(n as int, max_pct as int) {
                Err(FormatError::WriterUnsupported("CMRA parity bounds"))
            } else if lower > u16::MAX {
                Err(FormatError::WriterUnsupported("CMRA parity shard count"))
            } else {
                let header = CriticalMetadataRecoveryHeader {
                    shard_size: CMRA_SHARD_SIZE as u32,
                    data_shard_count: n as u16,
                    parity_shard_count: lower as u16,
                    image_length: image.len() as u32,
                    archive_uuid_hint: archive_uuid,
                    session_id_hint: session_id,
                    volume_index_hint: volume_index,
                    image_sha256: sha256(image),
                    header_crc32c: 0,
                };
                match codec.parity(data_shards(image, n as int), lower as nat) {
                    Err(e) => Err(e),
                    Ok(parity) => match written_shards(
                        codec,
                        image,
                        n as int,
                        parity,
                        (n + lower) as nat,
                    ) {
                        Err(e) => Err(e),
                        Ok(shards) => Ok(
                            CmraValue {
                                bytes: codec.encoded(Record::RecoveryHeader(header)) + shards,
                                shard_size: CMRA_SHARD_SIZE as u32,
                                data_shard_count: n as u16,
                                parity_shard_count: lower as u16,
                                image_length: image.len() as u32,
                                image_sha256: sha256(image),
                            },
                        ),
                    },
                }
            }
        },
    }
}

pub open spec fn cmra_outcome<C: ArchiveCodec>(codec: &C, input: CmraInputValue, max_pct: u8) -> Result<
    CmraValue,
    FormatError,
> {
    match cmra_image(codec, input) {
        Err(e) => Err(e),
        Ok(image) => area_of_image(
            codec,
            image,
            input.options.bit_rot_buffer_pct,
            max_pct,
            input.archive_uuid,
            input.session_id,
            input.volume_index,
        ),
    }
}

pub open spec fn cmra_agree(
    r: Result<BuiltCmra, FormatError>,
    s: Result<CmraValue, FormatError>,
) -> bool {
    match (r, s) {
        (Ok(v), Ok(w)) => v@ == w,
        (Err(e), Err(f)) => e == f,
        _ => false,
    }
}

/// A data shard lies within the image.
pub proof fn shard_bounds(len: int, i: int)
    requires
        len >= 0,
        0 <= i < spec_ceil_div(len, CMRA_SHARD_SIZE as int),
    ensures
        0 <= i * CMRA_SHARD_SIZE < len,
        0 < shard_fill(len, i) <= CMRA_SHARD_SIZE,
        i * CMRA_SHARD_SIZE + shard_fill(len, i) <= len,
        i < spec_ceil_div(len, CMRA_SHARD_SIZE as int) - 1 ==> shard_fill(len, i)
            == CMRA_SHARD_SIZE,
{
}

/// Cuts an image into data shards.
fn cut_data_shards(image: &Vec<u8>, count: usize) -> (r: Vec<Vec<u8>>)
    requires
        count == spec_ceil_div(image@.len() as int, CMRA_SHARD_SIZE as int),
        count <= u16::MAX,
    ensures
        contents_of(r@) == data_shards(image@, count as int),
        r@.len() == count,
{
    let mut shards: Vec<Vec<u8>> = Vec::new();
    let mut i: usize = 0;
    while i < count
        invariant
            i <= count,
            count == spec_ceil_div(image@.len() as int, CMRA_SHARD_SIZE as int),
            count <= u16::MAX,
            shards@.len() == i,
            forall|k: int| 0 <= k < i ==> (#[trigger] shards@[k])@ == data_shard(image@, k),
        decreases count - i,
    {
        proof {
            shard_bounds(image@.len() as int, i as int);
        }
        let start: usize = i * CMRA_SHARD_SIZE;
        let end: usize = if image.len() - start < CMRA_SHARD_SIZE {
            image.len()
        } else {
            start + CMRA_SHARD_SIZE
        };
        let mut shard: Vec<u8> = to_bytes(
            vstd::slice::slice_subrange(image.as_slice(), start, end),
        );
        append_zeros(&mut shard, CMRA_SHARD_SIZE - (end - start));
        assert(shard@ =~= data_shard(image@, i as int));
        shards.push(shard);
        i = i + 1;
    }
    assert(contents_of(shards@) =~= data_shards(image@, count as int));
    shards
}

/// The area over an image.
#[verifier::rlimit(60)]
#[verifier::loop_isolation(false)]
pub fn build_area_of_image<C: ArchiveCodec>(
    codec: &C,
    image: &Vec<u8>,
    bit_rot_pct: u8,
    max_pct: u8,
    archive_uuid: [u8; 16],
    session_id: [u8; 16],
    volume_index: u32,
) -> (r: Result<BuiltCmra, FormatError>)
    ensures
        cmra_agree(
            r,
            area_of_image(
                codec,
                image@,
                bit_rot_pct,
                max_pct,
                archive_uuid,
                session_id,
                volume_index,
            ),
        ),
{
    let image_sha256: [u8; 32] = sha256_bytes(image.as_slice());
    let data_shard_count: u64 = ceil_div(image.len() as u64, CMRA_SHARD_SIZE as u64)?;
    if data_shard_count > u16::MAX as u64 {
        return Err(FormatError::WriterUnsupported("CMRA data shard count"));
    }
    proof {
        let n = data_shard_count as int;
        assert(n * bit_rot_pct <= 65_535 * 255) by (nonlinear_arith)
            requires
                0 <= n <= 65_535,
                0 <= bit_rot_pct <= 255,
        ;
        assert(n * max_pct <= 65_535 * 255) by (nonlinear_arith)
            requires
                0 <= n <= 65_535,
                0 <= max_pct <= 255,
        ;
    }
    let parity_lower: u64 = cmra_min_parity_shards(data_shard_count, bit_rot_pct)?;
    let parity_upper: u64 = cmra_min_parity_shards(data_shard_count, max_pct)?;
    if parity_lower > parity_upper {
        return Err(FormatError::WriterUnsupported("CMRA parity bounds"));
    }
    if parity_lower > u16::MAX as u64 {
        return Err(FormatError::WriterUnsupported("CMRA parity shard count"));
    }
    let image_length: u32 = u32_len(image.len(), "CriticalMetadataImageV1")?;
    let count: usize = data_shard_count as usize;
    let shards: Vec<Vec<u8>> = cut_data_shards(image, count);
    let parity_shards: Vec<Vec<u8>> = codec.encode_parity(&shards, parity_lower as usize)?;
    let ghost parity = contents_of(parity_shards@);
    let ghost total = (data_shard_count + parity_lower) as nat;
    let header: CriticalMetadataRecoveryHeader = CriticalMetadataRecoveryHeader {
        shard_size: CMRA_SHARD_SIZE as u32,
        data_shard_count: data_shard_count as u16,
        parity_shard_count: parity_lower as u16,
        image_length,
        archive_uuid_hint: archive_uuid,
        session_id_hint: session_id,
        volume_index_hint: volume_index,
        image_sha256,
        header_crc32c: 0,
    };
    let mut cmra: Vec<u8> = codec.encode(&Record::RecoveryHeader(header));
    let ghost start = cmra@;
    let mut i: usize = 0;
    assert(cmra@ =~= start + Seq::<u8>::empty());
    while i < count
        invariant
            i <= count,
            written_shards(codec, image@, count as int, parity, i as nat) matches Ok(before)
                && cmra@ == start + before,
        decreases count - i,
    {
        proof {
            shard_bounds(image@.len() as int, i as int);
            assert(contents_of(shards@)[i as int] == shards@[i as int]@);
            if written_shards(codec, image@, count as int, parity, (i + 1) as nat) is Err {
                first_error_stays(codec, image@, count as int, parity, (i + 1) as nat, total);
            }
        }
        let payload_len: usize = if image.len() - i * CMRA_SHARD_SIZE < CMRA_SHARD_SIZE {
            image.len() - i * CMRA_SHARD_SIZE
        } else {
            CMRA_SHARD_SIZE
        };
        let bytes: Vec<u8> = codec.encode_recovery_shard(
            i as u16,
            0,
            payload_len as u32,
            shards[i].as_slice(),
        )?;
        let ghost before = cmra@;
        append(&mut cmra, bytes.as_slice());
        proof {
            let done = written_shards(codec, image@, count as int, parity, i as nat)->Ok_0;
            assert(start + (done + bytes@) =~= (start + done) + bytes@);
        }
        i = i + 1;
    }
    let mut j: usize = 0;
    while j < parity_shards.len()
        invariant
            j <= parity_shards.len(),
            written_shards(codec, image@, count as int, parity, (count + j) as nat) matches Ok(
                before,
            ) && cmra@ == start + before,
        decreases parity_shards.len() - j,
    {
        proof {
            assert(parity[j as int] == parity_shards@[j as int]@);
            if written_shards(codec, image@, count as int, parity, (count + j + 1) as nat) is Err {
                first_error_stays(
                    codec,
                    image@,
                    count as int,
                    parity,
                    (count + j + 1) as nat,
                    total,
                );
            }
        }
        let shard_index: usize = count + j;
        if shard_index > u16::MAX as usize {
            return Err(FormatError::WriterUnsupported("CMRA shard index"));
        }
        let bytes: Vec<u8> = codec.encode_recovery_shard(
            shard_index as u16,
            1,
            CMRA_SHARD_SIZE as u32,
            parity_shards[j].as_slice(),
        )?;
        append(&mut cmra, bytes.as_slice());
        proof {
            let done = written_shards(
                codec,
                image@,
                count as int,
                parity,
                (count + j) as nat,
            )->Ok_0;
            assert(start + (done + bytes@) =~= (start + done) + bytes@);
        }
        j = j + 1;
    }
    Ok(
        BuiltCmra {
            bytes: cmra,
            shard_size: CMRA_SHARD_SIZE as u32,
            data_shard_count: data_shard_count as u16,
            parity_shard_count: parity_lower as u16,
            image_length,
            image_sha256,
        },
    )
}

/// The recovery area of a volume.
pub fn build_v45_cmra<C: ArchiveCodec>(codec: &C, input: &CmraBuildInput<'_>, max_parity_pct: u8) -> (r:
    Result<BuiltCmra, FormatError>)
    requires
        input.wf(codec.spec_layout()),
    ensures
        cmra_agree(r, cmra_outcome(codec, input@, max_parity_pct)),
{
    let image: Vec<u8> = build_cmra_image(codec, input)?;
    build_area_of_image(
        codec,
        &image,
        input.options.bit_rot_buffer_pct,
        max_parity_pct,
        input.archive_uuid,
        input.session_id,
        input.volume_index,
    )
}

/// A volume without a key-wrap table has its blocks right behind the crypto header.
pub open spec fn without_key_wrap(input: CmraInputValue, layout: WireLayout) -> CmraInputValue {
    CmraInputValue {
        key_wrap_table: None,
        block_records_offset: input.crypto_end(layout) as u64,
        ..input
    }
}

/// The recovery area of a volume that has no key-wrap table.
pub fn build_v41_cmra<C: ArchiveCodec>(codec: &C, input: &CmraBuildInput<'_>, max_parity_pct: u8) -> (r:
    Result<BuiltCmra, FormatError>)
    requires
        input.wf(codec.spec_layout()),
    ensures
        cmra_agree(
            r,
            cmra_outcome(codec, without_key_wrap(input@, codec.spec_layout()), max_parity_pct),
        ),
{
    let layout: WireLayout = codec.layout();
    let plain: CmraBuildInput<'_> = CmraBuildInput {
        key_wrap_table: None,
        block_records_offset: layout.volume_header as u64 + input.crypto_header.len() as u64,
        ..*input
    };
    build_v45_cmra(codec, &plain, max_parity_pct)
}

// ---------------------------------------------------------------------------------------------
// Laws
// ---------------------------------------------------------------------------------------------

/// An area always has two parity shards or more, and at least the requested share of its data.
pub proof fn cmra_parity_meets_the_margin<C: ArchiveCodec>(
    codec: &C,
    input: CmraInputValue,
    max_pct: u8,
)
    ensures
        cmra_outcome(codec, input, max_pct) matches Ok(area) ==> {
            &&& area.parity_shard_count >= CMRA_MIN_PARITY
            &&& area.parity_shard_count * 100 >= area.data_shard_count
                * input.options.bit_rot_buffer_pct
        },
{
    if let Ok(area) = cmra_outcome(codec, input, max_pct) {
        let need = area.data_shard_count * input.options.bit_rot_buffer_pct;
        assert(need >= 0) by (nonlinear_arith)
            requires
                need == area.data_shard_count * input.options.bit_rot_buffer_pct,
        ;
        ceil_div_is_least_cover(need, 100);
    }
}

/// The data shards of an area hold the whole image, each byte in its place.
pub proof fn cmra_shards_hold_the_image(image: Seq<u8>, i: int)
    requires
        0 <= i < image.len(),
    ensures
        ({
            let shards = data_shards(
                image,
                spec_ceil_div(image.len() as int, CMRA_SHARD_SIZE as int),
            );
            &&& 0 <= i / 512 < shards.len()
            &&& shards[i / 512][i % 512] == image[i]
        }),
{
    let len = image.len() as int;
    let n = spec_ceil_div(len, CMRA_SHARD_SIZE as int);
    let k = i / 512;
    let at = i % 512;
    assert(i == 512 * k + at && 0 <= at < 512 && 0 <= k);
    assert(k < n) by {
        assert((len + 511) / 512 >= (i + 512) / 512);
        assert((i + 512) / 512 == k + 1);
    }
    assert(k * CMRA_SHARD_SIZE == 512 * k);
    shard_bounds(len, k);
    let fill = shard_fill(len, k);
    assert(at < fill);
    let part = image.subrange(512 * k, 512 * k + fill);
    assert(part[at] == image[512 * k + at]);
    assert(data_shard(image, k)[at] == part[at]);
    assert(data_shards(image, n)[k] == data_shard(image, k));
}

/// Where an area is built, the terminal parts of the volume follow one another without a gap and
/// the area starts right behind them.
pub proof fn terminal_parts_are_contiguous<C: ArchiveCodec>(
    codec: &C,
    input: CmraInputValue,
    max_pct: u8,
)
    requires
        cmra_outcome(codec, input, max_pct) is Ok,
    ensures
        ({
            let layout = codec.spec_layout();
            let manifest_end = input.manifest_footer_offset + layout.manifest_footer;
            let root_auth_end = match input.root_auth_footer {
                Some(footer) => manifest_end + footer.len(),
                None => manifest_end,
            };
            &&& input.root_auth_footer is Some <==> input.root_auth_footer_offset is Some
            &&& input.root_auth_footer_offset matches Some(offset) ==> offset == manifest_end
            &&& input.trailer_offset == root_auth_end
            &&& input.cmra_offset == input.trailer_offset + layout.volume_trailer
        }),
{
}

} // verus!
