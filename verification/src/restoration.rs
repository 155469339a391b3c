//! The end of a volume: a reader that starts from the last bytes finds the recovery area, the trailer
//! and the manifest footer, and the recovery area repeats what it stands for.
use crate::accounting::keeps_its_layout;
use crate::arith::{ceil_div_is_least_cover, spec_ceil_div};
use crate::cmra::{
    area_of_image, cmra_image, cmra_layout, cmra_outcome, cmra_refusal, cmra_regions, data_shard,
    data_shards, shard_bounds, shard_fill, written_shard, written_shards, CMRA_SHARD_SIZE,
    CmraInputValue, CmraValue,
};
use crate::codec::{
    ArchiveCodec, HmacDomain, MANIFEST_FOOTER_COVERED, TagContext, VOLUME_TRAILER_COVERED,
    WireLayout,
};
use crate::digest::sha256;
use crate::emit::Emission;
use crate::errors::FormatError;
use crate::headers::{manifest_record, trailer_outcome, trailer_record};
use crate::keys::{NO_KEY, Subkeys};
use crate::object_plan::ObjectExtent;
use crate::options::ReaderCaps;
use crate::plan::PlanValue;
use crate::recovery::{is_coded, is_enough_of, joined_shards, rebuilds, Rebuilder};
use crate::sizes::keeps_lengths;
use crate::suffix::{
    cmra_input, locator_record, plan_manifest, trailer_input, with_footer, with_part, with_tail,
    TailOffsets,
};
use crate::wire::{
    CriticalMetadataLayout, CriticalMetadataRecoveryHeader, CriticalRecoveryLocator, ManifestFooter,
    Record, RegionValue, VolumeTrailer,
};
use vstd::prelude::*;

verus! {

// ---------------------------------------------------------------------------------------------
// Parts of a volume
// ---------------------------------------------------------------------------------------------

/// Whether `part` lies in a volume at an offset.
pub open spec fn lies_at(volume: Seq<u8>, offset: int, part: Seq<u8>) -> bool {
    &&& 0 <= offset
    &&& offset + part.len() <= volume.len()
    &&& volume.subrange(offset, offset + part.len()) == part
}

/// A part, or nothing where there is none.
pub open spec fn part_or_nothing(part: Option<Seq<u8>>) -> Seq<u8> {
    match part {
        Some(bytes) => bytes,
        None => Seq::empty(),
    }
}

proof fn parts_lie_where_they_were_put(before: Seq<u8>, part: Seq<u8>, after: Seq<u8>)
    ensures
        lies_at(before + part + after, before.len() as int, part),
{
    let whole = before + part + after;
    assert(whole.subrange(before.len() as int, (before.len() + part.len()) as int) =~= part);
}

proof fn parts_stay(volume: Seq<u8>, offset: int, part: Seq<u8>, more: Seq<u8>)
    requires
        lies_at(volume, offset, part),
    ensures
        lies_at(volume + more, offset, part),
{
    assert((volume + more).subrange(offset, offset + part.len()) =~= volume.subrange(
        offset,
        offset + part.len(),
    ));
}

// ---------------------------------------------------------------------------------------------
// The image of a volume
// ---------------------------------------------------------------------------------------------

/// Whether some region of an image is of a type, lies where the image says and has the length and the
/// digest that the image states.
pub open spec fn has_region(
    regions: Seq<RegionValue>,
    region_type: u16,
    offset: u64,
    length: u32,
    digest: [u8; 32],
) -> bool {
    exists|k: int|
        {
            &&& 0 <= k < regions.len()
            &&& (#[trigger] regions[k]).region_type == region_type
            &&& regions[k].offset == offset
            &&& regions[k].bytes.len() == length
            &&& sha256(regions[k].bytes) == digest
        }
}

/// Whether the regions of an image repeat a volume: each lies in the volume where it says, no type of
/// region occurs twice, and the header, the crypto header, the manifest footer, the trailer and, as
/// its flags say, the key-wrap table and the root-authentication footer are among them. Together with
/// the blocks they cover the volume up to the recovery area, without a gap.
pub open spec fn repeats_the_volume(
    volume: Seq<u8>,
    image: CriticalMetadataLayout,
    regions: Seq<RegionValue>,
) -> bool {
    let has_footer = image.layout_flags == 1 || image.layout_flags == 3;
    let has_table = image.layout_flags == 2 || image.layout_flags == 3;
    &&& forall|k: int|
        0 <= k < regions.len() ==> lies_at(
            volume,
            (#[trigger] regions[k]).offset as int,
            regions[k].bytes,
        )
    &&& forall|i: int, k: int|
        0 <= i < k < regions.len() ==> (#[trigger] regions[i]).region_type != (
        #[trigger] regions[k]).region_type
    &&& has_region(
        regions,
        1,
        image.volume_header_offset,
        image.volume_header_length,
        image.volume_header_sha256,
    )
    &&& has_region(
        regions,
        2,
        image.crypto_header_offset,
        image.crypto_header_length,
        image.crypto_header_sha256,
    )
    &&& has_region(
        regions,
        3,
        image.manifest_footer_offset,
        image.manifest_footer_length,
        image.manifest_footer_sha256,
    )
    &&& has_region(
        regions,
        5,
        image.volume_trailer_offset,
        image.volume_trailer_length,
        image.volume_trailer_sha256,
    )
    &&& has_footer ==> has_region(
        regions,
        4,
        image.root_auth_footer_offset,
        image.root_auth_footer_length,
        image.root_auth_footer_sha256,
    )
    &&& has_table ==> has_region(
        regions,
        6,
        image.key_wrap_table_offset,
        image.key_wrap_table_length,
        image.key_wrap_table_sha256,
    )
    &&& regions.len() == 4 + (if has_footer {
        1int
    } else {
        0
    }) + (if has_table {
        1int
    } else {
        0
    })
    &&& image.volume_header_offset == 0
    &&& image.crypto_header_offset == image.volume_header_length
    &&& has_table ==> image.key_wrap_table_offset == image.crypto_header_offset
        + image.crypto_header_length
    &&& image.block_records_offset == image.crypto_header_offset + image.crypto_header_length
        + image.key_wrap_table_length
    &&& !has_table ==> image.key_wrap_table_length == 0
    &&& has_footer ==> image.root_auth_footer_offset == image.manifest_footer_offset
        + image.manifest_footer_length
    &&& image.volume_trailer_offset == image.manifest_footer_offset + image.manifest_footer_length
        + image.root_auth_footer_length
    &&& !has_footer ==> image.root_auth_footer_length == 0
    &&& image.body_bytes_before_cmra == image.volume_trailer_offset + image.volume_trailer_length
}

/// Whether what a recovery area is built from lies in a volume where it says.
pub open spec fn lies_in(input: CmraInputValue, layout: WireLayout, volume: Seq<u8>) -> bool {
    &&& input.volume_header_bytes.len() == layout.volume_header
    &&& input.manifest_footer.len() == layout.manifest_footer
    &&& input.trailer.len() == layout.volume_trailer
    &&& lies_at(volume, 0, input.volume_header_bytes)
    &&& lies_at(volume, layout.volume_header as int, input.crypto_header)
    &&& input.key_wrap_table matches Some(table) ==> lies_at(
        volume,
        layout.volume_header + input.crypto_header.len(),
        table,
    )
    &&& lies_at(volume, input.manifest_footer_offset as int, input.manifest_footer)
    &&& input.root_auth_footer matches Some(footer) ==> (
    input.root_auth_footer_offset matches Some(offset) ==> lies_at(volume, offset as int, footer))
    &&& lies_at(volume, input.trailer_offset as int, input.trailer)
}

/// The image that a recovery area holds repeats the volume that it is built for.
pub proof fn images_repeat_the_volume(input: CmraInputValue, layout: WireLayout, volume: Seq<u8>)
    requires
        cmra_refusal(input, layout) is None,
        lies_in(input, layout, volume),
    ensures
        repeats_the_volume(volume, cmra_layout(input, layout), cmra_regions(input, layout)),
{
    let image = cmra_layout(input, layout);
    let regions = cmra_regions(input, layout);
    let head = RegionValue { region_type: 1, offset: 0, bytes: input.volume_header_bytes };
    let crypto = RegionValue {
        region_type: 2,
        offset: image.crypto_header_offset,
        bytes: input.crypto_header,
    };
    let manifest = RegionValue {
        region_type: 3,
        offset: input.manifest_footer_offset,
        bytes: input.manifest_footer,
    };
    let trailer = RegionValue {
        region_type: 5,
        offset: input.trailer_offset,
        bytes: input.trailer,
    };
    let table = RegionValue {
        region_type: 6,
        offset: (layout.volume_header + input.crypto_header.len()) as u64,
        bytes: part_or_nothing(input.key_wrap_table),
    };
    let footer = RegionValue {
        region_type: 4,
        offset: image.root_auth_footer_offset,
        bytes: part_or_nothing(input.root_auth_footer),
    };
    match (input.key_wrap_table, input.root_auth_footer) {
        (None, None) => {
            assert(regions =~= seq![head, crypto, manifest, trailer]);
            assert(regions[0] == head && regions[1] == crypto && regions[2] == manifest
                && regions[3] == trailer);
        },
        (Some(_), None) => {
            assert(regions =~= seq![head, crypto, table, manifest, trailer]);
            assert(regions[0] == head && regions[1] == crypto && regions[2] == table && regions[3]
                == manifest && regions[4] == trailer);
        },
        (None, Some(_)) => {
            assert(regions =~= seq![head, crypto, manifest, footer, trailer]);
            assert(regions[0] == head && regions[1] == crypto && regions[2] == manifest
                && regions[3] == footer && regions[4] == trailer);
        },
        (Some(_), Some(_)) => {
            assert(regions =~= seq![head, crypto, table, manifest, footer, trailer]);
            assert(regions[0] == head && regions[1] == crypto && regions[2] == table && regions[3]
                == manifest && regions[4] == footer && regions[5] == trailer);
        },
    }
}

// ---------------------------------------------------------------------------------------------
// The recovery area
// ---------------------------------------------------------------------------------------------

/// Whether shards are those of an image: data shards that make it up, then parity over them.
pub open spec fn is_area_over<C: ArchiveCodec>(
    codec: &C,
    shards: Seq<Seq<u8>>,
    data_count: int,
    image: Seq<u8>,
) -> bool {
    &&& 0 <= data_count <= shards.len()
    &&& image.len() <= data_count * CMRA_SHARD_SIZE
    &&& joined_shards(shards.take(data_count)).take(image.len() as int) == image
    &&& forall|i: int|
        0 <= i < shards.len() ==> (#[trigger] shards[i]).len() == CMRA_SHARD_SIZE
    &&& data_count > 0 ==> is_coded(codec, shards.take(data_count), shards.skip(data_count))
}

proof fn shards_join_to_the_image(image: Seq<u8>, count: int)
    requires
        0 <= count <= spec_ceil_div(image.len() as int, CMRA_SHARD_SIZE as int),
    ensures
        ({
            let joined = joined_shards(data_shards(image, count));
            let held = if image.len() < count * CMRA_SHARD_SIZE {
                image.len() as int
            } else {
                count * CMRA_SHARD_SIZE
            };
            &&& joined.len() == count * CMRA_SHARD_SIZE
            &&& joined.take(held) == image.take(held)
        }),
    decreases count,
{
    let len = image.len() as int;
    if count == 0 {
        assert(joined_shards(data_shards(image, 0)).take(0) =~= image.take(0));
    } else {
        let n = count - 1;
        shards_join_to_the_image(image, n);
        shard_bounds(len, n);
        let shards = data_shards(image, count);
        assert(shards.drop_last() =~= data_shards(image, n));
        assert(shards.last() == data_shard(image, n));
        let before = joined_shards(data_shards(image, n));
        let joined = joined_shards(shards);
        let start = n * CMRA_SHARD_SIZE;
        let fill = shard_fill(len, n);
        let held = start + fill;
        assert(data_shard(image, n).len() == CMRA_SHARD_SIZE);
        assert(before.take(start) =~= before);
        assert forall|i: int| 0 <= i < held implies joined[i] == image[i] by {
            if i < start {
                assert(before.take(start)[i] == image.take(start)[i]);
            } else {
                assert(image.subrange(start, start + fill)[i - start] == image[i]);
            }
        }
        assert(joined.take(held) =~= image.take(held));
    }
}

/// The shard of an area at a place, as it is written.
pub open spec fn shard_bytes<C: ArchiveCodec>(
    codec: &C,
    shards: Seq<Seq<u8>>,
    data_count: int,
    image_len: int,
    i: int,
) -> Result<Seq<u8>, FormatError> {
    codec.recovery_shard_bytes(
        i as u16,
        if i < data_count {
            0u8
        } else {
            1u8
        },
        (if i == data_count - 1 {
            image_len - (data_count - 1) * CMRA_SHARD_SIZE
        } else {
            CMRA_SHARD_SIZE as int
        }) as u32,
        shards[i],
    )
}

/// Whether an area is its header and then `count` shards, one behind the other.
pub open spec fn holds_shards<C: ArchiveCodec>(
    codec: &C,
    written: Seq<u8>,
    shards: Seq<Seq<u8>>,
    data_count: int,
    image_len: int,
    count: nat,
) -> bool
    decreases count,
{
    if count == 0 {
        written.len() == 0
    } else {
        shard_bytes(codec, shards, data_count, image_len, count - 1) matches Ok(last) && {
            &&& written.len() >= last.len()
            &&& written.skip(written.len() - last.len()) == last
            &&& holds_shards(
                codec,
                written.take(written.len() - last.len()),
                shards,
                data_count,
                image_len,
                (count - 1) as nat,
            )
        }
    }
}

proof fn areas_hold_their_shards<C: ArchiveCodec>(
    codec: &C,
    image: Seq<u8>,
    data_count: int,
    parity: Seq<Seq<u8>>,
    count: nat,
)
    requires
        data_count == spec_ceil_div(image.len() as int, CMRA_SHARD_SIZE as int),
        count <= data_count + parity.len(),
    ensures
        written_shards(codec, image, data_count, parity, count) matches Ok(written) ==> holds_shards(
            codec,
            written,
            data_shards(image, data_count) + parity,
            data_count,
            image.len() as int,
            count,
        ),
    decreases count,
{
    if count > 0 {
        areas_hold_their_shards(codec, image, data_count, parity, (count - 1) as nat);
        if let Ok(written) = written_shards(codec, image, data_count, parity, count) {
            let before = written_shards(codec, image, data_count, parity, (count - 1) as nat)->Ok_0;
            let last = written_shard(codec, image, data_count, parity, count - 1)->Ok_0;
            let shards = data_shards(image, data_count) + parity;
            let i = count - 1;
            if i < data_count {
                shard_bounds(image.len() as int, i);
                ceil_div_is_least_cover(image.len() as int, CMRA_SHARD_SIZE as int);
                assert(shards[i] == data_shard(image, i));
            } else {
                assert(shards[i] == parity[i - data_count]);
            }
            assert(shard_bytes(codec, shards, data_count, image.len() as int, i) == Ok::<
                Seq<u8>,
                FormatError,
            >(last));
            assert(written.skip(written.len() - last.len()) =~= last);
            assert(written.take(written.len() - last.len()) =~= before);
        }
    }
}

/// A recovery area protects its image: behind its header, which tells the size and the digest of the
/// image and how many shards there are, stand the shards in order; those of data make up the image,
/// and those of parity protect them.
pub proof fn areas_protect_their_image<C: ArchiveCodec>(
    codec: &C,
    image: Seq<u8>,
    bit_rot_pct: u8,
    max_pct: u8,
    archive_uuid: [u8; 16],
    session_id: [u8; 16],
    volume_index: u32,
)
    requires
        keeps_lengths(codec),
        image.len() > 0,
    ensures
        area_of_image(
            codec,
            image,
            bit_rot_pct,
            max_pct,
            archive_uuid,
            session_id,
            volume_index,
        ) matches Ok(area) ==> exists|h: CriticalMetadataRecoveryHeader, shards: Seq<Seq<u8>>|
            {
                let head = codec.spec_layout().recovery_header as int;
                &&& lies_at(area.bytes, 0, #[trigger] codec.encoded(Record::RecoveryHeader(h)))
                &&& h.shard_size == CMRA_SHARD_SIZE
                &&& h.image_length == image.len()
                &&& h.image_sha256 == sha256(image)
                &&& h.archive_uuid_hint == archive_uuid
                &&& h.session_id_hint == session_id
                &&& h.volume_index_hint == volume_index
                &&& h.data_shard_count + h.parity_shard_count == shards.len()
                &&& #[trigger] is_area_over(
                    codec,
                    shards,
                    h.data_shard_count as int,
                    image,
                )
                &&& holds_shards(
                    codec,
                    area.bytes.skip(head),
                    shards,
                    h.data_shard_count as int,
                    image.len() as int,
                    shards.len(),
                )
                &&& area.shard_size == h.shard_size
                &&& area.data_shard_count == h.data_shard_count
                &&& area.parity_shard_count == h.parity_shard_count
                &&& area.image_length == h.image_length
                &&& area.image_sha256 == h.image_sha256
            },
{
    if let Ok(area) = area_of_image(
        codec,
        image,
        bit_rot_pct,
        max_pct,
        archive_uuid,
        session_id,
        volume_index,
    ) {
        let len = image.len() as int;
        let n = spec_ceil_div(len, CMRA_SHARD_SIZE as int);
        let data = data_shards(image, n);
        ceil_div_is_least_cover(len, CMRA_SHARD_SIZE as int);
        let h = CriticalMetadataRecoveryHeader {
            shard_size: area.shard_size,
            data_shard_count: area.data_shard_count,
            parity_shard_count: area.parity_shard_count,
            image_length: area.image_length,
            archive_uuid_hint: archive_uuid,
            session_id_hint: session_id,
            volume_index_hint: volume_index,
            image_sha256: area.image_sha256,
            header_crc32c: 0,
        };
        let parity = codec.parity(data, area.parity_shard_count as nat)->Ok_0;
        let head = codec.encoded(Record::RecoveryHeader(h));
        let total = (n + area.parity_shard_count) as nat;
        let written = written_shards(codec, image, n, parity, total)->Ok_0;
        assert(area.bytes == head + written);
        parts_lie_where_they_were_put(Seq::empty(), head, written);
        assert(Seq::<u8>::empty() + head + written =~= area.bytes);
        assert(area.bytes.skip(head.len() as int) =~= written);
        let shards = data + parity;
        assert(shards.take(n) =~= data);
        assert(shards.skip(n) =~= parity);
        shards_join_to_the_image(image, n);
        assert(image.take(len) =~= image);
        assert forall|i: int| 0 <= i < n implies (#[trigger] data[i]).len() == CMRA_SHARD_SIZE by {
            shard_bounds(len, i);
        }
        assert(data[0].len() == CMRA_SHARD_SIZE);
        assert forall|i: int| 0 <= i < shards.len() implies (#[trigger] shards[i]).len()
            == CMRA_SHARD_SIZE by {
            if i < n {
                assert(shards[i] == data[i]);
            } else {
                assert(shards[i] == parity[i - n]);
            }
        }
        areas_hold_their_shards(codec, image, n, parity, total);
        assert(is_area_over(codec, shards, n, image));
        assert(lies_at(area.bytes, 0, head));
        assert(h.image_length == image.len());
        assert(shards.len() == total);
        assert(head.len() == codec.spec_layout().recovery_header);
        assert(h.data_shard_count as int == n);
        assert(is_area_over(codec, shards, h.data_shard_count as int, image));
    }
}

/// The image of a recovery area is rebuilt from any of its shards, if they are as many as there are
/// data shards.
pub proof fn images_survive_lost_shards<C: ArchiveCodec>(
    b: Rebuilder,
    codec: &C,
    shards: Seq<Seq<u8>>,
    data_count: int,
    image: Seq<u8>,
    at_hand: Map<int, Seq<u8>>,
)
    requires
        rebuilds(b, codec),
        data_count > 0,
        is_area_over(codec, shards, data_count, image),
        is_enough_of(at_hand, shards, data_count as nat),
    ensures
        joined_shards((b.data)(data_count as nat, at_hand)).take(image.len() as int) == image,
{
    let data = shards.take(data_count);
    let parity = shards.skip(data_count);
    assert(data + parity =~= shards);
    assert(is_enough_of(at_hand, data + parity, data.len()));
}

// ---------------------------------------------------------------------------------------------
// The end of a volume
// ---------------------------------------------------------------------------------------------

/// What a reader finds at the end of a volume.
pub struct VolumeEnd {
    pub locator: CriticalRecoveryLocator,
    pub trailer: VolumeTrailer,
    pub manifest: ManifestFooter,
    pub area: CmraValue,
    pub image: Seq<u8>,
    pub image_layout: CriticalMetadataLayout,
    pub regions: Seq<RegionValue>,
}

/// Whether the last bytes of a volume are two locators, one the mirror of the other, that lead to the
/// recovery area and to the trailer in front of it.
pub open spec fn locators_lead_on<C: ArchiveCodec>(
    codec: &C,
    volume: Seq<u8>,
    end: VolumeEnd,
) -> bool {
    let layout = codec.spec_layout();
    let l = end.locator;
    let at = volume.len() - layout.recovery_locator;
    &&& l.locator_sequence == 0
    &&& lies_at(volume, at, codec.encoded(Record::RecoveryLocator(l)))
    &&& lies_at(
        volume,
        at - layout.recovery_locator,
        codec.encoded(
            Record::RecoveryLocator(CriticalRecoveryLocator { locator_sequence: 1, ..l }),
        ),
    )
    &&& l.cmra_offset + l.cmra_length + 2 * layout.recovery_locator == volume.len()
    &&& l.cmra_length == end.area.bytes.len()
    &&& lies_at(volume, l.cmra_offset as int, end.area.bytes)
    &&& l.body_bytes_before_cmra == l.cmra_offset
    &&& l.volume_trailer_offset + layout.volume_trailer == l.cmra_offset
    &&& lies_at(
        volume,
        l.volume_trailer_offset as int,
        codec.encoded(Record::VolumeTrailer(end.trailer)),
    )
    &&& l.cmra_shard_size == end.area.shard_size
    &&& l.cmra_data_shard_count == end.area.data_shard_count
    &&& l.cmra_parity_shard_count == end.area.parity_shard_count
    &&& l.cmra_image_length == end.area.image_length
    &&& l.cmra_image_sha256 == end.area.image_sha256
}

/// Whether a trailer leads to the manifest footer, which lies behind the blocks, and to the
/// root-authentication footer, if there is one.
pub open spec fn trailer_leads_on<C: ArchiveCodec>(
    codec: &C,
    volume: Seq<u8>,
    end: VolumeEnd,
    footer: Option<Seq<u8>>,
    blocks_end: int,
    block_count: u64,
) -> bool {
    let layout = codec.spec_layout();
    let t = end.trailer;
    &&& t.bytes_written == end.locator.volume_trailer_offset
    &&& t.block_count == block_count
    &&& t.manifest_footer_offset == blocks_end
    &&& t.manifest_footer_length == layout.manifest_footer
    &&& lies_at(
        volume,
        t.manifest_footer_offset as int,
        codec.encoded(Record::ManifestFooter(end.manifest)),
    )
    &&& match footer {
        Some(bytes) => {
            &&& t.root_auth_flags == 1
            &&& t.root_auth_footer_offset == t.manifest_footer_offset + t.manifest_footer_length
            &&& t.root_auth_footer_length == bytes.len()
            &&& lies_at(volume, t.root_auth_footer_offset as int, bytes)
        },
        None => t.root_auth_flags == 0 && t.root_auth_footer_offset == 0
            && t.root_auth_footer_length == 0,
    }
}

/// Whether the records at the end of a volume are of an archive and of a volume of it, and locate the
/// index root.
pub open spec fn records_are_of(end: VolumeEnd, plan: PlanValue, volume_index: int) -> bool {
    let m = end.manifest;
    &&& m.archive_uuid == plan.archive_uuid
    &&& m.session_id == plan.session_id
    &&& m.volume_index == volume_index
    &&& m.is_authoritative == 1
    &&& m.total_volumes == plan.options.stripe_width
    &&& plan.index_root_extent == (ObjectExtent {
        first_block_index: m.index_root_first_block,
        data_block_count: m.index_root_data_block_count,
        parity_block_count: m.index_root_parity_block_count,
        encrypted_size: m.index_root_encrypted_size,
    })
    &&& m.index_root_decompressed_size == plan.index_root_plaintext.len()
    &&& end.trailer.archive_uuid == plan.archive_uuid
    &&& end.trailer.session_id == plan.session_id
    &&& end.trailer.volume_index == volume_index
    &&& end.trailer.closed_at_ns == plan.options.closed_at_ns
    &&& end.locator.archive_uuid_hint == plan.archive_uuid
    &&& end.locator.session_id_hint == plan.session_id
    &&& end.locator.volume_index_hint == volume_index
    &&& end.image_layout.archive_uuid == plan.archive_uuid
    &&& end.image_layout.session_id == plan.session_id
    &&& end.image_layout.volume_index == volume_index
    &&& end.image_layout.stripe_width == plan.options.stripe_width
    &&& end.image_layout.volume_format_rev == plan.volume_format_rev
}

/// Whether the tags of the manifest footer and of the trailer are those that a reader with the keys
/// computes over the records without their tags.
pub open spec fn tags_check_out<C: ArchiveCodec>(
    codec: &C,
    end: VolumeEnd,
    plan: PlanValue,
    subkeys: Subkeys,
) -> bool {
    let context = TagContext {
        domain: HmacDomain::ManifestFooter,
        aead_algo: plan.options.aead_algo,
        volume_format_rev: plan.volume_format_rev,
        mac_key: subkeys.mac_key,
        archive_uuid: end.manifest.archive_uuid,
        session_id: end.manifest.session_id,
    };
    let bare_manifest = codec.encoded(
        Record::ManifestFooter(ManifestFooter { manifest_hmac: NO_KEY, ..end.manifest }),
    );
    let bare_trailer = codec.encoded(
        Record::VolumeTrailer(VolumeTrailer { trailer_hmac: NO_KEY, ..end.trailer }),
    );
    &&& codec.tag(context, bare_manifest.take(MANIFEST_FOOTER_COVERED as int)) == Ok::<
        [u8; 32],
        FormatError,
    >(end.manifest.manifest_hmac)
    &&& codec.tag(
        TagContext { domain: HmacDomain::VolumeTrailer, ..context },
        bare_trailer.take(VOLUME_TRAILER_COVERED as int),
    ) == Ok::<[u8; 32], FormatError>(end.trailer.trailer_hmac)
}

/// Whether the recovery area holds an image that repeats the volume, with as many blocks as there
/// are.
pub open spec fn area_repeats<C: ArchiveCodec>(
    codec: &C,
    volume: Seq<u8>,
    end: VolumeEnd,
    plan: PlanValue,
    volume_index: int,
    caps: ReaderCaps,
    blocks_end: int,
    block_count: u64,
) -> bool {
    let i = end.image_layout;
    let layout = codec.spec_layout();
    &&& codec.image_bytes(i, end.regions) == Ok::<Seq<u8>, FormatError>(end.image)
    &&& area_of_image(
        codec,
        end.image,
        plan.options.bit_rot_buffer_pct,
        caps.max_cmra_parity_pct,
        plan.archive_uuid,
        plan.session_id,
        volume_index as u32,
    ) == Ok::<CmraValue, FormatError>(end.area)
    &&& repeats_the_volume(volume, i, end.regions)
    &&& i.block_count == block_count
    &&& i.block_records_length == block_count * (plan.options.block_size
        + layout.block_record_framing)
    &&& i.manifest_footer_offset == blocks_end
    &&& i.volume_trailer_offset == end.locator.volume_trailer_offset
    &&& i.body_bytes_before_cmra == end.locator.cmra_offset
}

/// Whether a volume ends as it should.
pub open spec fn ends_well<C: ArchiveCodec>(
    codec: &C,
    volume: Seq<u8>,
    end: VolumeEnd,
    plan: PlanValue,
    subkeys: Subkeys,
    footer: Option<Seq<u8>>,
    volume_index: int,
    caps: ReaderCaps,
    blocks_end: int,
    block_count: u64,
) -> bool {
    &&& locators_lead_on(codec, volume, end)
    &&& trailer_leads_on(codec, volume, end, footer, blocks_end, block_count)
    &&& records_are_of(end, plan, volume_index)
    &&& tags_check_out(codec, end, plan, subkeys)
    &&& area_repeats(
        codec,
        volume,
        end,
        plan,
        volume_index,
        caps,
        blocks_end,
        block_count,
    )
}

/// Whether a volume begins with its header, the crypto header and the key-wrap table.
pub open spec fn begins_with_headers(
    volume: Seq<u8>,
    layout: WireLayout,
    header: Seq<u8>,
    crypto_header: Seq<u8>,
    table: Option<Seq<u8>>,
) -> bool {
    &&& header.len() == layout.volume_header
    &&& lies_at(volume, 0, header + crypto_header + part_or_nothing(table))
}

/// A volume that is closed ends well: from its last bytes a reader finds the recovery area, the
/// trailer, the manifest footer and the root-authentication footer, each tells of this volume of this
/// archive and where the index root lies, the tags check out, and the recovery area repeats the
/// volume.
#[verifier::rlimit(60)]
pub proof fn closed_volumes_end_well<C: ArchiveCodec>(
    codec: &C,
    e: Emission,
    plan: PlanValue,
    subkeys: Subkeys,
    header: Seq<u8>,
    footer: Option<Seq<u8>>,
    caps: ReaderCaps,
    v: int,
)
    requires
        keeps_its_layout(codec),
        e.wf(plan.options.stripe_width),
        0 <= v < plan.options.stripe_width,
        e.bytes_written[v] == e.volumes[v].len(),
        begins_with_headers(
            e.volumes[v],
            codec.spec_layout(),
            header,
            plan.crypto_header.bytes,
            plan.key_wrap_table,
        ),
        footer matches Some(bytes) ==> bytes.len() <= u32::MAX,
    ensures
        with_tail(codec, e, plan, subkeys, header, footer, caps, v) matches Ok(after) ==> exists|
            end: VolumeEnd,
        |
            #[trigger]
            ends_well(
                codec,
                after.volumes[v],
                end,
                plan,
                subkeys,
                footer,
                v,
                caps,
                e.volumes[v].len() as int,
                e.record_counts[v],
            ),
{
    if let Ok(after) = with_tail(codec, e, plan, subkeys, header, footer, caps, v) {
        let layout = codec.spec_layout();
        let index = v as u32;
        let base = e.volumes[v];
        let manifest = plan_manifest(codec, plan, subkeys, index)->Ok_0;
        let e1 = with_part(e, v, manifest, "ManifestFooter")->Ok_0;
        let e2 = with_footer(e1, v, footer)->Ok_0;
        let foot = part_or_nothing(footer);
        let early = TailOffsets {
            manifest: e.bytes_written[v],
            root_auth: if footer is Some {
                Some(e1.bytes_written[v])
            } else {
                None
            },
            trailer: e2.bytes_written[v],
            cmra: 0,
        };
        let count = e.record_counts[v];
        let made = trailer_input(plan, subkeys, index, count, early, footer);
        let trailer = trailer_outcome(codec, made)->Ok_0;
        let e3 = with_part(e2, v, trailer, "VolumeTrailer")->Ok_0;
        let offsets = TailOffsets { cmra: e3.bytes_written[v], ..early };
        let input = cmra_input(plan, index, count, header, manifest, footer, trailer, offsets);
        let area = cmra_outcome(codec, input, caps.max_cmra_parity_pct)->Ok_0;
        let e4 = with_part(e3, v, area.bytes, "CMRA")->Ok_0;
        let image = cmra_image(codec, input)->Ok_0;
        let bare_manifest = manifest_record(
            plan.archive_uuid,
            plan.session_id,
            index,
            plan.options.stripe_width,
            plan.index_root_extent,
            plan.index_root_plaintext.len() as int,
        );
        let bare_trailer = trailer_record(layout, made);
        let context = TagContext {
            domain: HmacDomain::ManifestFooter,
            aead_algo: plan.options.aead_algo,
            volume_format_rev: plan.volume_format_rev,
            mac_key: subkeys.mac_key,
            archive_uuid: plan.archive_uuid,
            session_id: plan.session_id,
        };
        let manifest_tag = codec.tag(
            context,
            codec.encoded(Record::ManifestFooter(bare_manifest)).take(
                MANIFEST_FOOTER_COVERED as int,
            ),
        )->Ok_0;
        let trailer_tag = codec.tag(
            TagContext { domain: HmacDomain::VolumeTrailer, ..context },
            codec.encoded(Record::VolumeTrailer(bare_trailer)).take(VOLUME_TRAILER_COVERED as int),
        )->Ok_0;
        let end = VolumeEnd {
            locator: locator_record(plan, index, area, offsets, 0),
            trailer: VolumeTrailer { trailer_hmac: trailer_tag, ..bare_trailer },
            manifest: ManifestFooter { manifest_hmac: manifest_tag, ..bare_manifest },
            area,
            image,
            image_layout: cmra_layout(input, layout),
            regions: cmra_regions(input, layout),
        };
        assert(manifest == codec.encoded(Record::ManifestFooter(end.manifest)));
        assert(trailer == codec.encoded(Record::VolumeTrailer(end.trailer)));
        let mirror = codec.encoded(
            Record::RecoveryLocator(CriticalRecoveryLocator { locator_sequence: 1, ..end.locator }),
        );
        let last = codec.encoded(Record::RecoveryLocator(end.locator));
        assert(locator_record(plan, index, area, offsets, 1) == CriticalRecoveryLocator {
            locator_sequence: 1,
            ..end.locator
        });
        let volume = after.volumes[v];
        let with_manifest = base + manifest;
        let with_foot = with_manifest + foot;
        let with_trail = with_foot + trailer;
        let with_area = with_trail + area.bytes;
        assert(e1.volumes[v] == with_manifest);
        assert(e2.volumes[v] =~= with_foot);
        assert(e3.volumes[v] == with_trail);
        assert(e4.volumes[v] == with_area);
        assert(volume =~= with_area + mirror + last);
        parts_lie_where_they_were_put(with_area + mirror, last, Seq::empty());
        assert(volume =~= with_area + mirror + last + Seq::empty());
        parts_lie_where_they_were_put(with_area, mirror, last);
        parts_lie_where_they_were_put(with_trail, area.bytes, mirror + last);
        assert(volume =~= with_trail + area.bytes + (mirror + last));
        parts_lie_where_they_were_put(with_foot, trailer, area.bytes + mirror + last);
        assert(volume =~= with_foot + trailer + (area.bytes + mirror + last));
        parts_lie_where_they_were_put(with_manifest, foot, trailer + area.bytes + mirror + last);
        assert(volume =~= with_manifest + foot + (trailer + area.bytes + mirror + last));
        parts_lie_where_they_were_put(base, manifest, foot + trailer + area.bytes + mirror + last);
        assert(volume =~= base + manifest + (foot + trailer + area.bytes + mirror + last));
        let crypto = plan.crypto_header.bytes;
        let table = part_or_nothing(plan.key_wrap_table);
        let heads = header + crypto + table;
        let rest = manifest + foot + trailer + area.bytes + mirror + last;
        assert(volume =~= base + rest);
        parts_stay(base, 0, heads, rest);
        let tail = volume.skip(heads.len() as int);
        assert(volume =~= heads + tail) by {
            assert(volume.take(heads.len() as int) =~= volume.subrange(0, heads.len() as int));
        }
        parts_lie_where_they_were_put(Seq::empty(), header, crypto + table + tail);
        assert(volume =~= Seq::<u8>::empty() + header + (crypto + table + tail));
        parts_lie_where_they_were_put(header, crypto, table + tail);
        assert(volume =~= header + crypto + (table + tail));
        parts_lie_where_they_were_put(header + crypto, table, tail);
        assert(lies_in(input, layout, volume));
        images_repeat_the_volume(input, layout, volume);
        assert(locators_lead_on(codec, volume, end));
        assert(trailer_leads_on(codec, volume, end, footer, base.len() as int, count));
        assert(records_are_of(end, plan, v));
        assert(tags_check_out(codec, end, plan, subkeys));
        assert(area_repeats(codec, volume, end, plan, v, caps, base.len() as int, count));
        assert(ends_well(
            codec,
            volume,
            end,
            plan,
            subkeys,
            footer,
            v,
            caps,
            base.len() as int,
            count,
        ));
    }
}

} // verus!
