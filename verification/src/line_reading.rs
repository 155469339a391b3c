//! Reading text: the lines of extended headers, the maps of files with holes, and members that carry
//! nothing but their mode and their time.
use crate::arith::{tar_padding, tar_padding_fills_the_last_record};
use crate::bytes::{decimal, decimal_reads_back, digits_value, zeros};
use crate::restoration::lies_at;
use crate::sparse::{extent_lines, sparse_map_outcome, sparse_map_text, SparseExtent};
use crate::tar::{
    fallback_path, path_key, pax_header_name, pax_line_states_its_length, pax_record_outcome,
    plain_member_group, plain_member_prefix, plain_name_needs_pax, ustar_header_outcome,
};
use crate::tar_reading::{checksum_holds, number_in, plain_headers_read_back, text_in};
use vstd::prelude::*;

verus! {

// ---------------------------------------------------------------------------------------------
// Lines
// ---------------------------------------------------------------------------------------------

/// What stands in front of the first byte of a given kind.
pub open spec fn until(s: Seq<u8>, stop: u8) -> Seq<u8>
    decreases s.len(),
{
    if s.len() == 0 || s[0] == stop {
        Seq::empty()
    } else {
        seq![s[0]] + until(s.skip(1), stop)
    }
}

/// What stands behind it.
pub open spec fn behind(s: Seq<u8>, stop: u8) -> Seq<u8> {
    s.skip(until(s, stop).len() as int + 1)
}

proof fn words_end_at_their_stop(word: Seq<u8>, stop: u8, rest: Seq<u8>)
    requires
        forall|i: int| 0 <= i < word.len() ==> #[trigger] word[i] != stop,
    ensures
        until(word + seq![stop] + rest, stop) == word,
        behind(word + seq![stop] + rest, stop) == rest,
    decreases word.len(),
{
    let s = word + seq![stop] + rest;
    if word.len() == 0 {
        assert(s[0] == stop);
        assert(until(s, stop) =~= word);
    } else {
        let less = word.skip(1);
        assert(s[0] == word[0]);
        assert forall|i: int| 0 <= i < less.len() implies #[trigger] less[i] != stop by {
            assert(less[i] == word[i + 1]);
        }
        words_end_at_their_stop(less, stop, rest);
        assert(s.skip(1) =~= less + seq![stop] + rest);
        assert(until(s, stop) =~= word);
    }
    assert(behind(s, stop) =~= rest);
}

proof fn decimals_are_digits(value: nat)
    ensures
        forall|i: int| 0 <= i < decimal(value).len() ==> 48 <= #[trigger] decimal(value)[i] <= 57,
    decreases value,
{
    if value >= 10 {
        decimals_are_digits(value / 10);
        let less = decimal(value / 10);
        assert forall|i: int| 0 <= i < decimal(value).len() implies 48 <= #[trigger] decimal(
            value,
        )[i] <= 57 by {
            if i < less.len() {
                assert(decimal(value)[i] == less[i]);
            }
        }
    }
}

/// Whether a line of an extended header tells of a key and a value: it states its own length, ends
/// with a line feed, and holds the key in front of an equals sign and the value behind it.
pub open spec fn line_tells_of(line: Seq<u8>, key: Seq<u8>, value: Seq<u8>) -> bool {
    let pair = behind(line, 32);
    &&& digits_value(until(line, 32), 10) == line.len() > 0
    &&& line.last() == 10
    &&& until(pair, 61) == key
    &&& behind(pair, 61).len() > 0
    &&& behind(pair, 61).drop_last() == value
}

/// A line of an extended header reads back, whatever its value holds.
pub proof fn lines_read_back(key: Seq<u8>, value: Seq<u8>)
    requires
        !key.contains(61u8),
    ensures
        pax_record_outcome(key, value) matches Ok(line) ==> line_tells_of(line, key, value),
{
    if let Ok(line) = pax_record_outcome(key, value) {
        pax_line_states_its_length(key, value);
        let digits = decimal(line.len());
        decimal_reads_back(line.len());
        decimals_are_digits(line.len());
        let tail = value + seq![10u8];
        let pair = key + seq![61u8] + tail;
        assert(line =~= digits + seq![32u8] + pair);
        words_end_at_their_stop(digits, 32, pair);
        assert forall|i: int| 0 <= i < key.len() implies #[trigger] key[i] != 61 by {
            assert(key.contains(key[i]));
        }
        words_end_at_their_stop(key, 61, tail);
        assert(tail.drop_last() =~= value);
        assert(line.last() == 10);
    }
}

// ---------------------------------------------------------------------------------------------
// Maps of files with holes
// ---------------------------------------------------------------------------------------------

/// Whether lines give the offset and the length of each extent, in turn, with nothing but zeros behind
/// them.
pub open spec fn lines_give_extents(bytes: Seq<u8>, extents: Seq<SparseExtent>) -> bool
    decreases extents.len(),
{
    if extents.len() == 0 {
        bytes == zeros(bytes.len() as int)
    } else {
        let second = behind(bytes, 10);
        &&& digits_value(until(bytes, 10), 10) == extents[0].offset
        &&& digits_value(until(second, 10), 10) == extents[0].length
        &&& lines_give_extents(behind(second, 10), extents.skip(1))
    }
}

/// Whether a map tells of extents: how many there are, then each of them.
pub open spec fn map_tells_of(bytes: Seq<u8>, extents: Seq<SparseExtent>) -> bool {
    &&& digits_value(until(bytes, 10), 10) == extents.len()
    &&& lines_give_extents(behind(bytes, 10), extents)
}

spec fn line_of(number: nat) -> Seq<u8> {
    decimal(number).push(10u8)
}

proof fn first_lines_are_of_the_first(extents: Seq<SparseExtent>)
    requires
        extents.len() > 0,
    ensures
        extent_lines(extents) == line_of(extents[0].offset as nat) + line_of(
            extents[0].length as nat,
        ) + extent_lines(extents.skip(1)),
    decreases extents.len(),
{
    reveal_with_fuel(extent_lines, 2);
    let first = line_of(extents[0].offset as nat) + line_of(extents[0].length as nat);
    if extents.len() == 1 {
        assert(extents.drop_last() =~= Seq::<SparseExtent>::empty());
        assert(extents.skip(1) =~= Seq::<SparseExtent>::empty());
        assert(extent_lines(extents) =~= first + extent_lines(extents.skip(1)));
    } else {
        first_lines_are_of_the_first(extents.drop_last());
        assert(extents.drop_last().skip(1) =~= extents.skip(1).drop_last());
        assert(extents.drop_last()[0] == extents[0]);
        assert(extent_lines(extents) =~= first + extent_lines(extents.skip(1)));
    }
}

proof fn number_lines_read_back(number: nat, rest: Seq<u8>)
    ensures
        digits_value(until(line_of(number) + rest, 10), 10) == number,
        behind(line_of(number) + rest, 10) == rest,
{
    decimal_reads_back(number);
    decimals_are_digits(number);
    words_end_at_their_stop(decimal(number), 10, rest);
    assert(line_of(number) + rest =~= decimal(number) + seq![10u8] + rest);
}

proof fn extent_lines_read_back(extents: Seq<SparseExtent>, padding: nat)
    ensures
        lines_give_extents(extent_lines(extents) + zeros(padding as int), extents),
    decreases extents.len(),
{
    let bytes = extent_lines(extents) + zeros(padding as int);
    if extents.len() == 0 {
        assert(bytes =~= zeros(bytes.len() as int));
    } else {
        first_lines_are_of_the_first(extents);
        let rest = extent_lines(extents.skip(1)) + zeros(padding as int);
        let second = line_of(extents[0].length as nat) + rest;
        assert(bytes =~= line_of(extents[0].offset as nat) + second);
        number_lines_read_back(extents[0].offset as nat, second);
        number_lines_read_back(extents[0].length as nat, rest);
        extent_lines_read_back(extents.skip(1), padding);
    }
}

/// The map of a file with holes reads back: it tells how many extents there are, and of each its offset
/// and then its length.
pub proof fn maps_tell_of_their_extents(
    extents: Seq<SparseExtent>,
    logical_size: int,
    max_extents: int,
)
    ensures
        sparse_map_outcome(extents, logical_size, max_extents) matches Ok(map) ==> map_tells_of(
            map,
            extents,
        ),
{
    let text = decimal(extents.len()).push(10u8) + extent_lines(extents);
    let padding = tar_padding(text.len() as int);
    tar_padding_fills_the_last_record(text.len() as int);
    let rest = extent_lines(extents) + zeros(padding);
    assert(sparse_map_text(extents) =~= line_of(extents.len()) + rest);
    number_lines_read_back(extents.len(), rest);
    extent_lines_read_back(extents, padding as nat);
}

// ---------------------------------------------------------------------------------------------
// Plain members
// ---------------------------------------------------------------------------------------------

/// Whether a header tells of a regular file of a size, a mode and a time.
pub open spec fn header_tells_of(header: Seq<u8>, size: int, mode: int, mtime: int) -> bool {
    &&& checksum_holds(header)
    &&& header[156] == 48
    &&& number_in(header, 124, 12) == size
    &&& number_in(header, 100, 8) == mode
    &&& number_in(header, 136, 12) == mtime
}

/// Whether the bytes in front of the content of a plain member tell of its path: in the header, or in
/// a line of an extended header in front of it, under the key `path`.
pub open spec fn prefix_tells_of(
    bytes: Seq<u8>,
    path: Seq<u8>,
    size: int,
    mode: int,
    mtime: int,
) -> bool {
    let line_len = number_in(bytes, 124, 12);
    let at = bytes.len() - 512;
    &&& bytes.len() >= 512
    &&& header_tells_of(bytes.skip(at), size, mode, mtime)
    &&& if at == 0 {
        text_in(bytes, 0, 100) == path
    } else {
        &&& checksum_holds(bytes.take(512))
        &&& bytes[156] == 120
        &&& at == 512 + line_len + tar_padding(line_len)
        &&& line_tells_of(
            bytes.subrange(512, 512 + line_len),
            seq![112u8, 97u8, 116u8, 104u8],
            path,
        )
    }
}

/// A member that carries nothing but its mode and its time reads back, under its whole path.
pub proof fn plain_members_read_back(path: Seq<u8>, size: int, mode: int, mtime: int)
    requires
        size >= 0,
        mode >= 0,
        mtime >= 0,
        !path.contains(0u8),
    ensures
        plain_member_prefix(path, size, mode, mtime) matches Ok(bytes) ==> prefix_tells_of(
            bytes,
            path,
            size,
            mode,
            mtime,
        ),
{
    if let Ok(bytes) = plain_member_prefix(path, size, mode, mtime) {
        if plain_name_needs_pax(path) {
            let line = pax_record_outcome(path_key(), path)->Ok_0;
            let n = line.len() as int;
            let extended = ustar_header_outcome(pax_header_name(), n, 0o644, mtime, 120)->Ok_0;
            let header = ustar_header_outcome(fallback_path(path), size, mode, mtime, 48)->Ok_0;
            plain_headers_read_back(pax_header_name(), n, 0o644, mtime, 120);
            plain_headers_read_back(fallback_path(path), size, mode, mtime, 48);
            tar_padding_fills_the_last_record(n);
            assert(!path_key().contains(61u8));
            lines_read_back(path_key(), path);
            let at = 512 + n + tar_padding(n);
            assert(bytes.skip(at) =~= header);
            assert(bytes.take(512) =~= extended);
            assert(bytes.subrange(124, 135) =~= extended.subrange(124, 135));
            assert(bytes[156] == extended[156]);
            assert(bytes.subrange(512, 512 + n) =~= line);
        } else {
            plain_headers_read_back(path, size, mode, mtime, 48);
            assert(bytes.skip(0) =~= bytes);
        }
    }
}

/// Behind that comes the content of the member, as many bytes as its header says, and zeros up to a
/// whole record.
pub proof fn plain_members_hold_their_content(
    path: Seq<u8>,
    content: Seq<u8>,
    mode: int,
    mtime: int,
)
    requires
        mode >= 0,
        mtime >= 0,
        !path.contains(0u8),
    ensures
        plain_member_group(path, content, mode, mtime) matches Ok(bytes) ==> exists|at: int|
            {
                &&& #[trigger] lies_at(bytes, at, content)
                &&& prefix_tells_of(bytes.take(at), path, content.len() as int, mode, mtime)
                &&& bytes.skip(at + content.len()) == zeros(tar_padding(content.len() as int))
            },
{
    if let Ok(bytes) = plain_member_group(path, content, mode, mtime) {
        plain_members_read_back(path, content.len() as int, mode, mtime);
        let prefix = plain_member_prefix(path, content.len() as int, mode, mtime)->Ok_0;
        let at = prefix.len() as int;
        assert(bytes.take(at) =~= prefix);
        assert(bytes.subrange(at, at + content.len()) =~= content);
        assert(bytes.skip(at + content.len()) =~= zeros(tar_padding(content.len() as int)));
        assert(lies_at(bytes, at, content));
    }
}

} // verus!
