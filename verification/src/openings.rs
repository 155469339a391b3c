//! How often the sources of an archive are opened.
use crate::member::PrimaryValue;
use crate::metadata::PortableValue;
use crate::source::RegularFileSource;
use crate::sparse::SparseExtent;
use crate::tally::path_of;
use vstd::prelude::*;

verus! {

/// A path, as often as its source was opened.
pub open spec fn repeated(path: Seq<char>, count: int) -> Seq<Seq<char>> {
    Seq::new(count as nat, |i: int| path)
}

/// What is opened in two turns is opened in all.
pub proof fn openings_add_up(log: Seq<Seq<char>>, path: Seq<char>, first: int, second: int)
    requires
        first >= 0,
        second >= 0,
    ensures
        log + repeated(path, first) + repeated(path, second) == log + repeated(
            path,
            first + second,
        ),
{
    assert(log + repeated(path, first) + repeated(path, second) =~= log + repeated(
        path,
        first + second,
    ));
}

pub proof fn nothing_is_opened(log: Seq<Seq<char>>, path: Seq<char>)
    ensures
        log + repeated(path, 0) == log,
{
    assert(log + repeated(path, 0) =~= log);
}

/// Whether a file has no holes and streams no metadata.
pub open spec fn is_plain(
    sparse_extents: Option<Seq<SparseExtent>>,
    metadata: PortableValue,
) -> bool {
    &&& sparse_extents is None
    &&& forall|i: int|
        0 <= i < metadata.native.auxiliary_records.len() ==> (
        #[trigger] metadata.native.auxiliary_records[i]).streamed_payload is None
}

/// Whether a member is that of a plain file.
pub open spec fn is_plain_member(v: PrimaryValue) -> bool {
    is_plain(v.sparse_extents, v.metadata)
}

/// Whether a source stays as it is and is a plain file.
pub open spec fn is_plain_source<S: RegularFileSource>(source: S) -> bool {
    source.steady() && is_plain(
        source.run().described.sparse_extents,
        source.run().described.metadata,
    )
}

/// Whether a plain source was opened once. One without data may be left alone.
#[verifier::opaque]
pub open spec fn opens_member<S: RegularFileSource>(
    source: S,
    log: Seq<Seq<char>>,
    new_log: Seq<Seq<char>>,
) -> bool {
    is_plain_source(source) ==> new_log == log.push(path_of(source)) || (new_log == log
        && source.run().described.file_data_size == 0)
}

/// Whether the first `count` sources were opened one after the other, each plain one once.
pub open spec fn opens_members<S: RegularFileSource>(
    files: Seq<S>,
    count: nat,
    log: Seq<Seq<char>>,
    new_log: Seq<Seq<char>>,
) -> bool
    decreases count,
{
    if count == 0 {
        new_log == log
    } else {
        exists|mid_log: Seq<Seq<char>>| #[trigger]
            opens_member(files[count - 1], mid_log, new_log) && opens_members(
                files,
                (count - 1) as nat,
                log,
                mid_log,
            )
    }
}

/// Plain sources that have data are opened exactly once, in their order.
pub proof fn sources_with_data_are_opened_once<S: RegularFileSource>(
    files: Seq<S>,
    count: nat,
    log: Seq<Seq<char>>,
    new_log: Seq<Seq<char>>,
)
    requires
        count <= files.len(),
        forall|i: int|
            0 <= i < files.len() ==> is_plain_source(#[trigger] files[i])
                && files[i].run().described.file_data_size > 0,
        opens_members(files, count, log, new_log),
    ensures
        new_log == log + Seq::new(count, |i: int| path_of(files[i])),
    decreases count,
{
    let paths = Seq::new(count, |i: int| path_of(files[i]));
    if count == 0 {
        assert(log + paths =~= log);
    } else {
        reveal(opens_member);
        let mid_log = choose|mid_log: Seq<Seq<char>>| #[trigger]
            opens_member(files[count - 1], mid_log, new_log) && opens_members(
                files,
                (count - 1) as nat,
                log,
                mid_log,
            );
        sources_with_data_are_opened_once(files, (count - 1) as nat, log, mid_log);
        let before = Seq::new((count - 1) as nat, |i: int| path_of(files[i]));
        assert(is_plain_source(files[count - 1]));
        assert(log + paths =~= (log + before).push(path_of(files[count - 1])));
    }
}

} // verus!
