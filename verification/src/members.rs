//! Taking the members of an archive from their sources, one after the other.
use crate::capture::{
    capture_member, captured, declares_all, may_describe, open_member, prepared,
    StreamingRegularMember,
};
use crate::codec::ArchiveCodec;
use crate::emit::lift;
use crate::errors::{ArchiveWriteError, FormatError};
use crate::member::{layout_outcome, source_payload_size_outcome};
use crate::openings::{is_plain_source, nothing_is_opened, opens_member, opens_members, repeated};
use crate::options::{opt_bytes, WriterOptions};
use crate::packing::{PackValue, PayloadPacking};
use crate::payload::{frame_member, framed_member, goes, FramePlace, FrameTaker};
use crate::profile::MetadataProfile;
use crate::progress::{phases_of, reports, ArchiveWriteProgressSink, SourceProgressState};
use crate::rows::{members_wf, tar_member_values, MemberValue, TarMember};
use crate::source::{may_run, take_requests, Described, RegularFileSource, SourceRun};
use crate::stream::{drawn_size, feed_of, openings, StreamingMemberReader};
use crate::tally::{
    drawn_members_are_told, no_members_are_told, one_more_is_told, path_of, tells_member,
    tells_members,
};
use vstd::prelude::*;

verus! {

/// Takes frames, and knows how long the stream of all members has become.
pub trait StreamTaker<C: ArchiveCodec, Out>: FrameTaker<C, Out> {
    spec fn total_of(state: Self::State) -> u64;

    fn stream_total(&self, out: &Out) -> (r: u64)
        ensures
            r == Self::total_of(self.state(*out)),
    ;
}

impl<C: ArchiveCodec> StreamTaker<C, ()> for PayloadPacking {
    open spec fn total_of(state: PackValue) -> u64 {
        state.tar_total
    }

    fn stream_total(&self, out: &()) -> (r: u64) {
        self.tar_total_size
    }
}

/// The members so far, and what became of their frames.
pub struct MembersValue<St> {
    pub members: Seq<MemberValue>,
    pub state: St,
}

/// The members after one more.
#[verifier::opaque]
pub open spec fn with_member<C: ArchiveCodec + MetadataProfile, Out, T: StreamTaker<C, Out>>(
    codec: &C,
    setting: T::Setting,
    o: WriterOptions,
    dictionary: Option<Seq<u8>>,
    before: MembersValue<T::State>,
    run: SourceRun,
) -> Result<MembersValue<T::State>, ArchiveWriteError> {
    match captured(codec, run.described, o.max_path_length) {
        Err(e) => Err(ArchiveWriteError::Format(e)),
        Ok(v) => match prepared(codec, v) {
            Err(e) => Err(ArchiveWriteError::Format(e)),
            Ok(p) => {
                let start = T::total_of(before.state);
                match framed_member::<C, Out, T>(
                    codec,
                    setting,
                    before.state,
                    o,
                    dictionary,
                    feed_of(p.sections, run),
                    FramePlace {
                        member_index: before.members.len() as usize,
                        member_start: start,
                        member_offset: 0,
                        member_group_size: p.group_size,
                    },
                    0,
                ) {
                    Err(e) => Err(e),
                    Ok(state) => Ok(
                        MembersValue {
                            members: before.members.push(
                                MemberValue {
                                    primary: v,
                                    tar_member_group_start: start,
                                    tar_member_group_size: p.group_size,
                                },
                            ),
                            state,
                        },
                    ),
                }
            },
        },
    }
}

/// The members after the first `count` sources.
pub open spec fn with_members<C: ArchiveCodec + MetadataProfile, Out, T: StreamTaker<C, Out>>(
    codec: &C,
    setting: T::Setting,
    o: WriterOptions,
    dictionary: Option<Seq<u8>>,
    before: MembersValue<T::State>,
    runs: Seq<SourceRun>,
    count: nat,
) -> Result<MembersValue<T::State>, ArchiveWriteError>
    decreases count,
{
    if count == 0 {
        Ok(before)
    } else {
        match with_members::<C, Out, T>(
            codec,
            setting,
            o,
            dictionary,
            before,
            runs,
            (count - 1) as nat,
        ) {
            Err(e) => Err(e),
            Ok(state) => with_member::<C, Out, T>(
                codec,
                setting,
                o,
                dictionary,
                state,
                runs[count - 1],
            ),
        }
    }
}

/// Whether sources can have contributed `runs`.
pub open spec fn may_run_all<S: RegularFileSource>(files: Seq<S>, runs: Seq<SourceRun>) -> bool {
    &&& runs.len() == files.len()
    &&& forall|i: int| 0 <= i < files.len() ==> may_run(&#[trigger] files[i], runs[i])
}

proof fn first_member_error_stays<C: ArchiveCodec + MetadataProfile, Out, T: StreamTaker<C, Out>>(
    codec: &C,
    setting: T::Setting,
    o: WriterOptions,
    dictionary: Option<Seq<u8>>,
    before: MembersValue<T::State>,
    runs: Seq<SourceRun>,
    count: nat,
    total: nat,
)
    requires
        count <= total,
        with_members::<C, Out, T>(codec, setting, o, dictionary, before, runs, count) is Err,
    ensures
        with_members::<C, Out, T>(codec, setting, o, dictionary, before, runs, total)
            == with_members::<C, Out, T>(codec, setting, o, dictionary, before, runs, count),
    decreases total,
{
    if count < total {
        first_member_error_stays::<C, Out, T>(
            codec,
            setting,
            o,
            dictionary,
            before,
            runs,
            count,
            (total - 1) as nat,
        );
    }
}

proof fn members_are_local<C: ArchiveCodec + MetadataProfile, Out, T: StreamTaker<C, Out>>(
    codec: &C,
    setting: T::Setting,
    o: WriterOptions,
    dictionary: Option<Seq<u8>>,
    before: MembersValue<T::State>,
    a: Seq<SourceRun>,
    b: Seq<SourceRun>,
    count: nat,
)
    requires
        forall|i: int| 0 <= i < count ==> a[i] == b[i],
    ensures
        with_members::<C, Out, T>(codec, setting, o, dictionary, before, a, count) == with_members::<
            C,
            Out,
            T,
        >(codec, setting, o, dictionary, before, b, count),
    decreases count,
{
    if count > 0 {
        members_are_local::<C, Out, T>(
            codec,
            setting,
            o,
            dictionary,
            before,
            a,
            b,
            (count - 1) as nat,
        );
    }
}

/// Takes a member that was laid out, and whose stream is open.
pub fn write_prebuilt_member<
    'a,
    C: ArchiveCodec,
    Out,
    T: StreamTaker<C, Out>,
    S: RegularFileSource,
    P: ArchiveWriteProgressSink,
>(
    codec: &C,
    taker: &mut T,
    out: &mut Out,
    tar_members: &mut Vec<TarMember>,
    member: StreamingRegularMember,
    reader: &mut StreamingMemberReader<'a, S>,
    member_group_size: u64,
    options: WriterOptions,
    dictionary: Option<&[u8]>,
    progress: &mut P,
    ledger: &mut SourceProgressState,
) -> (r: Result<(), ArchiveWriteError>)
    requires
        options.block_size > 0,
        options.chunk_size > 0,
        old(taker).wf(*old(out)),
        members_wf(old(tar_members)@),
        member.portable_metadata.wf(),
        old(reader).wf(),
        old(reader).taken() == 0,
        old(reader).feed().bytes.len() == member_group_size,
        old(ledger).wf(),
    ensures
        final(ledger).wf(),
        phases_of(final(progress).events()) == phases_of(old(progress).events()),
        final(taker).setting() == old(taker).setting(),
        r is Ok ==> final(taker).wf(*final(out)),
        members_wf(final(tar_members)@),
        final(reader).source == old(reader).source,
        final(reader).sections == old(reader).sections,
        final(ledger).active_phase == old(ledger).active_phase,
        final(reader).source_bytes == old(reader).source_bytes,
        r is Ok ==> final(reader).drawn@ == drawn_size(
            final(reader).values(),
            final(reader).sections@.len(),
        ),
        r is Ok && old(reader).sections@.len() > 0 && old(reader).sections@.last()@.size > 0
            ==> final(reader).opened@ == openings(
            final(reader).values(),
            final(reader).sections@.len(),
        ),
        final(reader).chunk_size == old(reader).chunk_size,
        final(reader).opened@ >= old(reader).opened@,
        final(ledger).opened@ == old(ledger).opened@ + repeated(
            old(reader).source.run().described.path,
            final(reader).opened@ - old(reader).opened@,
        ),
        r is Ok ==> final(reader).opened@ <= openings(
            final(reader).values(),
            final(reader).sections@.len(),
        ),
        final(reader).drawn@ >= old(reader).drawn@,
        old(reader).source.steady() ==> reports(
            old(reader).source.run().described.path,
            old(reader).source_bytes,
            final(reader).drawn@ - old(reader).drawn@,
            *old(ledger),
            old(progress).events(),
            *final(ledger),
            final(progress).events(),
        ),
        final(reader).answers_allowed(),
        tar_member_values(final(tar_members)@) == tar_member_values(old(tar_members)@).push(
            MemberValue {
                primary: member@,
                tar_member_group_start: T::total_of(old(taker).state(*old(out))),
                tar_member_group_size: member_group_size,
            },
        ),
        goes(
            T::standing(*old(out)),
            T::standing(*final(out)),
            r,
            final(taker).state(*final(out)),
            framed_member::<C, Out, T>(
                codec,
                old(taker).setting(),
                old(taker).state(*old(out)),
                options,
                opt_bytes(dictionary),
                final(reader).feed(),
                (FramePlace {
                    member_index: old(tar_members)@.len() as usize,
                    member_start: T::total_of(old(taker).state(*old(out))),
                    member_offset: 0,
                    member_group_size,
                }),
                0,
            ),
        ),
{
    let ghost members = tar_member_values(tar_members@);
    let ghost v = member@;
    let member_start: u64 = taker.stream_total(out);
    let member_index: usize = tar_members.len();
    tar_members.push(member.placed_at(member_start, member_group_size));
    proof {
        assert(tar_member_values(tar_members@) =~= members.push(
            MemberValue {
                primary: v,
                tar_member_group_start: member_start,
                tar_member_group_size: member_group_size,
            },
        ));
    }
    frame_member(
        codec,
        taker,
        out,
        reader,
        options,
        dictionary,
        FramePlace { member_index, member_start, member_offset: 0, member_group_size },
        progress,
        ledger,
    )
}

/// Takes a member from its source.
pub fn write_regular_member_from_source<
    C: ArchiveCodec + MetadataProfile,
    Out,
    T: StreamTaker<C, Out>,
    S: RegularFileSource,
    P: ArchiveWriteProgressSink,
>(
    codec: &C,
    taker: &mut T,
    out: &mut Out,
    tar_members: &mut Vec<TarMember>,
    source: &S,
    options: WriterOptions,
    dictionary: Option<&[u8]>,
    progress: &mut P,
    ledger: &mut SourceProgressState,
) -> (r: Result<(), ArchiveWriteError>)
    requires
        source.most() >= options.chunk_size,
        options.block_size > 0,
        options.chunk_size > 0,
        old(taker).wf(*old(out)),
        members_wf(old(tar_members)@),
        old(ledger).wf(),
    ensures
        final(ledger).wf(),
        phases_of(final(progress).events()) == phases_of(old(progress).events()),
        r is Ok ==> opens_member(*source, old(ledger).opened@, final(ledger).opened@),
        r is Ok ==> tells_member(
            codec,
            *source,
            *old(ledger),
            old(progress).events(),
            *final(ledger),
            final(progress).events(),
        ),
        final(taker).setting() == old(taker).setting(),
        r is Ok ==> final(taker).wf(*final(out)),
        r is Ok ==> members_wf(final(tar_members)@),
        exists|run: SourceRun| #[trigger]
            may_run(source, run) && goes(
                T::standing(*old(out)),
            T::standing(*final(out)),
                r,
                (MembersValue {
                    members: tar_member_values(final(tar_members)@),
                    state: final(taker).state(*final(out)),
                }),
                with_member::<C, Out, T>(
                    codec,
                    old(taker).setting(),
                    options,
                    opt_bytes(dictionary),
                    (MembersValue {
                        members: tar_member_values(old(tar_members)@),
                        state: old(taker).state(*old(out)),
                    }),
                    run,
                ),
            ),
{
    reveal(with_member);
    let captured_member: Result<StreamingRegularMember, FormatError> = capture_member(
        codec,
        source,
        options.max_path_length,
    );
    let ghost d: Described = choose|d: Described| #[trigger]
        may_describe(source, d) && match (
            captured_member,
            captured(codec, d, options.max_path_length),
        ) {
            (Ok(member), Ok(value)) => member@ == value,
            (Err(e), Err(f)) => e == f,
            _ => false,
        };
    let ghost early = SourceRun { described: d, ..source.run() };
    assert(may_run(source, early));
    let member: StreamingRegularMember = lift(captured_member)?;
    let (mut reader, size) = lift(open_member(codec, source, &member, options.chunk_size))?;
    let ghost v = member@;
    let ghost sections = reader.values();
    let r: Result<(), ArchiveWriteError> = write_prebuilt_member(
        codec,
        taker,
        out,
        tar_members,
        member,
        &mut reader,
        size,
        options,
        dictionary,
        progress,
        ledger,
    );
    proof {
        let payload_size = source_payload_size_outcome(
            v.file_size,
            v.sparse_extents,
            codec.extent_limit(),
        )->Ok_0;
        let layout = layout_outcome(codec, v)->Ok_0;
        let run = reader.seen_run(early);
        assert(reader.values() =~= sections);
        reader.feed_is_the_sources(layout, v.metadata, payload_size, early);
        assert(may_run(source, run));
        assert(run.described == d);
        if r is Ok {
            reveal(declares_all);
            reveal(opens_member);
            if is_plain_source(*source) {
                let log = old(ledger).opened@;
                nothing_is_opened(log, path_of(*source));
                assert(log + repeated(path_of(*source), 1) =~= log.push(path_of(*source)));
                assert(reader.sections@.last()@ == sections.last());
            }
            drawn_members_are_told(
                codec,
                *source,
                reader.source_bytes,
                reader.drawn@,
                *old(ledger),
                old(progress).events(),
                *ledger,
                progress.events(),
            );
        }
    }
    r
}

/// Takes all members from their sources.
#[verifier::loop_isolation(false)]
pub fn write_members<
    C: ArchiveCodec + MetadataProfile,
    Out,
    T: StreamTaker<C, Out>,
    S: RegularFileSource,
    P: ArchiveWriteProgressSink,
>(
    codec: &C,
    taker: &mut T,
    out: &mut Out,
    tar_members: &mut Vec<TarMember>,
    files: &[S],
    options: WriterOptions,
    dictionary: Option<&[u8]>,
    progress: &mut P,
    ledger: &mut SourceProgressState,
) -> (r: Result<(), ArchiveWriteError>)
    requires
        take_requests(files@, options.chunk_size as int),
        options.block_size > 0,
        options.chunk_size > 0,
        old(taker).wf(*old(out)),
        members_wf(old(tar_members)@),
        old(ledger).wf(),
    ensures
        final(ledger).wf(),
        phases_of(final(progress).events()) == phases_of(old(progress).events()),
        r is Ok ==> opens_members(
            files@,
            files@.len(),
            old(ledger).opened@,
            final(ledger).opened@,
        ),
        r is Ok ==> tells_members(
            codec,
            files@,
            files@.len(),
            *old(ledger),
            old(progress).events(),
            *final(ledger),
            final(progress).events(),
        ),
        final(taker).setting() == old(taker).setting(),
        r is Ok ==> final(taker).wf(*final(out)),
        r is Ok ==> members_wf(final(tar_members)@),
        exists|runs: Seq<SourceRun>| #[trigger]
            may_run_all(files@, runs) && goes(
                T::standing(*old(out)),
            T::standing(*final(out)),
                r,
                (MembersValue {
                    members: tar_member_values(final(tar_members)@),
                    state: final(taker).state(*final(out)),
                }),
                with_members::<C, Out, T>(
                    codec,
                    old(taker).setting(),
                    options,
                    opt_bytes(dictionary),
                    (MembersValue {
                        members: tar_member_values(old(tar_members)@),
                        state: old(taker).state(*old(out)),
                    }),
                    runs,
                    files@.len(),
                ),
            ),
{
    let ghost dict = opt_bytes(dictionary);
    let ghost setting = taker.setting();
    let ghost first = MembersValue {
        members: tar_member_values(tar_members@),
        state: taker.state(*out),
    };
    let ghost mut runs: Seq<SourceRun> = Seq::new(files@.len(), |i: int| files@[i].run());
    proof {
        no_members_are_told(codec, files@, *ledger, progress.events());
    }
    let mut i: usize = 0;
    while i < files.len()
        invariant
            i <= files@.len(),
            taker.wf(*out),
            taker.setting() == setting,
            T::standing(*old(out)).goes_on(T::standing(*out)),
            members_wf(tar_members@),
            ledger.wf(),
            phases_of(progress.events()) == phases_of(old(progress).events()),
            opens_members(files@, i as nat, old(ledger).opened@, ledger.opened@),
            tells_members(
                codec,
                files@,
                i as nat,
                *old(ledger),
                old(progress).events(),
                *ledger,
                progress.events(),
            ),
            may_run_all(files@, runs),
            with_members::<C, Out, T>(codec, setting, options, dict, first, runs, i as nat) == Ok::<
                MembersValue<T::State>,
                ArchiveWriteError,
            >(
                MembersValue {
                    members: tar_member_values(tar_members@),
                    state: taker.state(*out),
                },
            ),
        decreases files.len() - i,
    {
        let ghost before = MembersValue {
            members: tar_member_values(tar_members@),
            state: taker.state(*out),
        };
        let ghost mid = T::standing(*out);
        let ghost old_runs = runs;
        let ghost noted = *ledger;
        let ghost told = progress.events();
        let r: Result<(), ArchiveWriteError> = write_regular_member_from_source(
            codec,
            taker,
            out,
            tar_members,
            &files[i],
            options,
            dictionary,
            progress,
            ledger,
        );
        proof {
            let after = MembersValue {
                members: tar_member_values(tar_members@),
                state: taker.state(*out),
            };
            let run = choose|run: SourceRun| #[trigger]
                may_run(&files@[i as int], run) && goes(
                    mid,
                    T::standing(*out),
                    r,
                    after,
                    with_member::<C, Out, T>(codec, setting, options, dict, before, run),
                );
            if r is Ok {
                assert(opens_members(files@, i as nat, old(ledger).opened@, noted.opened@));
                assert(opens_member(files@[i as int], noted.opened@, ledger.opened@));
                assert(opens_members(
                    files@,
                    (i + 1) as nat,
                    old(ledger).opened@,
                    ledger.opened@,
                ));
                one_more_is_told(
                    codec,
                    files@,
                    i as nat,
                    *old(ledger),
                    old(progress).events(),
                    noted,
                    told,
                    *ledger,
                    progress.events(),
                );
            }
            runs = old_runs.update(i as int, run);
            assert forall|k: int| 0 <= k < files@.len() implies may_run(
                &#[trigger] files@[k],
                runs[k],
            ) by {
                assert(may_run(&files@[k], old_runs[k]));
            }
            assert(may_run_all(files@, runs));
            members_are_local::<C, Out, T>(
                codec,
                setting,
                options,
                dict,
                first,
                runs,
                old_runs,
                i as nat,
            );
            if with_members::<C, Out, T>(
                codec,
                setting,
                options,
                dict,
                first,
                runs,
                (i + 1) as nat,
            ) is Err {
                first_member_error_stays::<C, Out, T>(
                    codec,
                    setting,
                    options,
                    dict,
                    first,
                    runs,
                    (i + 1) as nat,
                    files@.len(),
                );
            }
        }
        if r.is_err() {
            return r;
        }
        i = i + 1;
    }
    Ok(())
}

} // verus!
