//! An order with fixed identities leads to one archive, however often it is carried out.
use crate::archive::{finishes, plan_answers, plan_emission};
use crate::bytes::{lex_lt, lex_lt_is_total};
use crate::codec::ArchiveCodec;
use crate::errors::{ArchiveWriteError, FormatError};
use crate::format::AeadAlgo;
use crate::hints::{hint_values, hints_of_groups, is_hint_index, lists_hints, HintRow, HintValue};
use crate::ids::may_identify;
use crate::key_wrap::{answers_alike, key_wrap_outcome, source_answers};
use crate::keys::{KdfValue, MasterKey, Subkeys};
use crate::members::{may_run_all, with_member, with_members, MembersValue};
use crate::options::{opt_bytes, planned_options, WriterOptions};
use crate::packing::{nothing_packed, PackValue, PayloadPacking};
use crate::plan::{
    front_plan, is_index_order, is_plan, plan_outcome, subkeys_outcome, wants_hints, PayloadValue,
    PlanRequest, PlanValue,
};
use crate::planning::{is_source_plan, payload_outcome, RecordsAnswer};
use crate::profile::MetadataProfile;
use crate::root_auth::RootAuthSigningRequest;
use crate::rows::{
    is_sorted_index, lists_members, row_of, row_values, FileRow, MemberValue, RowValue,
};
use crate::sink::{is_untouched, standing, ArchiveWriteSink};
use crate::sorting::{of_rank, same_rank, stably_sorted, Ranked};
use crate::source::{may_run, RegularFileSource, SourceRun};
use crate::suffix::{FooterAnswer, WrittenArchiveSummary};
use crate::two_pass::{
    carries_out, order_objection, plans_pass, widened, wider, writes_archive, writes_from_sources,
    writes_plan, ArchiveOrder, ArchiveRequest,
};
use vstd::prelude::*;

verus! {

// ---------------------------------------------------------------------------------------------
// Sorted lists
// ---------------------------------------------------------------------------------------------

/// Whether every element stands in a relation to those behind it.
spec fn holds_in_pairs<T>(s: Seq<T>, relation: spec_fn(T, T) -> bool) -> bool {
    forall|i: int, j: int|
        #![trigger s[i], s[j]]
        0 <= i < j < s.len() ==> relation(s[i], s[j])
}

proof fn filters_keep_pairs<T>(s: Seq<T>, p: spec_fn(T) -> bool, relation: spec_fn(T, T) -> bool)
    requires
        holds_in_pairs(s, relation),
    ensures
        holds_in_pairs(s.filter(p), relation),
    decreases s.len(),
{
    reveal(Seq::filter);
    if s.len() > 0 {
        let before = s.drop_last();
        filters_keep_pairs(before, p, relation);
        let f = before.filter(p);
        assert forall|i: int| 0 <= i < f.len() implies #[trigger] relation(f[i], s.last()) by {
            assert(f.contains(f[i]));
            before.lemma_filter_contains_rev(p, f[i]);
            let k = choose|k: int| 0 <= k < before.len() && before[k] == f[i];
            assert(relation(s[k], s[s.len() - 1]));
        }
    }
}

/// Two elements that a filter keeps stay in their order.
proof fn filters_keep_order<T>(s: Seq<T>, p: spec_fn(T) -> bool, i: int, j: int) -> (r: (int, int))
    requires
        0 <= i < j < s.len(),
        p(s[i]),
        p(s[j]),
    ensures
        0 <= r.0 < r.1 < s.filter(p).len(),
        s.filter(p)[r.0] == s[i],
        s.filter(p)[r.1] == s[j],
    decreases s.len(),
{
    reveal(Seq::filter);
    let before = s.drop_last();
    let f = before.filter(p);
    if j == s.len() - 1 {
        before.lemma_filter_contains(p, i);
        assert(f.contains(s[i]));
        let a = choose|a: int| 0 <= a < f.len() && f[a] == s[i];
        (a, f.len() as int)
    } else {
        filters_keep_order(before, p, i, j)
    }
}

/// Lists that hold the same, in one order, are the same.
proof fn sorted_lists_agree<T>(s: Seq<T>, t: Seq<T>, before: spec_fn(T, T) -> bool)
    requires
        forall|a: T, b: T| #[trigger] before(a, b) ==> !before(b, a),
        holds_in_pairs(s, before),
        holds_in_pairs(t, before),
        forall|v: T| #[trigger] s.contains(v) <==> t.contains(v),
    ensures
        s == t,
    decreases s.len(),
{
    if s.len() == 0 {
        if t.len() > 0 {
            assert(t.contains(t[0]));
            assert(s.contains(t[0]));
        }
        assert(s =~= t);
    } else if t.len() == 0 {
        assert(s.contains(s[0]));
        assert(t.contains(s[0]));
    } else {
        assert(s.contains(s.last()) && t.contains(t.last()));
        assert(t.contains(s.last()) && s.contains(t.last()));
        let a = choose|a: int| 0 <= a < t.len() && t[a] == s.last();
        let b = choose|b: int| 0 <= b < s.len() && s[b] == t.last();
        assert(s.last() == t.last()) by {
            if a < t.len() - 1 {
                assert(before(t[a], t[t.len() - 1]));
                if b < s.len() - 1 {
                    assert(before(s[b], s[s.len() - 1]));
                }
            }
        }
        let s1 = s.drop_last();
        let t1 = t.drop_last();
        assert forall|v: T| #[trigger] s1.contains(v) <==> t1.contains(v) by {
            if s1.contains(v) {
                let k = choose|k: int| 0 <= k < s1.len() && s1[k] == v;
                assert(before(s[k], s[s.len() - 1]));
                assert(s.contains(v));
                let m = choose|m: int| 0 <= m < t.len() && t[m] == v;
                assert(m < t.len() - 1);
                assert(t1[m] == v);
            }
            if t1.contains(v) {
                let k = choose|k: int| 0 <= k < t1.len() && t1[k] == v;
                assert(before(t[k], t[t.len() - 1]));
                assert(t.contains(v));
                assert(s.contains(v));
                let m = choose|m: int| 0 <= m < s.len() && s[m] == v;
                assert(m < s.len() - 1);
                assert(s1[m] == v);
            }
        }
        sorted_lists_agree(s1, t1, before);
        assert(s =~= s1.push(s.last()));
        assert(t =~= t1.push(t.last()));
    }
}

/// Elements of one rank keep the relation that they stood in before they were sorted.
proof fn ties_keep_their_relation<T: Ranked>(
    s: Seq<T>,
    r: Seq<T>,
    relation: spec_fn(T, T) -> bool,
    i: int,
    j: int,
)
    requires
        stably_sorted(s, r),
        holds_in_pairs(s, relation),
        0 <= i < j < r.len(),
        same_rank(&r[i], &r[j]),
    ensures
        relation(r[i], r[j]),
{
    let p = |y: T| same_rank(&r[i], &y);
    T::rank_is_irreflexive(&r[i]);
    let (a, b) = filters_keep_order(r, p, i, j);
    assert(of_rank(r, r[i]) == of_rank(s, r[i]));
    filters_keep_pairs(s, p, relation);
    assert(relation(s.filter(p)[a], s.filter(p)[b]));
}

// ---------------------------------------------------------------------------------------------
// Index order
// ---------------------------------------------------------------------------------------------

/// The order of the rows of an index: by rank, then by place among the members.
spec fn row_before(a: RowValue, b: RowValue) -> bool {
    ||| lex_lt(a.path_hash@, b.path_hash@)
    ||| a.path_hash@ == b.path_hash@ && lex_lt(a.path, b.path)
    ||| a.path_hash@ == b.path_hash@ && a.path == b.path && a.tar_member_group_start
        < b.tar_member_group_start
    ||| a.path_hash@ == b.path_hash@ && a.path == b.path && a.tar_member_group_start
        == b.tar_member_group_start && a.member_index < b.member_index
}

proof fn row_order_is_strict(a: RowValue, b: RowValue)
    ensures
        row_before(a, b) ==> !row_before(b, a),
{
    lex_lt_is_total(a.path_hash@, b.path_hash@);
    lex_lt_is_total(a.path, b.path);
}

/// What a sorted index holds, and that it is in order.
proof fn sorted_index_is_in_order<C: ArchiveCodec>(
    codec: &C,
    members: Seq<MemberValue>,
    rows: Seq<FileRow>,
)
    requires
        is_sorted_index(codec, members, rows),
        members.len() <= usize::MAX,
    ensures
        holds_in_pairs(row_values(rows), |a: RowValue, b: RowValue| row_before(a, b)),
        forall|v: RowValue| #[trigger] row_values(rows).contains(v) <==> exists|i: int|
            0 <= i < members.len() && v == #[trigger] row_of(codec, members[i], i as usize),
{
    broadcast use vstd::seq_lib::group_to_multiset_ensures;

    let listed = choose|listed: Seq<FileRow>| #[trigger]
        lists_members(codec, members, listed) && stably_sorted(listed, rows);
    let relation = |a: FileRow, b: FileRow| a.member_index < b.member_index;
    assert(holds_in_pairs(listed, relation)) by {
        assert forall|i: int, j: int|
            #![trigger listed[i], listed[j]]
            0 <= i < j < listed.len() implies relation(listed[i], listed[j]) by {
            assert(listed[i]@.member_index == i && listed[j]@.member_index == j);
        }
    }
    let values = row_values(rows);
    let before = |a: RowValue, b: RowValue| row_before(a, b);
    assert forall|i: int, j: int|
        #![trigger values[i], values[j]]
        0 <= i < j < values.len() implies before(values[i], values[j]) by {
        assert(!rows[j].ranks_below(&rows[i]));
        if same_rank(&rows[i], &rows[j]) {
            ties_keep_their_relation(listed, rows, relation, i, j);
            lex_lt_is_total(rows[i].path_hash@, rows[j].path_hash@);
            lex_lt_is_total(rows[i].path@, rows[j].path@);
        }
    }
    assert forall|v: RowValue| #[trigger] values.contains(v) <==> exists|i: int|
        0 <= i < members.len() && v == #[trigger] row_of(codec, members[i], i as usize) by {
        if values.contains(v) {
            let k = choose|k: int| 0 <= k < values.len() && values[k] == v;
            assert(rows.contains(rows[k]));
            assert(rows.to_multiset().count(rows[k]) > 0);
            assert(listed.contains(rows[k]));
            let i = choose|i: int| 0 <= i < listed.len() && listed[i] == rows[k];
            assert(listed[i]@ == row_of(codec, members[i], i as usize));
        }
        if exists|i: int|
            0 <= i < members.len() && v == #[trigger] row_of(codec, members[i], i as usize) {
            let i = choose|i: int|
                0 <= i < members.len() && v == #[trigger] row_of(codec, members[i], i as usize);
            assert(listed.contains(listed[i]));
            assert(listed.to_multiset().count(listed[i]) > 0);
            assert(rows.contains(listed[i]));
            let k = choose|k: int| 0 <= k < rows.len() && rows[k] == listed[i];
            assert(values[k] == v);
        }
    }
}

/// Members have one sorted index.
pub proof fn sorted_index_is_unique<C: ArchiveCodec>(
    codec: &C,
    members: Seq<MemberValue>,
    a: Seq<FileRow>,
    b: Seq<FileRow>,
)
    requires
        members.len() <= usize::MAX,
        is_sorted_index(codec, members, a),
        is_sorted_index(codec, members, b),
    ensures
        row_values(a) == row_values(b),
{
    sorted_index_is_in_order(codec, members, a);
    sorted_index_is_in_order(codec, members, b);
    let before = |v: RowValue, w: RowValue| row_before(v, w);
    assert forall|v: RowValue, w: RowValue| #[trigger] before(v, w) implies !before(w, v) by {
        row_order_is_strict(v, w);
    }
    sorted_lists_agree(row_values(a), row_values(b), before);
}

spec fn hint_before(a: HintValue, b: HintValue) -> bool {
    ||| lex_lt(a.dir_hash@, b.dir_hash@)
    ||| a.dir_hash@ == b.dir_hash@ && lex_lt(a.path, b.path)
}

proof fn hint_order_is_strict(a: HintValue, b: HintValue)
    ensures
        hint_before(a, b) ==> !hint_before(b, a),
{
    lex_lt_is_total(a.dir_hash@, b.dir_hash@);
    lex_lt_is_total(a.path, b.path);
}

/// Whether a hint is that of a directory of the map.
spec fn is_hint<C: ArchiveCodec>(codec: &C, map: Map<Seq<u8>, Seq<u32>>, v: HintValue) -> bool {
    &&& map.dom().contains(v.path)
    &&& v.shard_rows == map[v.path]
    &&& v.dir_hash == codec.path_hash(v.path)
}

proof fn hint_index_is_in_order<C: ArchiveCodec>(
    codec: &C,
    map: Map<Seq<u8>, Seq<u32>>,
    rows: Seq<HintRow>,
)
    requires
        is_hint_index(codec, map, rows),
    ensures
        holds_in_pairs(hint_values(rows), |a: HintValue, b: HintValue| hint_before(a, b)),
        forall|v: HintValue| #[trigger]
            hint_values(rows).contains(v) <==> is_hint(codec, map, v),
{
    broadcast use vstd::seq_lib::group_to_multiset_ensures;

    let listed = choose|listed: Seq<HintRow>| #[trigger]
        lists_hints(codec, map, listed) && stably_sorted(listed, rows);
    let relation = |a: HintRow, b: HintRow| a.path@ != b.path@;
    assert(holds_in_pairs(listed, relation));
    let values = hint_values(rows);
    let before = |a: HintValue, b: HintValue| hint_before(a, b);
    assert forall|i: int, j: int|
        #![trigger values[i], values[j]]
        0 <= i < j < values.len() implies before(values[i], values[j]) by {
        assert(!rows[j].ranks_below(&rows[i]));
        if same_rank(&rows[i], &rows[j]) {
            ties_keep_their_relation(listed, rows, relation, i, j);
            lex_lt_is_total(rows[i].dir_hash@, rows[j].dir_hash@);
            lex_lt_is_total(rows[i].path@, rows[j].path@);
        }
    }
    assert forall|v: HintValue| #[trigger] values.contains(v) <==> is_hint(codec, map, v) by {
        if values.contains(v) {
            let k = choose|k: int| 0 <= k < values.len() && values[k] == v;
            assert(rows.contains(rows[k]));
            assert(rows.to_multiset().count(rows[k]) > 0);
            assert(listed.contains(rows[k]));
            let i = choose|i: int| 0 <= i < listed.len() && listed[i] == rows[k];
            assert(map.dom().contains(listed[i].path@));
        }
        if is_hint(codec, map, v) {
            let i = choose|i: int| 0 <= i < listed.len() && (#[trigger] listed[i]).path@ == v.path;
            assert(listed.contains(listed[i]));
            assert(listed.to_multiset().count(listed[i]) > 0);
            assert(rows.contains(listed[i]));
            let k = choose|k: int| 0 <= k < rows.len() && rows[k] == listed[i];
            assert(values[k] == v);
        }
    }
}

/// The directories of an index have one sorted list of hints.
pub proof fn hint_index_is_unique<C: ArchiveCodec>(
    codec: &C,
    map: Map<Seq<u8>, Seq<u32>>,
    a: Seq<HintRow>,
    b: Seq<HintRow>,
)
    requires
        is_hint_index(codec, map, a),
        is_hint_index(codec, map, b),
    ensures
        hint_values(a) == hint_values(b),
{
    hint_index_is_in_order(codec, map, a);
    hint_index_is_in_order(codec, map, b);
    let before = |v: HintValue, w: HintValue| hint_before(v, w);
    assert forall|v: HintValue, w: HintValue| #[trigger] before(v, w) implies !before(w, v) by {
        hint_order_is_strict(v, w);
    }
    assert forall|v: HintValue| #[trigger] hint_values(a).contains(v) <==> hint_values(
        b,
    ).contains(v) by {
        assert(hint_values(a).contains(v) <==> is_hint(codec, map, v));
        assert(hint_values(b).contains(v) <==> is_hint(codec, map, v));
    }
    sorted_lists_agree(hint_values(a), hint_values(b), before);
}

// ---------------------------------------------------------------------------------------------
// Plans
// ---------------------------------------------------------------------------------------------

proof fn a_member_for_each_source<C: ArchiveCodec + MetadataProfile>(
    codec: &C,
    o: WriterOptions,
    dictionary: Option<Seq<u8>>,
    before: MembersValue<PackValue>,
    runs: Seq<SourceRun>,
    count: nat,
)
    ensures
        with_members::<C, (), PayloadPacking>(
            codec,
            o,
            o,
            dictionary,
            before,
            runs,
            count,
        ) matches Ok(packed) ==> packed.members.len() == before.members.len() + count,
    decreases count,
{
    reveal(with_member);
    if count > 0 {
        a_member_for_each_source(codec, o, dictionary, before, runs, (count - 1) as nat);
    }
}

/// A payload has one plan.
pub(crate) proof fn plans_are_unique<C: ArchiveCodec + MetadataProfile>(
    codec: &C,
    payload: PayloadValue,
    next: u64,
    o: WriterOptions,
    dictionary: Option<Seq<u8>>,
    kdf: KdfValue,
    key_wrap_table: Option<Seq<u8>>,
    request: PlanRequest,
    a: Result<PlanValue, FormatError>,
    b: Result<PlanValue, FormatError>,
)
    requires
        payload.members.len() <= usize::MAX,
        is_plan(codec, payload, next, o, dictionary, kdf, key_wrap_table, request, a),
        is_plan(codec, payload, next, o, dictionary, kdf, key_wrap_table, request, b),
    ensures
        a == b,
{
    let (rows, hints) = choose|rows: Seq<FileRow>, hints: Seq<HintRow>| #[trigger]
        is_index_order(codec, payload, next, o, dictionary, rows, hints) && a == plan_outcome(
            codec,
            payload,
            next,
            o,
            dictionary,
            kdf,
            key_wrap_table,
            request,
            row_values(rows),
            hint_values(hints),
        );
    let (other_rows, other_hints) = choose|rows: Seq<FileRow>, hints: Seq<HintRow>| #[trigger]
        is_index_order(codec, payload, next, o, dictionary, rows, hints) && b == plan_outcome(
            codec,
            payload,
            next,
            o,
            dictionary,
            kdf,
            key_wrap_table,
            request,
            row_values(rows),
            hint_values(hints),
        );
    sorted_index_is_unique(codec, payload.members, rows, other_rows);
    if let Ok(front) = front_plan(codec, payload, next, o, dictionary, row_values(rows)) {
        if wants_hints(payload.members) && front.groups.len() <= u32::MAX + 1 {
            let map = hints_of_groups(front.groups, front.groups.len());
            hint_index_is_unique(codec, map, hints, other_hints);
        }
    }
}

/// Sources that stay as they are contribute one thing.
pub proof fn steady_runs_are_unique<S: RegularFileSource>(
    files: Seq<S>,
    a: Seq<SourceRun>,
    b: Seq<SourceRun>,
)
    requires
        forall|i: int| 0 <= i < files.len() ==> (#[trigger] files[i]).steady(),
        may_run_all(files, a),
        may_run_all(files, b),
    ensures
        a == b,
{
    assert forall|i: int| 0 <= i < a.len() implies a[i] == b[i] by {
        assert(may_run(&files[i], a[i]) && may_run(&files[i], b[i]));
    }
    assert(a =~= b);
}

/// Two passes over sources that stay as they are, for recipients that do so too, come to the same
/// plan.
pub proof fn passes_agree<C: ArchiveCodec + MetadataProfile, S: RegularFileSource>(
    codec: &C,
    files: Seq<S>,
    request: ArchiveRequest,
    o: WriterOptions,
    a: Result<PlanValue, ArchiveWriteError>,
    b: Result<PlanValue, ArchiveWriteError>,
)
    requires
        files.len() <= usize::MAX,
        forall|i: int| 0 <= i < files.len() ==> (#[trigger] files[i]).steady(),
        answers_alike(request.key_wrap_records),
        plans_pass(codec, files, request, o, a),
        plans_pass(codec, files, request, o, b),
    ensures
        a == b,
{
    reveal(plans_pass);
    let dictionary = opt_bytes(request.dictionary);
    let kdf = request.kdf_params@;
    let (runs, answer) = choose|runs: Seq<SourceRun>, answer: RecordsAnswer|
        #![trigger may_run_all(files, runs), source_answers(request.key_wrap_records, answer)]
        may_run_all(files, runs) && source_answers(request.key_wrap_records, answer)
            && is_source_plan(codec, runs, answer, o, dictionary, kdf, request.plan, a);
    let (other_runs, other_answer) = choose|runs: Seq<SourceRun>, answer: RecordsAnswer|
        #![trigger may_run_all(files, runs), source_answers(request.key_wrap_records, answer)]
        may_run_all(files, runs) && source_answers(request.key_wrap_records, answer)
            && is_source_plan(codec, runs, answer, o, dictionary, kdf, request.plan, b);
    steady_runs_are_unique(files, runs, other_runs);
    if let Ok(planned) = payload_outcome(codec, runs, o, dictionary) {
        a_member_for_each_source(
            codec,
            o,
            dictionary,
            MembersValue { members: Seq::empty(), state: nothing_packed(0) },
            runs,
            runs.len(),
        );
        if let Ok((resolved, table)) = key_wrap_outcome(
            codec,
            kdf,
            request.plan.archive_uuid,
            request.plan.session_id,
            answer,
        ) {
            plans_are_unique(
                codec,
                planned.payload,
                planned.next,
                o,
                dictionary,
                resolved,
                table,
                request.plan,
                format_result(a),
                format_result(b),
            );
        }
    }
}

/// A plan, or why there is none, where only the format can be the reason.
spec fn format_result(r: Result<PlanValue, ArchiveWriteError>) -> Result<PlanValue, FormatError> {
    match r {
        Ok(plan) => Ok(plan),
        Err(ArchiveWriteError::Format(e)) => Err(e),
        Err(_) => arbitrary(),
    }
}

// ---------------------------------------------------------------------------------------------
// Archives
// ---------------------------------------------------------------------------------------------

/// Whether two attempts to write an archive came to the same, whatever time they took.
pub open spec fn same_results(
    a: Result<WrittenArchiveSummary, ArchiveWriteError>,
    b: Result<WrittenArchiveSummary, ArchiveWriteError>,
) -> bool {
    match (a, b) {
        (Ok(x), Ok(y)) => x == WrittenArchiveSummary { timings: x.timings, ..y },
        (Err(e), Err(f)) => e == f,
        _ => false,
    }
}

/// Whether two sinks hold the same after two attempts that came to the same.
pub open spec fn same_archives<O: ArchiveWriteSink>(
    sink: O,
    other: O,
    a: Result<WrittenArchiveSummary, ArchiveWriteError>,
    b: Result<WrittenArchiveSummary, ArchiveWriteError>,
) -> bool {
    &&& same_results(a, b)
    &&& a is Ok ==> sink.volumes() == other.volumes() && sink.sidecar() == other.sidecar()
}

proof fn emissions_agree<
    C: ArchiveCodec + MetadataProfile,
    O: ArchiveWriteSink,
    S: RegularFileSource,
    F: FnOnce(&RootAuthSigningRequest) -> Result<Vec<u8>, FormatError>,
>(
    codec: &C,
    files: Seq<S>,
    request: ArchiveRequest,
    plan: PlanValue,
    subkeys: Subkeys,
    authenticator: Option<F>,
    sink: O,
    other: O,
    a: Result<WrittenArchiveSummary, ArchiveWriteError>,
    b: Result<WrittenArchiveSummary, ArchiveWriteError>,
)
    requires
        forall|i: int| 0 <= i < files.len() ==> (#[trigger] files[i]).steady(),
        request.plan.root_auth is None,
        writes_from_sources(codec, files, request, plan, subkeys, authenticator, true, sink, a),
        writes_from_sources(codec, files, request, plan, subkeys, authenticator, true, other, b),
    ensures
        same_archives(sink, other, a, b),
{
    let dictionary = opt_bytes(request.dictionary);
    let caps = request.plan.caps;
    let (runs, answer) = choose|runs: Seq<SourceRun>, answer: FooterAnswer|
        #![trigger may_run_all(files, runs), plan_answers::<C, O, F>(codec, plan, subkeys, dictionary, runs, request.plan.root_auth, authenticator, caps, answer)]
        may_run_all(files, runs) && plan_answers::<C, O, F>(
            codec,
            plan,
            subkeys,
            dictionary,
            runs,
            request.plan.root_auth,
            authenticator,
            caps,
            answer,
        ) && finishes(
            true,
            sink,
            plan_emission::<C, O>(codec, plan, subkeys, false, dictionary, runs, caps, answer),
            plan.options.stripe_width,
            plan.archive_uuid,
            plan.session_id,
            a,
        );
    let (other_runs, other_answer) = choose|runs: Seq<SourceRun>, answer: FooterAnswer|
        #![trigger may_run_all(files, runs), plan_answers::<C, O, F>(codec, plan, subkeys, dictionary, runs, request.plan.root_auth, authenticator, caps, answer)]
        may_run_all(files, runs) && plan_answers::<C, O, F>(
            codec,
            plan,
            subkeys,
            dictionary,
            runs,
            request.plan.root_auth,
            authenticator,
            caps,
            answer,
        ) && finishes(
            true,
            other,
            plan_emission::<C, O>(codec, plan, subkeys, false, dictionary, runs, caps, answer),
            plan.options.stripe_width,
            plan.archive_uuid,
            plan.session_id,
            b,
        );
    steady_runs_are_unique(files, runs, other_runs);
    assert(plan_emission::<C, O>(
        codec,
        plan,
        subkeys,
        false,
        dictionary,
        runs,
        caps,
        answer,
    ) == plan_emission::<C, O>(
        codec,
        plan,
        subkeys,
        false,
        dictionary,
        runs,
        caps,
        other_answer,
    ));
}

proof fn requests_agree<
    C: ArchiveCodec + MetadataProfile,
    O: ArchiveWriteSink,
    S: RegularFileSource,
    F: FnOnce(&RootAuthSigningRequest) -> Result<Vec<u8>, FormatError>,
>(
    codec: &C,
    files: Seq<S>,
    request: ArchiveRequest,
    requested: WriterOptions,
    authenticator: Option<F>,
    first: O,
    other_first: O,
    sink: O,
    other: O,
    a: Result<WrittenArchiveSummary, ArchiveWriteError>,
    b: Result<WrittenArchiveSummary, ArchiveWriteError>,
)
    requires
        files.len() <= usize::MAX,
        forall|i: int| 0 <= i < files.len() ==> (#[trigger] files[i]).steady(),
        answers_alike(request.key_wrap_records),
        request.plan.root_auth is None,
        standing(first).undisturbed(standing(sink)),
        standing(other_first).undisturbed(standing(other)),
        writes_archive(codec, files, request, requested, authenticator, first, sink, a),
        writes_archive(codec, files, request, requested, authenticator, other_first, other, b),
    ensures
        same_archives(sink, other, a, b),
    decreases u32::MAX - requested.stripe_width,
{
    if let Ok(o) = planned_options(requested, request.plan.caps) {
        let planned = choose|planned: Result<PlanValue, ArchiveWriteError>|
            {
                &&& #[trigger] plans_pass(codec, files, request, o, planned)
                &&& match planned {
                    Err(e) => is_untouched(first, sink) && a == Err::<
                        WrittenArchiveSummary,
                        ArchiveWriteError,
                    >(e),
                    Ok(plan) => match wider(codec, request, o, plan) {
                        Err(e) => is_untouched(first, sink) && a == Err::<
                            WrittenArchiveSummary,
                            ArchiveWriteError,
                        >(ArchiveWriteError::Format(e)),
                        Ok(Some(width)) => requested.stripe_width < width && writes_archive(
                            codec,
                            files,
                            request,
                            WriterOptions { stripe_width: width, ..requested },
                            authenticator,
                            first,
                            sink,
                            a,
                        ),
                        Ok(None) => writes_plan(
                            codec,
                            files,
                            request,
                            plan,
                            authenticator,
                            first,
                            sink,
                            a,
                        ),
                    },
                }
            };
        let other_planned = choose|planned: Result<PlanValue, ArchiveWriteError>|
            {
                &&& #[trigger] plans_pass(codec, files, request, o, planned)
                &&& match planned {
                    Err(e) => is_untouched(other_first, other) && b == Err::<
                        WrittenArchiveSummary,
                        ArchiveWriteError,
                    >(e),
                    Ok(plan) => match wider(codec, request, o, plan) {
                        Err(e) => is_untouched(other_first, other) && b == Err::<
                            WrittenArchiveSummary,
                            ArchiveWriteError,
                        >(ArchiveWriteError::Format(e)),
                        Ok(Some(width)) => requested.stripe_width < width && writes_archive(
                            codec,
                            files,
                            request,
                            WriterOptions { stripe_width: width, ..requested },
                            authenticator,
                            other_first,
                            other,
                            b,
                        ),
                        Ok(None) => writes_plan(
                            codec,
                            files,
                            request,
                            plan,
                            authenticator,
                            other_first,
                            other,
                            b,
                        ),
                    },
                }
            };
        passes_agree(codec, files, request, o, planned, other_planned);
        if let Ok(plan) = planned {
            if let Ok(width) = wider(codec, request, o, plan) {
                if let Some(width) = width {
                    requests_agree(
                        codec,
                        files,
                        request,
                        WriterOptions { stripe_width: width, ..requested },
                        authenticator,
                        first,
                        other_first,
                        sink,
                        other,
                        a,
                        b,
                    );
                } else {
                    reveal(writes_plan);
                    if let Ok(subkeys) = subkeys_outcome(
                        codec,
                        request.plan.master_key,
                        plan.options.aead_algo,
                        plan.archive_uuid,
                        plan.session_id,
                    ) {
                        emissions_agree(
                            codec,
                            files,
                            request,
                            plan,
                            subkeys,
                            authenticator,
                            sink,
                            other,
                            a,
                            b,
                        );
                    }
                }
            }
        }
    }
}

/// An order whose identities are fixed, whose sources and recipients stay as they are, and that
/// asks for no signature leads to one archive: two sinks that refuse nothing come to hold
/// the same volumes and the same sidecar, and where it fails, it fails alike.
pub proof fn fixed_identities_fix_the_archive<
    C: ArchiveCodec + MetadataProfile,
    O: ArchiveWriteSink,
    S: RegularFileSource,
    F: FnOnce(&RootAuthSigningRequest) -> Result<Vec<u8>, FormatError>,
>(
    codec: &C,
    files: Seq<S>,
    order: ArchiveOrder,
    options: WriterOptions,
    authenticator: Option<F>,
    first: O,
    other_first: O,
    sink: O,
    other: O,
    a: Result<WrittenArchiveSummary, ArchiveWriteError>,
    b: Result<WrittenArchiveSummary, ArchiveWriteError>,
)
    requires
        files.len() <= usize::MAX,
        forall|i: int| 0 <= i < files.len() ==> (#[trigger] files[i]).steady(),
        options.archive_uuid is Some,
        options.session_id is Some,
        answers_alike(order.key_wrap_records),
        order.root_auth is None,
        standing(first).undisturbed(standing(sink)),
        standing(other_first).undisturbed(standing(other)),
        carries_out(codec, files, order, options, authenticator, first, sink, a),
        carries_out(codec, files, order, options, authenticator, other_first, other, b),
    ensures
        same_archives(sink, other, a, b),
{
    if order_objection(codec.spec_layout(), files.len() == 0, order) is None {
        let uuid = options.archive_uuid->0;
        let session = options.session_id->0;
        requests_agree(
            codec,
            files,
            order.spec_request(uuid, session),
            widened(options),
            authenticator,
            first,
            other_first,
            sink,
            other,
            a,
            b,
        );
    }
}

// ---------------------------------------------------------------------------------------------
// Keys that nothing is sealed with
// ---------------------------------------------------------------------------------------------

/// A request under another key.
pub open spec fn rekeyed<'a>(request: ArchiveRequest<'a>, master_key: MasterKey) -> ArchiveRequest<'a> {
    ArchiveRequest { plan: PlanRequest { master_key, ..request.plan }, ..request }
}

proof fn plans_keep_the_cipher<C: ArchiveCodec + MetadataProfile>(
    codec: &C,
    payload: PayloadValue,
    next: u64,
    o: WriterOptions,
    dictionary: Option<Seq<u8>>,
    kdf: KdfValue,
    key_wrap_table: Option<Seq<u8>>,
    request: PlanRequest,
    master_key: MasterKey,
    r: Result<PlanValue, FormatError>,
)
    requires
        o.aead_algo == AeadAlgo::Unsealed,
        is_plan(codec, payload, next, o, dictionary, kdf, key_wrap_table, request, r),
    ensures
        is_plan(
            codec,
            payload,
            next,
            o,
            dictionary,
            kdf,
            key_wrap_table,
            (PlanRequest { master_key, ..request }),
            r,
        ),
        r matches Ok(plan) ==> plan.options.aead_algo == AeadAlgo::Unsealed,
{
    let (rows, hints) = choose|rows: Seq<FileRow>, hints: Seq<HintRow>| #[trigger]
        is_index_order(codec, payload, next, o, dictionary, rows, hints) && r == plan_outcome(
            codec,
            payload,
            next,
            o,
            dictionary,
            kdf,
            key_wrap_table,
            request,
            row_values(rows),
            hint_values(hints),
        );
    let other = PlanRequest { master_key, ..request };
    assert(plan_outcome(
        codec,
        payload,
        next,
        o,
        dictionary,
        kdf,
        key_wrap_table,
        other,
        row_values(rows),
        hint_values(hints),
    ) == r);
}

proof fn unsealed_passes_need_no_key<C: ArchiveCodec + MetadataProfile, S: RegularFileSource>(
    codec: &C,
    files: Seq<S>,
    request: ArchiveRequest,
    master_key: MasterKey,
    o: WriterOptions,
    r: Result<PlanValue, ArchiveWriteError>,
)
    requires
        o.aead_algo == AeadAlgo::Unsealed,
        plans_pass(codec, files, request, o, r),
    ensures
        plans_pass(codec, files, rekeyed(request, master_key), o, r),
        r matches Ok(plan) ==> plan.options.aead_algo == AeadAlgo::Unsealed,
{
    reveal(plans_pass);
    let dictionary = opt_bytes(request.dictionary);
    let kdf = request.kdf_params@;
    let (runs, answer) = choose|runs: Seq<SourceRun>, answer: RecordsAnswer|
        #![trigger may_run_all(files, runs), source_answers(request.key_wrap_records, answer)]
        may_run_all(files, runs) && source_answers(request.key_wrap_records, answer)
            && is_source_plan(codec, runs, answer, o, dictionary, kdf, request.plan, r);
    if let Ok(planned) = payload_outcome(codec, runs, o, dictionary) {
        if let Ok((resolved, table)) = key_wrap_outcome(
            codec,
            kdf,
            request.plan.archive_uuid,
            request.plan.session_id,
            answer,
        ) {
            plans_keep_the_cipher(
                codec,
                planned.payload,
                planned.next,
                o,
                dictionary,
                resolved,
                table,
                request.plan,
                master_key,
                format_result(r),
            );
        }
    }
    let other = rekeyed(request, master_key);
    assert(may_run_all(files, runs) && source_answers(other.key_wrap_records, answer));
    assert(is_source_plan(codec, runs, answer, o, dictionary, kdf, other.plan, r));
}

proof fn unsealed_plans_need_no_key<
    C: ArchiveCodec + MetadataProfile,
    O: ArchiveWriteSink,
    S: RegularFileSource,
    F: FnOnce(&RootAuthSigningRequest) -> Result<Vec<u8>, FormatError>,
>(
    codec: &C,
    files: Seq<S>,
    request: ArchiveRequest,
    master_key: MasterKey,
    plan: PlanValue,
    authenticator: Option<F>,
    first: O,
    sink: O,
    r: Result<WrittenArchiveSummary, ArchiveWriteError>,
)
    requires
        plan.options.aead_algo == AeadAlgo::Unsealed,
        writes_plan(codec, files, request, plan, authenticator, first, sink, r),
    ensures
        writes_plan(
            codec,
            files,
            rekeyed(request, master_key),
            plan,
            authenticator,
            first,
            sink,
            r,
        ),
{
    reveal(writes_plan);
}

proof fn unsealed_requests_need_no_key<
    C: ArchiveCodec + MetadataProfile,
    O: ArchiveWriteSink,
    S: RegularFileSource,
    F: FnOnce(&RootAuthSigningRequest) -> Result<Vec<u8>, FormatError>,
>(
    codec: &C,
    files: Seq<S>,
    request: ArchiveRequest,
    master_key: MasterKey,
    requested: WriterOptions,
    authenticator: Option<F>,
    first: O,
    sink: O,
    r: Result<WrittenArchiveSummary, ArchiveWriteError>,
)
    requires
        requested.aead_algo == AeadAlgo::Unsealed,
        writes_archive(codec, files, request, requested, authenticator, first, sink, r),
    ensures
        writes_archive(
            codec,
            files,
            rekeyed(request, master_key),
            requested,
            authenticator,
            first,
            sink,
            r,
        ),
    decreases u32::MAX - requested.stripe_width,
{
    if let Ok(o) = planned_options(requested, request.plan.caps) {
        let other = rekeyed(request, master_key);
        let planned = choose|planned: Result<PlanValue, ArchiveWriteError>|
            {
                &&& #[trigger] plans_pass(codec, files, request, o, planned)
                &&& match planned {
                    Err(e) => is_untouched(first, sink) && r == Err::<
                        WrittenArchiveSummary,
                        ArchiveWriteError,
                    >(e),
                    Ok(plan) => match wider(codec, request, o, plan) {
                        Err(e) => is_untouched(first, sink) && r == Err::<
                            WrittenArchiveSummary,
                            ArchiveWriteError,
                        >(ArchiveWriteError::Format(e)),
                        Ok(Some(width)) => requested.stripe_width < width && writes_archive(
                            codec,
                            files,
                            request,
                            WriterOptions { stripe_width: width, ..requested },
                            authenticator,
                            first,
                            sink,
                            r,
                        ),
                        Ok(None) => writes_plan(
                            codec,
                            files,
                            request,
                            plan,
                            authenticator,
                            first,
                            sink,
                            r,
                        ),
                    },
                }
            };
        assert(o.aead_algo == requested.aead_algo);
        unsealed_passes_need_no_key(codec, files, request, master_key, o, planned);
        assert(plans_pass(codec, files, other, o, planned));
        if let Ok(plan) = planned {
            assert(wider(codec, other, o, plan) == wider(codec, request, o, plan));
            if let Ok(width) = wider(codec, request, o, plan) {
                if let Some(width) = width {
                    unsealed_requests_need_no_key(
                        codec,
                        files,
                        request,
                        master_key,
                        WriterOptions { stripe_width: width, ..requested },
                        authenticator,
                        first,
                        sink,
                        r,
                    );
                } else {
                    unsealed_plans_need_no_key(
                        codec,
                        files,
                        request,
                        master_key,
                        plan,
                        authenticator,
                        first,
                        sink,
                        r,
                    );
                }
            }
        }
    }
}

/// The key of an order has no part in an archive that nothing in is sealed.
pub proof fn unsealed_archives_need_no_key<
    C: ArchiveCodec + MetadataProfile,
    O: ArchiveWriteSink,
    S: RegularFileSource,
    F: FnOnce(&RootAuthSigningRequest) -> Result<Vec<u8>, FormatError>,
>(
    codec: &C,
    files: Seq<S>,
    order: ArchiveOrder,
    master_key: MasterKey,
    options: WriterOptions,
    authenticator: Option<F>,
    first: O,
    sink: O,
    r: Result<WrittenArchiveSummary, ArchiveWriteError>,
)
    requires
        options.aead_algo == AeadAlgo::Unsealed,
        carries_out(codec, files, order, options, authenticator, first, sink, r),
    ensures
        carries_out(
            codec,
            files,
            (ArchiveOrder { master_key, ..order }),
            options,
            authenticator,
            first,
            sink,
            r,
        ),
{
    if order_objection(codec.spec_layout(), files.len() == 0, order) is None {
        let (uuid, session) = choose|uuid: [u8; 16], session: [u8; 16]|
            {
                &&& #[trigger] may_identify(options.archive_uuid, uuid)
                &&& #[trigger] may_identify(options.session_id, session)
                &&& writes_archive(
                    codec,
                    files,
                    order.spec_request(uuid, session),
                    widened(options),
                    authenticator,
                    first,
                    sink,
                    r,
                )
            };
        let request = order.spec_request(uuid, session);
        let other = ArchiveOrder { master_key, ..order };
        unsealed_requests_need_no_key(
            codec,
            files,
            request,
            master_key,
            widened(options),
            authenticator,
            first,
            sink,
            r,
        );
        assert(other.spec_request(uuid, session) == rekeyed(request, master_key));
        assert(may_identify(options.archive_uuid, uuid));
        assert(may_identify(options.session_id, session));
    }
}

} // verus!
