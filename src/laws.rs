//! Properties of whole runs.
use vstd::prelude::*;
use crate::extract::{
    base64_decoded, count_extractable, run_entries, run_spec, writes_view, CapturedEntry,
    ExtractionPlan, PlannedWrite,
};
use crate::resolve::{destination_of, ExtractError, OutputLayoutPolicy};

verus! {

/// The place of a file under the output root: its directories and its name.
pub type FilePlace = (Seq<Seq<char>>, Seq<char>);

/// The file tree after `ws` are written in order onto `tree`: a later write
/// to a place replaces an earlier one.
pub open spec fn apply_writes(tree: Map<FilePlace, Seq<u8>>, ws: Seq<PlannedWrite>) -> Map<
    FilePlace,
    Seq<u8>,
>
    decreases ws.len(),
{
    if ws.len() == 0 {
        tree
    } else {
        apply_writes(tree, ws.drop_last()).insert(
            (ws.last().dir, ws.last().filename),
            ws.last().bytes,
        )
    }
}

/// Whether one of `ws` writes to `k`.
pub open spec fn written(ws: Seq<PlannedWrite>, k: FilePlace) -> bool {
    exists|i: int| 0 <= i < ws.len() && (#[trigger] ws[i].dir, ws[i].filename) == k
}

proof fn lemma_apply_written(
    t1: Map<FilePlace, Seq<u8>>,
    t2: Map<FilePlace, Seq<u8>>,
    ws: Seq<PlannedWrite>,
    k: FilePlace,
)
    requires
        written(ws, k),
    ensures
        apply_writes(t1, ws).contains_key(k),
        apply_writes(t2, ws).contains_key(k),
        apply_writes(t1, ws)[k] == apply_writes(t2, ws)[k],
    decreases ws.len(),
{
    let init = ws.drop_last();
    if (ws.last().dir, ws.last().filename) != k {
        let i = choose|i: int| 0 <= i < ws.len() && (#[trigger] ws[i].dir, ws[i].filename) == k;
        assert(i != ws.len() - 1);
        assert(init[i] == ws[i]);
        lemma_apply_written(t1, t2, init, k);
    }
}

proof fn lemma_apply_unwritten(t: Map<FilePlace, Seq<u8>>, ws: Seq<PlannedWrite>, k: FilePlace)
    requires
        !written(ws, k),
    ensures
        apply_writes(t, ws).contains_key(k) == t.contains_key(k),
        apply_writes(t, ws)[k] == t[k],
    decreases ws.len(),
{
    if ws.len() > 0 {
        let init = ws.drop_last();
        assert(ws[ws.len() - 1] == ws.last());
        assert forall|i: int| 0 <= i < init.len() implies (#[trigger] init[i].dir, init[i].filename)
            != k by {
            assert(init[i] == ws[i]);
        }
        lemma_apply_unwritten(t, init, k);
    }
}

/// Writing a run's files a second time onto the tree that the first writing
/// left changes nothing.
pub proof fn rewriting_changes_nothing(t: Map<FilePlace, Seq<u8>>, ws: Seq<PlannedWrite>)
    ensures
        apply_writes(apply_writes(t, ws), ws) == apply_writes(t, ws),
{
    let once = apply_writes(t, ws);
    let twice = apply_writes(once, ws);
    assert forall|k: FilePlace| #[trigger] twice.contains_key(k) == once.contains_key(k) && (
    once.contains_key(k) ==> twice[k] == once[k]) by {
        if written(ws, k) {
            lemma_apply_written(once, t, ws, k);
        } else {
            lemma_apply_unwritten(once, ws, k);
        }
    }
    assert(twice =~= once);
}

/// Two runs over the same entries, layout and table, each into an empty
/// output root, leave the same file tree.
pub proof fn extraction_is_deterministic(
    es: Seq<CapturedEntry>,
    policy: OutputLayoutPolicy,
    types: Map<Seq<char>, Seq<char>>,
    first: ExtractionPlan,
    second: ExtractionPlan,
)
    requires
        writes_view(first.writes@) == run_spec(es, policy, types).writes,
        writes_view(second.writes@) == run_spec(es, policy, types).writes,
    ensures
        apply_writes(Map::empty(), writes_view(first.writes@)) == apply_writes(
            Map::empty(),
            writes_view(second.writes@),
        ),
{
}

/// No run writes more files than it has seen entries, nor sees more entries
/// than it was given.
pub proof fn extracted_within_total(
    es: Seq<CapturedEntry>,
    policy: OutputLayoutPolicy,
    types: Map<Seq<char>, Seq<char>>,
)
    ensures
        run_spec(es, policy, types).writes.len() <= run_spec(es, policy, types).total <= es.len(),
    decreases es.len(),
{
    if es.len() > 0 {
        extracted_within_total(es.drop_last(), policy, types);
    }
}

/// A run that completes sees every entry and writes exactly one file for each
/// entry whose content type is in the table, and none for the others.
pub proof fn one_write_per_extractable_entry(
    es: Seq<CapturedEntry>,
    policy: OutputLayoutPolicy,
    types: Map<Seq<char>, Seq<char>>,
)
    requires
        run_spec(es, policy, types).failure is None,
    ensures
        run_spec(es, policy, types).writes.len() == count_extractable(es, types),
        run_spec(es, policy, types).total == es.len(),
    decreases es.len(),
{
    if es.len() > 0 {
        one_write_per_extractable_entry(es.drop_last(), policy, types);
    }
}

/// Whether `w` is what entry `e` yields: its decoded payload, at the place
/// its URL leads to.
pub open spec fn write_from_entry(
    w: PlannedWrite,
    e: CapturedEntry,
    policy: OutputLayoutPolicy,
    types: Map<Seq<char>, Seq<char>>,
) -> bool {
    &&& types.contains_key(e.content_type@)
    &&& base64_decoded(e.payload@) == Some(w.bytes)
    &&& destination_of(e.url, policy, types, types[e.content_type@]) == Some((w.dir, w.filename))
}

/// Each file of a run holds exactly the decoded payload of one of its
/// entries, and goes where that entry's URL leads.
pub proof fn writes_hold_decoded_payloads(
    es: Seq<CapturedEntry>,
    policy: OutputLayoutPolicy,
    types: Map<Seq<char>, Seq<char>>,
)
    ensures
        forall|j: int|
            0 <= j < run_spec(es, policy, types).writes.len() ==> exists|i: int|
                0 <= i < es.len() && write_from_entry(
                    #[trigger] run_spec(es, policy, types).writes[j],
                    es[i],
                    policy,
                    types,
                ),
    decreases es.len(),
{
    if policy.is_valid() && es.len() > 0 {
        let init = es.drop_last();
        writes_hold_decoded_payloads(init, policy, types);
        let prev = run_entries(init, policy, types);
        let ws = run_spec(es, policy, types).writes;
        assert forall|j: int| 0 <= j < ws.len() implies exists|i: int|
            0 <= i < es.len() && write_from_entry(#[trigger] ws[j], es[i], policy, types) by {
            if j < prev.writes.len() {
                assert(ws[j] == prev.writes[j]);
                let i = choose|i: int|
                    0 <= i < init.len() && write_from_entry(
                        #[trigger] run_spec(init, policy, types).writes[j],
                        init[i],
                        policy,
                        types,
                    );
                assert(init[i] == es[i]);
            } else {
                assert(es.last() == es[es.len() - 1]);
                assert(write_from_entry(ws[j], es[es.len() - 1], policy, types));
            }
        }
    }
}

/// Where the first `k` entries go through and entry `k` is extractable, has a
/// destination, but carries no valid base64, the run stops there with an
/// encoding error and keeps the writes of the entries before it.
pub proof fn invalid_payload_stops_run(
    es: Seq<CapturedEntry>,
    policy: OutputLayoutPolicy,
    types: Map<Seq<char>, Seq<char>>,
    k: int,
)
    requires
        policy.is_valid(),
        0 <= k < es.len(),
        run_entries(es.subrange(0, k), policy, types).failure is None,
        types.contains_key(es[k].content_type@),
        destination_of(es[k].url, policy, types, types[es[k].content_type@]) is Some,
        base64_decoded(es[k].payload@) is None,
    ensures
        run_spec(es, policy, types).failure == Some(ExtractError::InvalidEncoding),
        run_spec(es, policy, types).writes == run_entries(es.subrange(0, k), policy, types).writes,
    decreases es.len(),
{
    if es.len() == k + 1 {
        assert(es.drop_last() =~= es.subrange(0, k));
        assert(es.last() == es[k]);
    } else {
        let init = es.drop_last();
        assert(init.subrange(0, k) =~= es.subrange(0, k));
        assert(init[k] == es[k]);
        invalid_payload_stops_run(init, policy, types, k);
    }
}

} // verus!
