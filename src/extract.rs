//! The extraction run: which entries are written, where, and with what bytes,
//! up to the first fatal error.
use vstd::prelude::*;
use vstd::string::*;
use crate::location::UrlParts;
use crate::registry::MimeTypes;
use crate::resolve::{destination_of, resolve, ExtractError, OutputLayoutPolicy, ResolvedDestination};

verus! {

/// The bytes that standard base64 decoding gives for `s`, or `None` where
/// `s` is not valid standard base64.
pub uninterp spec fn base64_decoded(s: Seq<char>) -> Option<Seq<u8>>;

/// Relies on base64's STANDARD engine `decode`: it depends on the text alone
/// and fails exactly where the text is not valid standard base64.
#[verifier::external_body]
fn decode_base64(s: &str) -> (r: Option<Vec<u8>>)
    ensures
        match r {
            Some(b) => base64_decoded(s@) == Some(b@),
            None => base64_decoded(s@) is None,
        },
{
    base64::Engine::decode(&base64::engine::general_purpose::STANDARD, s).ok()
}

/// One recorded request and response: where it came from, its declared
/// content type, and its body as base64 text (empty where there is none).
pub struct CapturedEntry {
    pub url: UrlParts,
    pub content_type: String,
    pub payload: String,
}

/// A file to write, as values: directories, file name and content.
pub struct PlannedWrite {
    pub dir: Seq<Seq<char>>,
    pub filename: Seq<char>,
    pub bytes: Seq<u8>,
}

/// A file to write under the output root.
pub struct FileWrite {
    pub destination: ResolvedDestination,
    pub bytes: Vec<u8>,
}

impl View for FileWrite {
    type V = PlannedWrite;

    open spec fn view(&self) -> PlannedWrite {
        PlannedWrite {
            dir: self.destination.dir_view(),
            filename: self.destination.filename@,
            bytes: self.bytes@,
        }
    }
}

pub open spec fn writes_view(v: Seq<FileWrite>) -> Seq<PlannedWrite> {
    v.map_values(|w: FileWrite| w@)
}

/// What one entry yields: nothing where its content type is not in the
/// table, else a write, or the error that stops the run.
pub open spec fn entry_outcome(
    e: CapturedEntry,
    policy: OutputLayoutPolicy,
    types: Map<Seq<char>, Seq<char>>,
) -> Result<Option<PlannedWrite>, ExtractError> {
    if !types.contains_key(e.content_type@) {
        Ok(None)
    } else {
        match destination_of(e.url, policy, types, types[e.content_type@]) {
            None => Err(ExtractError::MalformedUrl),
            Some(d) => match base64_decoded(e.payload@) {
                None => Err(ExtractError::InvalidEncoding),
                Some(b) => Ok(Some(PlannedWrite { dir: d.0, filename: d.1, bytes: b })),
            },
        }
    }
}

/// The state of a run: the writes so far, the entries seen, and the error
/// that stopped it, if one did.
pub struct RunState {
    pub writes: Seq<PlannedWrite>,
    pub total: nat,
    pub failure: Option<ExtractError>,
}

/// The run over `es` in order; it stops at the first error.
pub open spec fn run_entries(
    es: Seq<CapturedEntry>,
    policy: OutputLayoutPolicy,
    types: Map<Seq<char>, Seq<char>>,
) -> RunState
    decreases es.len(),
{
    if es.len() == 0 {
        RunState { writes: Seq::empty(), total: 0, failure: None }
    } else {
        let prev = run_entries(es.drop_last(), policy, types);
        if prev.failure is Some {
            prev
        } else {
            match entry_outcome(es.last(), policy, types) {
                Ok(None) => RunState { total: prev.total + 1, ..prev },
                Ok(Some(w)) => RunState {
                    writes: prev.writes.push(w),
                    total: prev.total + 1,
                    failure: None,
                },
                Err(err) => RunState { total: prev.total + 1, failure: Some(err), ..prev },
            }
        }
    }
}

/// The whole run: an invalid layout stops it before the first entry.
pub open spec fn run_spec(
    es: Seq<CapturedEntry>,
    policy: OutputLayoutPolicy,
    types: Map<Seq<char>, Seq<char>>,
) -> RunState {
    if !policy.is_valid() {
        RunState { writes: Seq::empty(), total: 0, failure: Some(ExtractError::ConfigurationError) }
    } else {
        run_entries(es, policy, types)
    }
}

/// The number of entries of `es` whose content type is in the table.
pub open spec fn count_extractable(es: Seq<CapturedEntry>, types: Map<Seq<char>, Seq<char>>) -> nat
    decreases es.len(),
{
    if es.len() == 0 {
        0
    } else {
        count_extractable(es.drop_last(), types) + if types.contains_key(es.last().content_type@) {
            1nat
        } else {
            0nat
        }
    }
}

/// How many entries were seen, and how many of them were written.
#[derive(Clone, Copy, Debug, PartialEq, Eq, Structural)]
pub struct ExtractionTally {
    pub total: usize,
    pub extracted: usize,
}

/// The outcome of a run: the files to write, in order, the tally, and the
/// error that stopped the run, if any. Where a run stopped, the files of the
/// entries before the failing one are still to be written.
pub struct ExtractionPlan {
    pub writes: Vec<FileWrite>,
    pub tally: ExtractionTally,
    pub failure: Option<ExtractError>,
}

/// Decides what one entry yields.
pub fn plan_entry(
    entry: &CapturedEntry,
    policy: &OutputLayoutPolicy,
    types: &MimeTypes,
) -> (r: Result<Option<FileWrite>, ExtractError>)
    requires
        types.wf(),
    ensures
        match r {
            Ok(Some(w)) => entry_outcome(*entry, *policy, types@) == Ok::<
                Option<PlannedWrite>,
                ExtractError,
            >(Some(w@)),
            Ok(None) => entry_outcome(*entry, *policy, types@) == Ok::<
                Option<PlannedWrite>,
                ExtractError,
            >(None),
            Err(e) => entry_outcome(*entry, *policy, types@) == Err::<
                Option<PlannedWrite>,
                ExtractError,
            >(e),
        },
{
    let ext = match types.get(entry.content_type.as_str()) {
        Some(ext) => ext,
        None => return Ok(None),
    };
    let destination = match resolve(&entry.url, policy, types, ext.as_str()) {
        Ok(d) => d,
        Err(e) => return Err(e),
    };
    match decode_base64(entry.payload.as_str()) {
        Some(bytes) => Ok(Some(FileWrite { destination, bytes })),
        None => Err(ExtractError::InvalidEncoding),
    }
}

/// Once a prefix of a run has failed, the run is that prefix's.
proof fn lemma_failure_sticks(
    es: Seq<CapturedEntry>,
    j: int,
    policy: OutputLayoutPolicy,
    types: Map<Seq<char>, Seq<char>>,
)
    requires
        0 <= j <= es.len(),
        run_entries(es.subrange(0, j), policy, types).failure is Some,
    ensures
        run_entries(es, policy, types) == run_entries(es.subrange(0, j), policy, types),
    decreases es.len(),
{
    if j == es.len() {
        assert(es.subrange(0, j) =~= es);
    } else {
        assert(es.drop_last().subrange(0, j) =~= es.subrange(0, j));
        lemma_failure_sticks(es.drop_last(), j, policy, types);
    }
}

/// Runs extraction over `entries` in order, up to the first fatal error.
pub fn plan_extraction(
    entries: &Vec<CapturedEntry>,
    policy: &OutputLayoutPolicy,
    types: &MimeTypes,
) -> (r: ExtractionPlan)
    requires
        types.wf(),
    ensures
        writes_view(r.writes@) == run_spec(entries@, *policy, types@).writes,
        r.tally.total == run_spec(entries@, *policy, types@).total,
        r.tally.extracted == r.writes@.len(),
        r.failure == run_spec(entries@, *policy, types@).failure,
{
    let mut writes: Vec<FileWrite> = Vec::new();
    if policy.validate().is_err() {
        return ExtractionPlan {
            writes,
            tally: ExtractionTally { total: 0, extracted: 0 },
            failure: Some(ExtractError::ConfigurationError),
        };
    }
    let n = entries.len();
    let mut i: usize = 0;
    assert(entries@.subrange(0, 0) =~= Seq::<CapturedEntry>::empty());
    assert(writes_view(writes@) =~= Seq::<PlannedWrite>::empty());
    while i < n
        invariant
            types.wf(),
            policy.is_valid(),
            n == entries@.len(),
            i <= n,
            run_entries(entries@.subrange(0, i as int), *policy, types@) == (RunState {
                writes: writes_view(writes@),
                total: i as nat,
                failure: None,
            }),
        decreases n - i,
    {
        let ghost before = writes@;
        let ghost prefix = entries@.subrange(0, i + 1);
        assert(prefix.drop_last() =~= entries@.subrange(0, i as int));
        assert(prefix.last() == entries@[i as int]);
        match plan_entry(&entries[i], policy, types) {
            Ok(None) => {},
            Ok(Some(w)) => {
                writes.push(w);
                assert(writes_view(writes@) =~= writes_view(before).push(w@));
            },
            Err(e) => {
                proof {
                    lemma_failure_sticks(entries@, i + 1, *policy, types@);
                }
                let extracted = writes.len();
                return ExtractionPlan {
                    writes,
                    tally: ExtractionTally { total: i + 1, extracted },
                    failure: Some(e),
                };
            },
        }
        i = i + 1;
    }
    assert(entries@.subrange(0, n as int) =~= entries@);
    let extracted = writes.len();
    ExtractionPlan { writes, tally: ExtractionTally { total: n, extracted }, failure: None }
}

/// The default name of the output directory for an archive whose file name,
/// without its extension, is `stem`.
pub fn default_output_dir_name(stem: &str) -> (r: String)
    ensures
        r@ == stem@ + "_extract"@,
{
    String::from_str(stem).concat("_extract")
}

} // verus!
