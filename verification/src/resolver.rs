//! Timestamp resolution: interpreting the metadata extractor's output and
//! driving the fallback chain that may borrow a sibling's timestamp.
//!
//! The extractor is an external tool; invoking it, and listing a directory,
//! are the caller's work. A [`ResolveSession`] decides, step by step, what to
//! run next and what the outcome is, so the chain's logic — what counts as a
//! usable output, which files fall back to siblings, in what order siblings
//! are tried — is all verified.

use vstd::prelude::*;

use crate::paths::{ext_of, extension_of};
use crate::sidecar::{is_proxy_dependent, is_sibling_of, proxy_dependent_ext, sibling_candidates};
use crate::text::seq_views;
use crate::timestamp::{stamp_of, well_formed_stamp, ExifTime};

verus! {

/// Why a file's timestamp could not be resolved. `NotFound` and `ParseError`
/// are file-local, recoverable by skipping the file; `ToolUnavailable` means
/// the extractor cannot run at all and the whole run should stop, since the
/// condition will recur for every file.
#[derive(Clone, Copy, Debug, PartialEq, Eq, Structural)]
pub enum ResolveError {
    NotFound,
    ParseError,
    ToolUnavailable,
}

/// What one extractor output amounts to: a parsed timestamp, no timestamp at
/// all, or text that does not fit the grammar.
#[derive(Clone, Copy, Debug, PartialEq, Eq, Structural)]
pub enum Extraction {
    Stamp(ExifTime),
    NoOutput,
    Malformed,
}

/// How an extractor output is read: empty means the file carries no
/// timestamp, a well-formed stamp is parsed, anything else is malformed.
pub open spec fn extraction_of(s: Seq<char>) -> Extraction {
    if s.len() == 0 {
        Extraction::NoOutput
    } else if well_formed_stamp(s) {
        Extraction::Stamp(stamp_of(s))
    } else {
        Extraction::Malformed
    }
}

/// Classifies one extractor output.
pub fn interpret_output(out: &str) -> (r: Extraction)
    ensures
        r == extraction_of(out@),
{
    if out.unicode_len() == 0 {
        Extraction::NoOutput
    } else {
        match ExifTime::parse(out) {
            Some(t) => Extraction::Stamp(t),
            None => Extraction::Malformed,
        }
    }
}

/// What the caller must do next for the session to advance.
pub enum ResolveAction {
    /// Run the extractor on this path and report its output.
    RunExtractor(String),
    /// List the directory holding this file and report the entries.
    ListDirectory(String),
    /// Resolution succeeded with this timestamp.
    Resolved(ExifTime),
    /// Resolution failed; the error says whether the file is skipped or the
    /// run must stop.
    Failed(ResolveError),
}

/// Where the session stands in the fallback chain.
#[derive(Clone, Copy, Debug, PartialEq, Eq, Structural)]
pub enum ResolveStage {
    /// Awaiting the extractor's output for the file itself.
    Direct,
    /// Awaiting the listing of the file's directory.
    Listing,
    /// Awaiting the extractor's output for a sibling; more may wait in the
    /// queue.
    Siblings,
    /// Resolution has ended, one way or the other.
    Settled,
}

/// The resolution of one file's capture timestamp, step by step: first the
/// extractor on the file itself; on empty output, for the proxy-dependent
/// extensions only, each same-stem sibling in listing order until one
/// yields a timestamp.
pub struct ResolveSession {
    /// The file being resolved.
    pub file: String,
    /// Where the chain stands.
    pub stage: ResolveStage,
    /// The siblings still to try, nearest first.
    pub queue: Vec<String>,
}

impl ResolveSession {
    /// Opens the resolution of one file: the first step is always to run the
    /// extractor on the file itself.
    pub fn begin(file: String) -> (r: (ResolveSession, ResolveAction))
        ensures
            r.0.file == file,
            r.0.stage == ResolveStage::Direct,
            r.1 matches ResolveAction::RunExtractor(p) && p@ == file@,
    {
        let target = file.clone();
        (
            ResolveSession { file, stage: ResolveStage::Direct, queue: Vec::new() },
            ResolveAction::RunExtractor(target),
        )
    }

    /// Takes the extractor's output for the file itself. A timestamp settles
    /// the session; malformed output is a parse error; empty output falls
    /// back to the directory listing exactly for the proxy-dependent
    /// extensions, and is `NotFound` for every other file.
    pub fn on_direct_output(&mut self, out: &str) -> (r: ResolveAction)
        requires
            old(self).stage == ResolveStage::Direct,
        ensures
            final(self).file == old(self).file,
            match extraction_of(out@) {
                Extraction::Stamp(t) => final(self).stage == ResolveStage::Settled && (r matches
                    ResolveAction::Resolved(got) && got == t),
                Extraction::Malformed => final(self).stage == ResolveStage::Settled && (r matches
                    ResolveAction::Failed(e) && e == ResolveError::ParseError),
                Extraction::NoOutput => {
                    if ext_of(old(self).file@) matches Some(x) && proxy_dependent_ext(x) {
                        &&& final(self).stage == ResolveStage::Listing
                        &&& r matches ResolveAction::ListDirectory(p) && p@ == old(self).file@
                    } else {
                        &&& final(self).stage == ResolveStage::Settled
                        &&& r matches ResolveAction::Failed(e) && e == ResolveError::NotFound
                    }
                },
            },
    {
        match interpret_output(out) {
            Extraction::Stamp(t) => {
                self.stage = ResolveStage::Settled;
                ResolveAction::Resolved(t)
            },
            Extraction::Malformed => {
                self.stage = ResolveStage::Settled;
                ResolveAction::Failed(ResolveError::ParseError)
            },
            Extraction::NoOutput => {
                let fall_back = match extension_of(self.file.as_str()) {
                    Some(e) => is_proxy_dependent(e.as_str()),
                    None => false,
                };
                if fall_back {
                    self.stage = ResolveStage::Listing;
                    ResolveAction::ListDirectory(self.file.clone())
                } else {
                    self.stage = ResolveStage::Settled;
                    ResolveAction::Failed(ResolveError::NotFound)
                }
            },
        }
    }

    /// Takes the listing of the file's directory and queues the sibling
    /// candidates, in listing order: the first is tried at once, and a file
    /// with no candidates is `NotFound`.
    pub fn on_listing(&mut self, entries: &Vec<String>) -> (r: ResolveAction)
        requires
            old(self).stage == ResolveStage::Listing,
        ensures
            final(self).file == old(self).file,
            ({
                let cands = seq_views(entries@).filter(
                    |e: Seq<char>| is_sibling_of(old(self).file@, e),
                );
                if cands.len() == 0 {
                    &&& final(self).stage == ResolveStage::Settled
                    &&& r matches ResolveAction::Failed(e) && e == ResolveError::NotFound
                } else {
                    &&& final(self).stage == ResolveStage::Siblings
                    &&& seq_views(final(self).queue@) == cands.drop_first()
                    &&& r matches ResolveAction::RunExtractor(p) && p@ == cands[0]
                }
            }),
    {
        let mut cands = sibling_candidates(self.file.as_str(), entries);
        if cands.len() == 0 {
            self.stage = ResolveStage::Settled;
            ResolveAction::Failed(ResolveError::NotFound)
        } else {
            let first = cands.remove(0);
            proof {
                assert(seq_views(cands@) =~= seq_views(entries@).filter(
                    |e: Seq<char>| is_sibling_of(old(self).file@, e),
                ).drop_first());
            }
            self.stage = ResolveStage::Siblings;
            self.queue = cands;
            ResolveAction::RunExtractor(first)
        }
    }

    /// Takes the extractor's output for the sibling last tried. A timestamp
    /// settles the session; a malformed output is surfaced as a parse error
    /// rather than skipped over silently; an empty output moves on to the
    /// next queued sibling, and `NotFound` settles the session once the
    /// queue is spent.
    pub fn on_sibling_output(&mut self, out: &str) -> (r: ResolveAction)
        requires
            old(self).stage == ResolveStage::Siblings,
        ensures
            final(self).file == old(self).file,
            match extraction_of(out@) {
                Extraction::Stamp(t) => final(self).stage == ResolveStage::Settled && (r matches
                    ResolveAction::Resolved(got) && got == t),
                Extraction::Malformed => final(self).stage == ResolveStage::Settled && (r matches
                    ResolveAction::Failed(e) && e == ResolveError::ParseError),
                Extraction::NoOutput => {
                    if old(self).queue@.len() == 0 {
                        &&& final(self).stage == ResolveStage::Settled
                        &&& r matches ResolveAction::Failed(e) && e == ResolveError::NotFound
                    } else {
                        &&& final(self).stage == ResolveStage::Siblings
                        &&& seq_views(final(self).queue@) == seq_views(
                            old(self).queue@,
                        ).drop_first()
                        &&& r matches ResolveAction::RunExtractor(p) && p@ == old(
                            self,
                        ).queue@[0]@
                    }
                },
            },
    {
        match interpret_output(out) {
            Extraction::Stamp(t) => {
                self.stage = ResolveStage::Settled;
                ResolveAction::Resolved(t)
            },
            Extraction::Malformed => {
                self.stage = ResolveStage::Settled;
                ResolveAction::Failed(ResolveError::ParseError)
            },
            Extraction::NoOutput => {
                if self.queue.len() == 0 {
                    self.stage = ResolveStage::Settled;
                    ResolveAction::Failed(ResolveError::NotFound)
                } else {
                    let next = self.queue.remove(0);
                    proof {
                        assert(seq_views(self.queue@) =~= seq_views(
                            old(self).queue@,
                        ).drop_first());
                    }
                    ResolveAction::RunExtractor(next)
                }
            },
        }
    }

    /// Takes a failure to launch the extractor: fatal, whichever file or
    /// sibling was being tried, since it will recur for every one.
    pub fn on_tool_failure(&mut self) -> (r: ResolveAction)
        requires
            old(self).stage == ResolveStage::Direct || old(self).stage == ResolveStage::Siblings,
        ensures
            final(self).file == old(self).file,
            final(self).stage == ResolveStage::Settled,
            r matches ResolveAction::Failed(e) && e == ResolveError::ToolUnavailable,
    {
        self.stage = ResolveStage::Settled;
        ResolveAction::Failed(ResolveError::ToolUnavailable)
    }
}

/// How many extractor invocations share one scratch workspace before it is
/// wiped, bounding the tool's disk growth.
pub const CLEANUP_INTERVAL: u64 = 10;

/// The extractor's scratch workspace: a counter of invocations that tells its
/// single owner when a periodic wipe is due.
pub struct ExtractionWorkspace {
    /// How many invocations the workspace has served.
    pub calls: u64,
}

impl ExtractionWorkspace {
    /// A fresh workspace: no invocations served yet.
    pub fn new() -> (r: ExtractionWorkspace)
        ensures
            r.calls == 0,
    {
        ExtractionWorkspace { calls: 0 }
    }

    /// Records one extractor invocation; true exactly when this invocation
    /// crosses the cleanup threshold and the caller must wipe the workspace.
    pub fn record_call(&mut self) -> (wipe: bool)
        requires
            old(self).calls < u64::MAX,
        ensures
            final(self).calls == old(self).calls + 1,
            wipe == (final(self).calls % CLEANUP_INTERVAL == 0),
    {
        self.calls = self.calls + 1;
        self.calls % CLEANUP_INTERVAL == 0
    }
}

} // verus!
