//! The execution run record and the metadata sidecar that the recorder emits.
//!
//! The record is flat, `snake_case` on the wire, and every key is present
//! (nullable where the contract allows).

use vstd::prelude::*;

use crate::strmap::StrMap;
use crate::text::opt_text;

verus! {

/// The execution operation type.
#[derive(Clone, Copy, Debug, PartialEq, Eq, Structural)]
pub enum RunRecordType {
    Build,
    Test,
    Deploy,
}

impl RunRecordType {
    /// The wire name of the type.
    pub open spec fn name(self) -> Seq<char> {
        match self {
            RunRecordType::Build => "build"@,
            RunRecordType::Test => "test"@,
            RunRecordType::Deploy => "deploy"@,
        }
    }

    /// The wire name of the type.
    pub fn as_str(self) -> (s: &'static str)
        ensures
            s@ == self.name(),
    {
        match self {
            RunRecordType::Build => "build",
            RunRecordType::Test => "test",
            RunRecordType::Deploy => "deploy",
        }
    }
}

/// A single entry of `inputs` or `outputs`.
#[derive(Clone, Debug, PartialEq, Eq)]
pub struct ArtifactEntry {
    /// Real absolute path as observed; not relativized.
    pub path: String,
    /// `sha256:<64 lowercase hex>` of the file content.
    pub hash: String,
}

/// What an [`ArtifactEntry`] says.
pub struct ArtifactView {
    pub path: Seq<char>,
    pub hash: Seq<char>,
}

impl View for ArtifactEntry {
    type V = ArtifactView;

    open spec fn view(&self) -> ArtifactView {
        ArtifactView { path: self.path@, hash: self.hash@ }
    }
}

/// What an optional list of artifacts says.
pub open spec fn artifacts(a: Option<Vec<ArtifactEntry>>) -> Option<Seq<ArtifactView>> {
    match a {
        Some(v) => Some(v@.map_values(|e: ArtifactEntry| e@)),
        None => None,
    }
}

/// What an optional map of texts says.
pub open spec fn text_map(m: Option<StrMap<String>>) -> Option<Map<Seq<char>, Seq<char>>> {
    match m {
        Some(m) => Some(m@.map_values(|s: String| s@)),
        None => None,
    }
}

/// Wall-clock window. Present on the wire; surfaced on the sidecar as well.
#[derive(Clone, Debug, PartialEq, Eq)]
pub struct Timestamps {
    pub start_time: String,
    pub end_time: String,
    pub duration_ms: u64,
}

/// What a [`Timestamps`] says.
pub struct TimestampsView {
    pub start_time: Seq<char>,
    pub end_time: Seq<char>,
    pub duration_ms: u64,
}

impl View for Timestamps {
    type V = TimestampsView;

    open spec fn view(&self) -> TimestampsView {
        TimestampsView {
            start_time: self.start_time@,
            end_time: self.end_time@,
            duration_ms: self.duration_ms,
        }
    }
}

/// The flat execution run record.
#[derive(Clone, Debug, PartialEq, Eq)]
pub struct RunRecord {
    /// `type` on the wire.
    pub run_type: RunRecordType,
    pub command: String,
    /// `None` when not observable; never defaulted to 0.
    pub exit_code: Option<i32>,
    pub platform: String,
    pub architecture: String,
    pub working_directory: String,
    pub repo: String,
    pub commit: String,
    pub tool_versions: Option<StrMap<String>>,
    pub inputs: Option<Vec<ArtifactEntry>>,
    pub outputs: Option<Vec<ArtifactEntry>>,
    pub environment: Option<StrMap<String>>,
    pub timestamps: Timestamps,
}

/// What a [`RunRecord`] says.
pub struct RunRecordView {
    pub run_type: RunRecordType,
    pub command: Seq<char>,
    pub exit_code: Option<i32>,
    pub platform: Seq<char>,
    pub architecture: Seq<char>,
    pub working_directory: Seq<char>,
    pub repo: Seq<char>,
    pub commit: Seq<char>,
    pub tool_versions: Option<Map<Seq<char>, Seq<char>>>,
    pub inputs: Option<Seq<ArtifactView>>,
    pub outputs: Option<Seq<ArtifactView>>,
    pub environment: Option<Map<Seq<char>, Seq<char>>>,
    pub timestamps: TimestampsView,
}

impl View for RunRecord {
    type V = RunRecordView;

    open spec fn view(&self) -> RunRecordView {
        RunRecordView {
            run_type: self.run_type,
            command: self.command@,
            exit_code: self.exit_code,
            platform: self.platform@,
            architecture: self.architecture@,
            working_directory: self.working_directory@,
            repo: self.repo@,
            commit: self.commit@,
            tool_versions: text_map(self.tool_versions),
            inputs: artifacts(self.inputs),
            outputs: artifacts(self.outputs),
            environment: text_map(self.environment),
            timestamps: self.timestamps@,
        }
    }
}

/// Operational facts about the run, outside the receipt-identity hash.
#[derive(Clone, Debug, PartialEq, Eq)]
pub struct ExecutionMetadataSidecar {
    pub start_time: Option<String>,
    pub end_time: Option<String>,
    pub duration_ms: Option<u64>,
    /// Capture fidelity grade.
    pub observation_mode: Option<String>,
    /// Deploy-event identity for re-deploy counting.
    pub run_id: Option<String>,
    pub run_attempt: Option<String>,
    /// Deploy destination (`prod`/`staging`), sourced from the CI adapter.
    pub deploy_target: Option<String>,
}

/// What an [`ExecutionMetadataSidecar`] says.
pub struct SidecarView {
    pub start_time: Option<Seq<char>>,
    pub end_time: Option<Seq<char>>,
    pub duration_ms: Option<u64>,
    pub observation_mode: Option<Seq<char>>,
    pub run_id: Option<Seq<char>>,
    pub run_attempt: Option<Seq<char>>,
    pub deploy_target: Option<Seq<char>>,
}

impl View for ExecutionMetadataSidecar {
    type V = SidecarView;

    open spec fn view(&self) -> SidecarView {
        SidecarView {
            start_time: opt_text(self.start_time),
            end_time: opt_text(self.end_time),
            duration_ms: self.duration_ms,
            observation_mode: opt_text(self.observation_mode),
            run_id: opt_text(self.run_id),
            run_attempt: opt_text(self.run_attempt),
            deploy_target: opt_text(self.deploy_target),
        }
    }
}

impl Default for ExecutionMetadataSidecar {
    /// A sidecar with nothing set.
    fn default() -> (s: Self)
        ensures
            s == (ExecutionMetadataSidecar {
                start_time: None,
                end_time: None,
                duration_ms: None,
                observation_mode: None,
                run_id: None,
                run_attempt: None,
                deploy_target: None,
            }),
    {
        ExecutionMetadataSidecar {
            start_time: None,
            end_time: None,
            duration_ms: None,
            observation_mode: None,
            run_id: None,
            run_attempt: None,
            deploy_target: None,
        }
    }
}

/// The request body of a submission.
#[derive(Clone, Debug)]
pub struct SubmissionBody {
    /// `runRecord` on the wire.
    pub run_record: RunRecord,
    pub metadata: ExecutionMetadataSidecar,
}

/// What a [`SubmissionBody`] says.
pub struct SubmissionView {
    pub run_record: RunRecordView,
    pub metadata: SidecarView,
}

impl View for SubmissionBody {
    type V = SubmissionView;

    open spec fn view(&self) -> SubmissionView {
        SubmissionView { run_record: self.run_record@, metadata: self.metadata@ }
    }
}

} // verus!
