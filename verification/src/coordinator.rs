use vstd::prelude::*;

use crate::config::{PluginConfig, PluginConfigView};
use crate::text::{spec_uint_string, uint_to_string, views_of};
use crate::timefmt::{get_date_from_timestamp, spec_timestamp_string, MAX_EPOCH_SECONDS};
use crate::trace::ExecutionTrace;

verus! {

/// Per-job facts derived once from the scheduler's handle.  The
/// provenance document always sits beside the submission directory,
/// named after the job.
#[derive(Debug, Clone, PartialEq, Eq)]
pub struct JobContext {
    pub job_id: u32,
    pub submit_dir: String,
    pub job_user: String,
    pub document_path: String,
}

/// Mathematical model of `JobContext`.
pub struct JobContextView {
    pub job_id: int,
    pub submit_dir: Seq<char>,
    pub job_user: Seq<char>,
    pub document_path: Seq<char>,
}

impl View for JobContext {
    type V = JobContextView;

    open spec fn view(&self) -> JobContextView {
        JobContextView {
            job_id: self.job_id as int,
            submit_dir: self.submit_dir@,
            job_user: self.job_user@,
            document_path: self.document_path@,
        }
    }
}

/// The fixed document path convention: `{submitDir}/tro-{jobId}.jsonld`.
pub open spec fn spec_document_path(submit_dir: Seq<char>, job_id: int) -> Seq<char> {
    submit_dir + "/tro-"@ + spec_uint_string(job_id) + ".jsonld"@
}

/// The job context that the given handle facts denote.
pub open spec fn spec_job_context(job_id: int, submit_dir: Seq<char>, job_user: Seq<char>) -> JobContextView {
    JobContextView {
        job_id: job_id,
        submit_dir: submit_dir,
        job_user: job_user,
        document_path: spec_document_path(submit_dir, job_id),
    }
}

impl JobContext {
    /// Derive the per-job facts, fixing the document path.
    pub fn new(job_id: u32, submit_dir: String, job_user: String) -> (r: JobContext)
        ensures
            r@ == spec_job_context(job_id as int, submit_dir@, job_user@),
    {
        let mut path = submit_dir.clone();
        path.append("/tro-");
        let digits = uint_to_string(job_id as u64);
        path.append(digits.as_str());
        path.append(".jsonld");
        let r = JobContext { job_id, submit_dir, job_user, document_path: path };
        proof {
            assert(r@.document_path =~= spec_document_path(r@.submit_dir, r@.job_id));
        }
        r
    }
}

/// One blocking invocation of the external provenance tool.
#[derive(Debug, Clone, PartialEq, Eq)]
pub struct ToolInvocation {
    pub program: String,
    pub args: Vec<String>,
}

/// Mathematical model of `ToolInvocation`.
pub struct ToolInvocationView {
    pub program: Seq<char>,
    pub args: Seq<Seq<char>>,
}

impl View for ToolInvocation {
    type V = ToolInvocationView;

    open spec fn view(&self) -> ToolInvocationView {
        ToolInvocationView { program: self.program@, args: views_of(self.args@) }
    }
}

/// The flags common to every document-mutating subcommand: document
/// path, capabilities profile, and the signing identity.
pub open spec fn spec_common_args(cfg: PluginConfigView, doc: Seq<char>) -> Seq<Seq<char>> {
    seq![
        "--declaration"@,
        doc,
        "--profile"@,
        cfg.capabilities_profile,
        "--gpg-fingerprint"@,
        cfg.signing_fingerprint,
        "--gpg-passphrase"@,
        cfg.signing_passphrase,
    ]
}

/// An `arrangement add` argument list with the given message, excluding
/// the version-control metadata and snapshotting the submit directory.
pub open spec fn spec_arrangement_args(
    cfg: PluginConfigView,
    job: JobContextView,
    message: Seq<char>,
) -> Seq<Seq<char>> {
    spec_common_args(cfg, job.document_path) + seq![
        "arrangement"@,
        "add"@,
        "-m"@,
        message,
        "-i"@,
        ".git"@,
        job.submit_dir,
    ]
}

/// The Open phase: arrangement entry 0, recorded at job start.
pub open spec fn spec_open_args(cfg: PluginConfigView, job: JobContextView) -> Seq<Seq<char>> {
    spec_arrangement_args(cfg, job, "'Initial arrangement'"@)
}

/// The Close phase: arrangement entry 1, recorded at job exit.
pub open spec fn spec_close_args(cfg: PluginConfigView, job: JobContextView) -> Seq<Seq<char>> {
    spec_arrangement_args(cfg, job, "'Final arrangement'"@)
}

/// The Correlate phase: a `performance add` spanning the measured
/// window, referring back to arrangement entries 0 and 1.
pub open spec fn spec_correlate_args(
    cfg: PluginConfigView,
    job: JobContextView,
    start: int,
    end: int,
) -> Seq<Seq<char>> {
    spec_common_args(cfg, job.document_path) + seq![
        "performance"@,
        "add"@,
        "-m"@,
        "'Run magic'"@,
        "-s"@,
        spec_timestamp_string(start),
        "-e"@,
        spec_timestamp_string(end),
        "-a"@,
        "arrangement/0"@,
        "-M"@,
        "arrangement/1"@,
    ]
}

/// The Seal phase: `sign`, after which the document may not change.
pub open spec fn spec_seal_args(cfg: PluginConfigView, job: JobContextView) -> Seq<Seq<char>> {
    seq![
        "--declaration"@,
        job.document_path,
        "--gpg-fingerprint"@,
        cfg.signing_fingerprint,
        "--gpg-passphrase"@,
        cfg.signing_passphrase,
        "sign"@,
    ]
}

fn common_args(cfg: &PluginConfig, doc: &String) -> (r: Vec<String>)
    ensures
        views_of(r@) == spec_common_args(cfg@, doc@),
{
    let mut out: Vec<String> = Vec::new();
    out.push("--declaration".to_owned());
    out.push(doc.clone());
    out.push("--profile".to_owned());
    out.push(cfg.capabilities_profile.clone());
    out.push("--gpg-fingerprint".to_owned());
    out.push(cfg.signing_fingerprint.clone());
    out.push("--gpg-passphrase".to_owned());
    out.push(cfg.signing_passphrase.clone());
    proof {
        assert(views_of(out@) =~= spec_common_args(cfg@, doc@));
    }
    out
}

fn arrangement_invocation(cfg: &PluginConfig, job: &JobContext, message: &str) -> (r:
    ToolInvocation)
    ensures
        r@.program == cfg@.provenance_tool_path,
        r@.args == spec_arrangement_args(cfg@, job@, message@),
{
    let mut args = common_args(cfg, &job.document_path);
    args.push("arrangement".to_owned());
    args.push("add".to_owned());
    args.push("-m".to_owned());
    args.push(message.to_owned());
    args.push("-i".to_owned());
    args.push(".git".to_owned());
    args.push(job.submit_dir.clone());
    let r = ToolInvocation { program: cfg.provenance_tool_path.clone(), args };
    proof {
        assert(r@.args =~= spec_arrangement_args(cfg@, job@, message@));
    }
    r
}

/// The Open invocation for the job's document.
pub fn open_invocation(cfg: &PluginConfig, job: &JobContext) -> (r: ToolInvocation)
    ensures
        r@.program == cfg@.provenance_tool_path,
        r@.args == spec_open_args(cfg@, job@),
{
    arrangement_invocation(cfg, job, "'Initial arrangement'")
}

/// The Close invocation for the job's document.
pub fn close_invocation(cfg: &PluginConfig, job: &JobContext) -> (r: ToolInvocation)
    ensures
        r@.program == cfg@.provenance_tool_path,
        r@.args == spec_close_args(cfg@, job@),
{
    arrangement_invocation(cfg, job, "'Final arrangement'")
}

/// The Correlate invocation: the trace's measured window, rendered in
/// the canonical timestamp format, linked to arrangement entries 0 and 1.
pub fn correlate_invocation(cfg: &PluginConfig, job: &JobContext, trace: &ExecutionTrace) -> (r:
    ToolInvocation)
    requires
        0 <= trace.start_time < MAX_EPOCH_SECONDS,
        0 <= trace.end_time < MAX_EPOCH_SECONDS,
    ensures
        r@.program == cfg@.provenance_tool_path,
        r@.args == spec_correlate_args(cfg@, job@, trace.start_time as int, trace.end_time as int),
{
    let start = get_date_from_timestamp(trace.start_time);
    let end = get_date_from_timestamp(trace.end_time);
    let mut args = common_args(cfg, &job.document_path);
    args.push("performance".to_owned());
    args.push("add".to_owned());
    args.push("-m".to_owned());
    args.push("'Run magic'".to_owned());
    args.push("-s".to_owned());
    args.push(start);
    args.push("-e".to_owned());
    args.push(end);
    args.push("-a".to_owned());
    args.push("arrangement/0".to_owned());
    args.push("-M".to_owned());
    args.push("arrangement/1".to_owned());
    let r = ToolInvocation { program: cfg.provenance_tool_path.clone(), args };
    proof {
        assert(r@.args =~= spec_correlate_args(
            cfg@,
            job@,
            trace.start_time as int,
            trace.end_time as int,
        ));
    }
    r
}

/// The Seal invocation for the job's document.
pub fn seal_invocation(cfg: &PluginConfig, job: &JobContext) -> (r: ToolInvocation)
    ensures
        r@.program == cfg@.provenance_tool_path,
        r@.args == spec_seal_args(cfg@, job@),
{
    let mut args: Vec<String> = Vec::new();
    args.push("--declaration".to_owned());
    args.push(job.document_path.clone());
    args.push("--gpg-fingerprint".to_owned());
    args.push(cfg.signing_fingerprint.clone());
    args.push("--gpg-passphrase".to_owned());
    args.push(cfg.signing_passphrase.clone());
    args.push("sign".to_owned());
    let r = ToolInvocation { program: cfg.provenance_tool_path.clone(), args };
    proof {
        assert(r@.args =~= spec_seal_args(cfg@, job@));
    }
    r
}

} // verus!
