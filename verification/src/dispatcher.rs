use vstd::prelude::*;

use crate::config::{
    spec_config_of, spec_invalid_path_payload, spec_parse_args, resolve_config, PluginConfig,
    PluginConfigView,
};
use crate::coordinator::{
    close_invocation, correlate_invocation, open_invocation, seal_invocation, spec_close_args,
    spec_common_args, spec_correlate_args, spec_job_context, spec_open_args, spec_seal_args,
    JobContext, JobContextView, ToolInvocation, ToolInvocationView,
};
use crate::envinj::{
    inject_environment, opt_str_view, spec_env_mutations, EnvWrite, EnvWriteView,
};
use crate::errors::{ConfigError, EnvInjectionError, TraceLookupError};
use crate::text::{spec_uint_string, views_of};
use crate::trace::{get_xalt_trace, spec_find_trace};

verus! {

/// The execution context a scheduler callback arrives in: where a job is
/// submitted, where resources are allocated, where the job body runs, or
/// anywhere else.
#[derive(Clone, Copy, Debug, PartialEq, Eq, Structural)]
pub enum ExecContext {
    Submission,
    Allocation,
    Execution,
    OtherContext,
}

/// The lifecycle position of one job-hook instance.  The host drives the
/// states strictly forward, one callback each.
#[derive(Clone, Copy, Debug, PartialEq, Eq, Structural)]
pub enum LifecycleState {
    Created,
    Configured,
    OptionResolved,
    Active,
    Finalized,
}

/// One side effect the host must perform on the library's behalf: an
/// environment write (overwrite semantics) or a blocking run of the
/// external provenance tool.  The host performs a plan's actions in
/// order and abandons the rest of the plan when a tool run fails.
#[derive(Debug, Clone, PartialEq, Eq)]
pub enum Action {
    SetEnv(EnvWrite),
    RunTool(ToolInvocation),
}

/// Mathematical model of `Action`.
pub enum ActionView {
    SetEnv(EnvWriteView),
    RunTool(ToolInvocationView),
}

impl View for Action {
    type V = ActionView;

    open spec fn view(&self) -> ActionView {
        match self {
            Action::SetEnv(w) => ActionView::SetEnv(w@),
            Action::RunTool(t) => ActionView::RunTool(t@),
        }
    }
}

/// The views of a sequence of actions.
pub open spec fn action_views(acts: Seq<Action>) -> Seq<ActionView> {
    acts.map_values(|a: Action| a@)
}

/// The view of an optional resolved configuration.
pub open spec fn opt_config_view(c: Option<PluginConfig>) -> Option<PluginConfigView> {
    match c {
        Some(cfg) => Some(cfg@),
        None => None,
    }
}

/// The views of an optional directory listing of trace-file texts.
pub open spec fn opt_listing_view(listing: Option<&Vec<String>>) -> Option<Seq<Seq<char>>> {
    match listing {
        Some(fs) => Some(views_of(fs@)),
        None => None,
    }
}

/// How configuration resolution must come out: a configured tracing
/// directory that does not exist is rejected with its path; otherwise
/// the parsed settings become the configuration.
pub open spec fn config_outcome_ok(
    args: Seq<Seq<char>>,
    xalt_dir_exists: bool,
    cfg: Option<PluginConfigView>,
    err: Option<ConfigError>,
) -> bool {
    let s = spec_parse_args(args);
    match s.xalt_dir {
        Some(v) => if xalt_dir_exists {
            cfg == Some(spec_config_of(s, v)) && err is None
        } else {
            &&& cfg is None
            &&& err is Some
            &&& err.unwrap() is InvalidPath
            &&& spec_invalid_path_payload(err.unwrap()) == v
        },
        None => cfg == Some(spec_config_of(s, Seq::empty())) && err is None,
    }
}

/// The action plan of an enabled job-start hook: the environment writes
/// for the resolved user `u`, then the Open invocation.
pub open spec fn spec_user_init_actions(
    cfg: PluginConfigView,
    preload: Option<Seq<char>>,
    u: Seq<char>,
    job: JobContextView,
) -> Seq<ActionView> {
    spec_env_mutations(cfg, preload, u).map_values(|w: EnvWriteView| ActionView::SetEnv(w)) + seq![
        ActionView::RunTool(
            ToolInvocationView { program: cfg.provenance_tool_path, args: spec_open_args(cfg, job) },
        ),
    ]
}

/// The action plan of an enabled job-exit hook: Close always runs
/// first; a correlated window adds Correlate then Seal; a failed trace
/// lookup ends the plan after Close.
pub open spec fn spec_exit_actions(
    cfg: PluginConfigView,
    job: JobContextView,
    outcome: Result<(int, int), TraceLookupError>,
) -> Seq<ActionView> {
    match outcome {
        Ok((st, en)) => seq![
            ActionView::RunTool(
                ToolInvocationView {
                    program: cfg.provenance_tool_path,
                    args: spec_close_args(cfg, job),
                },
            ),
            ActionView::RunTool(
                ToolInvocationView {
                    program: cfg.provenance_tool_path,
                    args: spec_correlate_args(cfg, job, st, en),
                },
            ),
            ActionView::RunTool(
                ToolInvocationView {
                    program: cfg.provenance_tool_path,
                    args: spec_seal_args(cfg, job),
                },
            ),
        ],
        Err(_) => seq![
            ActionView::RunTool(
                ToolInvocationView {
                    program: cfg.provenance_tool_path,
                    args: spec_close_args(cfg, job),
                },
            ),
        ],
    }
}

/// The Close invocation as an action.
pub open spec fn close_action(cfg: PluginConfigView, job: JobContextView) -> ActionView {
    ActionView::RunTool(
        ToolInvocationView { program: cfg.provenance_tool_path, args: spec_close_args(cfg, job) },
    )
}

/// The Seal invocation as an action.
pub open spec fn seal_action(cfg: PluginConfigView, job: JobContextView) -> ActionView {
    ActionView::RunTool(
        ToolInvocationView { program: cfg.provenance_tool_path, args: spec_seal_args(cfg, job) },
    )
}

/// A Correlate invocation for the document, over some measured window.
pub open spec fn is_correlate_action(
    a: ActionView,
    cfg: PluginConfigView,
    job: JobContextView,
) -> bool {
    exists|st: int, en: int|
        a == ActionView::RunTool(
            ToolInvocationView {
                program: cfg.provenance_tool_path,
                args: #[trigger] spec_correlate_args(cfg, job, st, en),
            },
        )
}

/// Law: in every plan the exit hook can emit, a Seal invocation stands
/// only after both the Close invocation and a Correlate invocation for
/// the same document; and when the trace lookup failed, the plan holds
/// neither a Correlate nor a Seal.  Since the host performs a plan in
/// order and abandons it on the first failure, Seal is never invoked
/// before both Close and Correlate have been.
pub proof fn lemma_exit_plan_ordering(
    cfg: PluginConfigView,
    job: JobContextView,
    outcome: Result<(int, int), TraceLookupError>,
)
    ensures
        forall|i: int|
            0 <= i < spec_exit_actions(cfg, job, outcome).len() && spec_exit_actions(
                cfg,
                job,
                outcome,
            )[i] == seal_action(cfg, job) ==> exists|j: int, k: int|
                0 <= j < i && 0 <= k < i && spec_exit_actions(cfg, job, outcome)[j] == close_action(
                    cfg,
                    job,
                ) && is_correlate_action(spec_exit_actions(cfg, job, outcome)[k], cfg, job),
        outcome is Err ==> forall|i: int|
            0 <= i < spec_exit_actions(cfg, job, outcome).len() ==> spec_exit_actions(
                cfg,
                job,
                outcome,
            )[i] != seal_action(cfg, job) && !is_correlate_action(
                spec_exit_actions(cfg, job, outcome)[i],
                cfg,
                job,
            ),
{
    let plan = spec_exit_actions(cfg, job, outcome);
    assert(spec_common_args(cfg, job.document_path).len() == 8);
    match outcome {
        Ok((st, en)) => {
            assert(spec_close_args(cfg, job).len() == 15);
            assert(spec_correlate_args(cfg, job, st, en).len() == 20);
            assert(spec_seal_args(cfg, job).len() == 7);
            assert(plan[0] != seal_action(cfg, job));
            assert(plan[1] != seal_action(cfg, job));
            assert(plan[2] == seal_action(cfg, job));
            assert(plan[0] == close_action(cfg, job));
            assert(is_correlate_action(plan[1], cfg, job));
            assert forall|i: int| 0 <= i < plan.len() && plan[i] == seal_action(cfg, job) implies
                exists|j: int, k: int|
                    0 <= j < i && 0 <= k < i && plan[j] == close_action(cfg, job)
                        && is_correlate_action(plan[k], cfg, job) by {
                assert(i == 2);
                assert(0 <= 0 < i && 0 <= 1 < i && plan[0] == close_action(cfg, job)
                    && is_correlate_action(plan[1], cfg, job));
            }
        },
        Err(_) => {
            assert(spec_close_args(cfg, job).len() == 15);
            assert(spec_seal_args(cfg, job).len() == 7);
            assert(plan.len() == 1);
            assert(plan[0] != seal_action(cfg, job));
            assert(!is_correlate_action(plan[0], cfg, job)) by {
                if is_correlate_action(plan[0], cfg, job) {
                    let (st, en) = choose|st: int, en: int|
                        plan[0] == ActionView::RunTool(
                            ToolInvocationView {
                                program: cfg.provenance_tool_path,
                                args: #[trigger] spec_correlate_args(cfg, job, st, en),
                            },
                        );
                    assert(spec_correlate_args(cfg, job, st, en).len() == 20);
                }
            }
        },
    }
}

/// The trace-lookup outcome the exit hook acts on.
pub open spec fn spec_trace_outcome(
    listing: Option<Seq<Seq<char>>>,
    jid: Seq<char>,
) -> Result<(int, int), TraceLookupError> {
    match listing {
        None => Err(TraceLookupError::ReadError),
        Some(fs) => spec_find_trace(fs, jid),
    }
}

/// The per-job state machine driven by the scheduler's callbacks.  It
/// decides; the host performs.  Capture is opt-in per job and the
/// decision, once read, never changes.
pub struct Dispatcher {
    pub state: LifecycleState,
    pub config: Option<PluginConfig>,
    pub capture_enabled: bool,
}

/// Whether an instance will do provenance work in the given context: the
/// operator asked for capture, the context runs the job body, and
/// configuration resolved.
pub open spec fn spec_capture_armed(d: Dispatcher, ctx: ExecContext) -> bool {
    d.capture_enabled && ctx is Execution && d.config is Some
}

impl Dispatcher {
    /// A fresh instance: nothing resolved, capture off until the opt-in
    /// switch is read.
    pub fn new() -> (r: Dispatcher)
        ensures
            r.state == LifecycleState::Created,
            r.config is None,
            !r.capture_enabled,
    {
        Dispatcher { state: LifecycleState::Created, config: None, capture_enabled: false }
    }

    /// The scheduler's initialization callback: registers the opt-in
    /// switch everywhere a job is submitted, allocated or run, and
    /// resolves the configuration only where the job body runs.
    /// `xalt_dir_exists` reports whether the configured `xalt_dir`
    /// value, if any, resolves to an existing directory.
    pub fn on_init(&mut self, ctx: ExecContext, args: &Vec<String>, xalt_dir_exists: bool) -> (r: (
        bool,
        Option<ConfigError>,
    ))
        requires
            old(self).state == LifecycleState::Created,
        ensures
            final(self).state == LifecycleState::Configured,
            final(self).capture_enabled == old(self).capture_enabled,
            r.0 == !(ctx is OtherContext),
            !(ctx is Execution) ==> final(self).config is None && r.1 is None,
            ctx is Execution ==> config_outcome_ok(
                views_of(args@),
                xalt_dir_exists,
                opt_config_view(final(self).config),
                r.1,
            ),
    {
        let register = match ctx {
            ExecContext::Submission | ExecContext::Allocation | ExecContext::Execution => true,
            ExecContext::OtherContext => false,
        };
        let mut err: Option<ConfigError> = None;
        if let ExecContext::Execution = ctx {
            match resolve_config(args, xalt_dir_exists) {
                Ok(cfg) => {
                    self.config = Some(cfg);
                },
                Err(e) => {
                    self.config = None;
                    err = Some(e);
                },
            }
        } else {
            self.config = None;
        }
        self.state = LifecycleState::Configured;
        (register, err)
    }

    /// The post-option-parse callback: read the opt-in switch once;
    /// the decision is frozen for the rest of the job.
    pub fn on_init_post_opt(&mut self, option_set: bool)
        requires
            old(self).state == LifecycleState::Configured,
        ensures
            final(self).state == LifecycleState::OptionResolved,
            final(self).capture_enabled == option_set,
            final(self).config == old(self).config,
    {
        self.capture_enabled = option_set;
        self.state = LifecycleState::OptionResolved;
    }

    /// The user-context callback at job start.  When capture is armed it
    /// plans the tracing environment writes and the Open invocation; in
    /// every other case the plan is empty and the job's environment is
    /// left untouched.  A job owner that cannot be resolved aborts
    /// capture for this job without any partial plan.
    pub fn on_user_init(
        &mut self,
        ctx: ExecContext,
        job_id: u32,
        job_uid: u32,
        submit_dir: &String,
        job_user: &String,
        current_preload: Option<&String>,
    ) -> (r: Result<Vec<Action>, EnvInjectionError>)
        requires
            old(self).state == LifecycleState::OptionResolved,
        ensures
            final(self).state == LifecycleState::Active,
            final(self).capture_enabled == old(self).capture_enabled,
            final(self).config == old(self).config,
            !spec_capture_armed(*old(self), ctx) ==> (r matches Ok(acts) && acts@.len() == 0),
            spec_capture_armed(*old(self), ctx) ==> match r {
                Ok(acts) => exists|u: Seq<char>|
                    action_views(acts@) == #[trigger] spec_user_init_actions(
                        old(self).config.unwrap()@,
                        opt_str_view(current_preload),
                        u,
                        spec_job_context(job_id as int, submit_dir@, job_user@),
                    ),
                Err(e) => e == EnvInjectionError::UserNotFound(job_uid),
            },
    {
        self.state = LifecycleState::Active;
        if !self.capture_enabled {
            return Ok(Vec::new());
        }
        let armed = match ctx {
            ExecContext::Execution => true,
            _ => false,
        };
        if !armed {
            return Ok(Vec::new());
        }
        let cfg = match &self.config {
            Some(c) => c,
            None => {
                return Ok(Vec::new());
            },
        };
        let writes = match inject_environment(cfg, current_preload, job_uid) {
            Ok(ws) => ws,
            Err(e) => {
                return Err(e);
            },
        };
        let job = JobContext::new(job_id, submit_dir.clone(), job_user.clone());
        let open = open_invocation(cfg, &job);
        let mut acts: Vec<Action> = Vec::new();
        let ws = writes;
        let ghost wviews = ws@.map_values(|w: EnvWrite| w@);
        let mut i: usize = 0;
        while i < ws.len()
            invariant
                i <= ws.len(),
                wviews == ws@.map_values(|w: EnvWrite| w@),
                wviews.len() == ws@.len(),
                acts@.len() == i as int,
                forall|j: int|
                    0 <= j < i ==> acts@[j]@ == ActionView::SetEnv(wviews[j]),
            decreases ws.len() - i,
        {
            let w = EnvWrite { name: ws[i].name.clone(), value: ws[i].value.clone() };
            proof {
                assert(w@ == wviews[i as int]);
            }
            acts.push(Action::SetEnv(w));
            i = i + 1;
        }
        acts.push(Action::RunTool(open));
        proof {
            let cfgv = self.config.unwrap()@;
            let pl = opt_str_view(current_preload);
            let u = choose|u: Seq<char>|
                ws@.map_values(|w: EnvWrite| w@) == #[trigger] spec_env_mutations(cfgv, pl, u);
            assert(wviews == spec_env_mutations(cfgv, pl, u));
            let jobv = spec_job_context(job_id as int, submit_dir@, job_user@);
            let target = spec_user_init_actions(cfgv, pl, u, jobv);
            assert(job@ == jobv);
            assert(open@ == ToolInvocationView {
                program: cfgv.provenance_tool_path,
                args: spec_open_args(cfgv, jobv),
            });
            assert(target.len() == wviews.len() + 1);
            assert forall|j: int| 0 <= j < acts@.len() implies action_views(acts@)[j] == target[j]
            by {
                if j < wviews.len() {
                    assert(acts@[j]@ == ActionView::SetEnv(wviews[j]));
                } else {
                    assert(acts@[j] == Action::RunTool(open));
                }
            }
            assert(action_views(acts@) =~= target);
        }
        Ok(acts)
    }

    /// The exit callback.  When capture is armed it always plans the
    /// Close invocation; a successfully located trace extends the plan
    /// with Correlate and Seal, in that order, while a failed lookup
    /// ends the plan after Close and reports the failure.  Disarmed, the
    /// plan is empty.
    pub fn on_exit(
        &mut self,
        ctx: ExecContext,
        job_id: u32,
        submit_dir: &String,
        job_user: &String,
        listing: Option<&Vec<String>>,
    ) -> (r: (Vec<Action>, Option<TraceLookupError>))
        requires
            old(self).state == LifecycleState::Active,
        ensures
            final(self).state == LifecycleState::Finalized,
            final(self).capture_enabled == old(self).capture_enabled,
            final(self).config == old(self).config,
            !spec_capture_armed(*old(self), ctx) ==> r.0@.len() == 0 && r.1 is None,
            spec_capture_armed(*old(self), ctx) ==> {
                let outcome = spec_trace_outcome(
                    opt_listing_view(listing),
                    spec_uint_string(job_id as int),
                );
                let job = spec_job_context(job_id as int, submit_dir@, job_user@);
                &&& action_views(r.0@) == spec_exit_actions(
                    old(self).config.unwrap()@,
                    job,
                    outcome,
                )
                &&& r.1 == match outcome {
                    Ok(_) => None::<TraceLookupError>,
                    Err(e) => Some(e),
                }
            },
    {
        self.state = LifecycleState::Finalized;
        if !self.capture_enabled {
            return (Vec::new(), None);
        }
        let armed = match ctx {
            ExecContext::Execution => true,
            _ => false,
        };
        if !armed {
            return (Vec::new(), None);
        }
        let cfg = match &self.config {
            Some(c) => c,
            None => {
                return (Vec::new(), None);
            },
        };
        let job = JobContext::new(job_id, submit_dir.clone(), job_user.clone());
        let close = close_invocation(cfg, &job);
        let mut acts: Vec<Action> = Vec::new();
        acts.push(Action::RunTool(close));
        match get_xalt_trace(job_id, listing) {
            Ok(tr) => {
                let correlate = correlate_invocation(cfg, &job, &tr);
                let seal = seal_invocation(cfg, &job);
                acts.push(Action::RunTool(correlate));
                acts.push(Action::RunTool(seal));
                proof {
                    let outcome = spec_trace_outcome(
                        opt_listing_view(listing),
                        spec_uint_string(job_id as int),
                    );
                    assert(action_views(acts@) =~= spec_exit_actions(
                        self.config.unwrap()@,
                        spec_job_context(job_id as int, submit_dir@, job_user@),
                        outcome,
                    ));
                }
                (acts, None)
            },
            Err(e) => {
                proof {
                    let outcome = spec_trace_outcome(
                        opt_listing_view(listing),
                        spec_uint_string(job_id as int),
                    );
                    assert(action_views(acts@) =~= spec_exit_actions(
                        self.config.unwrap()@,
                        spec_job_context(job_id as int, submit_dir@, job_user@),
                        outcome,
                    ));
                }
                (acts, Some(e))
            },
        }
    }
}

} // verus!
