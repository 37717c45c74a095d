use tro_capture::config::resolve_config;
use tro_capture::coordinator::{
    close_invocation, correlate_invocation, open_invocation, seal_invocation, JobContext,
};
use tro_capture::dispatcher::{Action, Dispatcher, ExecContext, LifecycleState};
use tro_capture::errors::TraceLookupError;
use tro_capture::timefmt::get_date_from_timestamp;
use tro_capture::trace::ExecutionTrace;

fn args_of(list: &[&str]) -> Vec<String> {
    list.iter().map(|s| s.to_string()).collect()
}

fn trace_text(job: &str, start: &str, end: &str) -> String {
    format!(
        "{{\"userT\":{{\"job_id\":\"{}\"}},\"userDT\":{{\"start_time\":{},\"end_time\":{}}}}}",
        job, start, end
    )
}

fn sample_args() -> Vec<String> {
    args_of(&[
        "xalt_dir=/opt/xalt",
        "gpg_home=/h/.gnupg",
        "gpg_fingerprint=FP",
        "gpg_passphrase=PW",
        "trs_caps=/etc/caps.json",
        "tro_utils=/usr/bin/tro-utils",
    ])
}

#[test]
fn timestamp_epoch_zero() {
    assert_eq!(get_date_from_timestamp(0), "1970-01-01 00:00:00");
}

#[test]
fn timestamp_known_values() {
    assert_eq!(get_date_from_timestamp(1000), "1970-01-01 00:16:40");
    assert_eq!(get_date_from_timestamp(2000), "1970-01-01 00:33:20");
    assert_eq!(get_date_from_timestamp(86399), "1970-01-01 23:59:59");
    assert_eq!(get_date_from_timestamp(86400), "1970-01-02 00:00:00");
    assert_eq!(get_date_from_timestamp(951782400), "2000-02-29 00:00:00");
    assert_eq!(get_date_from_timestamp(1000000000), "2001-09-09 01:46:40");
    assert_eq!(get_date_from_timestamp(2147483647), "2038-01-19 03:14:07");
}

#[test]
fn timestamp_rendering_is_monotone_on_samples() {
    let samples: Vec<i64> = vec![
        0, 1, 59, 60, 1000, 2000, 86399, 86400, 951782399, 951782400, 1000000000, 2147483647,
        253402300799,
    ];
    let mut prev = get_date_from_timestamp(samples[0]);
    for &t in &samples[1..] {
        let cur = get_date_from_timestamp(t);
        assert!(prev <= cur, "{} should not exceed {}", prev, cur);
        prev = cur;
    }
}

#[test]
fn timestamp_same_input_same_output() {
    assert_eq!(get_date_from_timestamp(123456789), get_date_from_timestamp(123456789));
}

#[test]
fn document_path_convention() {
    let job = JobContext::new(7, "/sub".to_string(), "alice".to_string());
    assert_eq!(job.document_path, "/sub/tro-7.jsonld");
    assert_eq!(job.job_id, 7);
    assert_eq!(job.submit_dir, "/sub");
    assert_eq!(job.job_user, "alice");
}

#[test]
fn open_and_close_argument_lists() {
    let cfg = resolve_config(&sample_args(), true).unwrap();
    let job = JobContext::new(7, "/sub".to_string(), "alice".to_string());
    let open = open_invocation(&cfg, &job);
    assert_eq!(open.program, "/usr/bin/tro-utils");
    assert_eq!(
        open.args,
        args_of(&[
            "--declaration",
            "/sub/tro-7.jsonld",
            "--profile",
            "/etc/caps.json",
            "--gpg-fingerprint",
            "FP",
            "--gpg-passphrase",
            "PW",
            "arrangement",
            "add",
            "-m",
            "'Initial arrangement'",
            "-i",
            ".git",
            "/sub"
        ])
    );
    let close = close_invocation(&cfg, &job);
    assert_eq!(close.args[11], "'Final arrangement'");
    assert_eq!(close.args.len(), open.args.len());
}

#[test]
fn correlate_argument_list_renders_the_window() {
    let cfg = resolve_config(&sample_args(), true).unwrap();
    let job = JobContext::new(7, "/sub".to_string(), "alice".to_string());
    let trace = ExecutionTrace { job_id: 7, start_time: 1000, end_time: 2000 };
    let corr = correlate_invocation(&cfg, &job, &trace);
    assert_eq!(
        corr.args,
        args_of(&[
            "--declaration",
            "/sub/tro-7.jsonld",
            "--profile",
            "/etc/caps.json",
            "--gpg-fingerprint",
            "FP",
            "--gpg-passphrase",
            "PW",
            "performance",
            "add",
            "-m",
            "'Run magic'",
            "-s",
            "1970-01-01 00:16:40",
            "-e",
            "1970-01-01 00:33:20",
            "-a",
            "arrangement/0",
            "-M",
            "arrangement/1"
        ])
    );
}

#[test]
fn seal_argument_list() {
    let cfg = resolve_config(&sample_args(), true).unwrap();
    let job = JobContext::new(7, "/sub".to_string(), "alice".to_string());
    let seal = seal_invocation(&cfg, &job);
    assert_eq!(
        seal.args,
        args_of(&[
            "--declaration",
            "/sub/tro-7.jsonld",
            "--gpg-fingerprint",
            "FP",
            "--gpg-passphrase",
            "PW",
            "sign"
        ])
    );
}

#[test]
fn option_is_registered_in_job_contexts_only() {
    let mut d = Dispatcher::new();
    let (register, err) = d.on_init(ExecContext::Submission, &sample_args(), true);
    assert!(register);
    assert!(err.is_none());
    let mut d2 = Dispatcher::new();
    let (register2, _) = d2.on_init(ExecContext::OtherContext, &sample_args(), true);
    assert!(!register2);
}

#[test]
fn disabled_capture_touches_nothing() {
    let mut d = Dispatcher::new();
    let (_, err) = d.on_init(ExecContext::Execution, &sample_args(), true);
    assert!(err.is_none());
    d.on_init_post_opt(false);
    let submit = "/sub".to_string();
    let user = "alice".to_string();
    let acts = d
        .on_user_init(ExecContext::Execution, 7, 0, &submit, &user, None)
        .unwrap();
    assert!(acts.is_empty());
    let listing = vec![trace_text("7", "1000", "2000")];
    let (exit_acts, exit_err) = d.on_exit(ExecContext::Execution, 7, &submit, &user, Some(&listing));
    assert!(exit_acts.is_empty());
    assert!(exit_err.is_none());
    assert_eq!(d.state, LifecycleState::Finalized);
}

#[test]
fn enabled_capture_runs_the_full_protocol() {
    let mut d = Dispatcher::new();
    let (register, err) = d.on_init(ExecContext::Execution, &sample_args(), true);
    assert!(register);
    assert!(err.is_none());
    d.on_init_post_opt(true);
    let submit = "/sub".to_string();
    let user = "alice".to_string();
    let preload = "libold.so".to_string();
    let acts = d
        .on_user_init(ExecContext::Execution, 7, 0, &submit, &user, Some(&preload))
        .unwrap();
    assert_eq!(acts.len(), 8);
    match &acts[3] {
        Action::SetEnv(w) => {
            assert_eq!(w.name, "LD_PRELOAD");
            assert_eq!(w.value, "/opt/xalt/lib64/libxalt_init.so:libold.so");
        }
        other => panic!("expected a preload write, got {:?}", other),
    }
    match &acts[7] {
        Action::RunTool(t) => {
            assert_eq!(t.program, "/usr/bin/tro-utils");
            assert_eq!(t.args[8], "arrangement");
            assert_eq!(t.args[11], "'Initial arrangement'");
        }
        other => panic!("expected the open invocation, got {:?}", other),
    }

    let listing = vec![
        trace_text("5", "111", "222"),
        trace_text("7", "1000", "2000"),
    ];
    let (exit_acts, exit_err) = d.on_exit(ExecContext::Execution, 7, &submit, &user, Some(&listing));
    assert!(exit_err.is_none());
    assert_eq!(exit_acts.len(), 3);
    match &exit_acts[0] {
        Action::RunTool(t) => assert_eq!(t.args[11], "'Final arrangement'"),
        other => panic!("expected the close invocation, got {:?}", other),
    }
    match &exit_acts[1] {
        Action::RunTool(t) => {
            assert_eq!(t.args[8], "performance");
            assert!(t.args.contains(&"1970-01-01 00:16:40".to_string()));
            assert!(t.args.contains(&"1970-01-01 00:33:20".to_string()));
        }
        other => panic!("expected the correlate invocation, got {:?}", other),
    }
    match &exit_acts[2] {
        Action::RunTool(t) => assert_eq!(t.args[t.args.len() - 1], "sign"),
        other => panic!("expected the seal invocation, got {:?}", other),
    }
}

#[test]
fn missing_trace_stops_after_close() {
    let mut d = Dispatcher::new();
    let (_, err) = d.on_init(ExecContext::Execution, &sample_args(), true);
    assert!(err.is_none());
    d.on_init_post_opt(true);
    let submit = "/sub".to_string();
    let user = "alice".to_string();
    let _ = d
        .on_user_init(ExecContext::Execution, 7, 0, &submit, &user, None)
        .unwrap();
    let listing: Vec<String> = Vec::new();
    let (exit_acts, exit_err) = d.on_exit(ExecContext::Execution, 7, &submit, &user, Some(&listing));
    assert_eq!(exit_err, Some(TraceLookupError::NotFound));
    assert_eq!(exit_acts.len(), 1);
    match &exit_acts[0] {
        Action::RunTool(t) => assert_eq!(t.args[11], "'Final arrangement'"),
        other => panic!("expected only the close invocation, got {:?}", other),
    }
}

#[test]
fn non_execution_context_stays_inert_when_enabled() {
    let mut d = Dispatcher::new();
    let (_, err) = d.on_init(ExecContext::Execution, &sample_args(), true);
    assert!(err.is_none());
    d.on_init_post_opt(true);
    let submit = "/sub".to_string();
    let user = "alice".to_string();
    let acts = d
        .on_user_init(ExecContext::Submission, 7, 0, &submit, &user, None)
        .unwrap();
    assert!(acts.is_empty());
}
