use tro_capture::config::{parse_plugin_args, parse_xalt_dir, resolve_config};
use tro_capture::envinj::{compose_preload, compute_env_mutations, inject_environment};
use tro_capture::errors::{ConfigError, EnvInjectionError, ToolInvocationError, TraceLookupError, tool_outcome};
use tro_capture::text::uint_to_string;
use tro_capture::trace::{get_xalt_trace, parse_epoch_seconds, xalt_trace_dir};

fn args_of(list: &[&str]) -> Vec<String> {
    list.iter().map(|s| s.to_string()).collect()
}

#[test]
fn parse_recognized_keys_populate_fields() {
    let args = args_of(&[
        "xalt_dir=/opt/xalt",
        "gpg_home=/home/op/.gnupg",
        "gpg_fingerprint=ABCD1234",
        "gpg_passphrase=hunter2",
        "trs_caps=/etc/caps.json",
        "tro_utils=/usr/bin/tro-utils",
    ]);
    let rs = parse_plugin_args(&args);
    assert_eq!(rs.xalt_dir.as_deref(), Some("/opt/xalt"));
    assert_eq!(rs.gpg_home, "/home/op/.gnupg");
    assert_eq!(rs.gpg_fingerprint, "ABCD1234");
    assert_eq!(rs.gpg_passphrase, "hunter2");
    assert_eq!(rs.trs_caps, "/etc/caps.json");
    assert_eq!(rs.tro_utils, "/usr/bin/tro-utils");
}

#[test]
fn parse_unknown_keys_are_ignored() {
    let plain = args_of(&["gpg_home=/h", "trs_caps=/c"]);
    let noisy = args_of(&[
        "verbose=yes",
        "gpg_home=/h",
        "unrelated",
        "trs_caps=/c",
        "xalt_dirs=/typo",
    ]);
    assert_eq!(parse_plugin_args(&plain), parse_plugin_args(&noisy));
}

#[test]
fn parse_later_occurrence_wins() {
    let args = args_of(&["gpg_home=/first", "gpg_home=/second"]);
    assert_eq!(parse_plugin_args(&args).gpg_home, "/second");
}

#[test]
fn parse_is_idempotent_on_same_entries() {
    let args = args_of(&["xalt_dir=/opt/xalt", "gpg_fingerprint=FP"]);
    assert_eq!(parse_plugin_args(&args), parse_plugin_args(&args));
}

#[test]
fn xalt_dir_must_be_a_directory() {
    match parse_xalt_dir("/no/such/dir", false) {
        Err(ConfigError::InvalidPath(p)) => assert_eq!(p, "/no/such/dir"),
        other => panic!("expected InvalidPath, got {:?}", other),
    }
    assert_eq!(parse_xalt_dir("/tmp", true), Ok("/tmp".to_string()));
}

#[test]
fn resolve_config_rejects_missing_directory() {
    let args = args_of(&["xalt_dir=/no/such/dir", "gpg_home=/h"]);
    match resolve_config(&args, false) {
        Err(ConfigError::InvalidPath(p)) => assert_eq!(p, "/no/such/dir"),
        other => panic!("expected InvalidPath, got {:?}", other),
    }
}

#[test]
fn resolve_config_accepts_existing_directory() {
    let args = args_of(&["xalt_dir=/opt/xalt", "tro_utils=/usr/bin/tro-utils"]);
    let cfg = resolve_config(&args, true).unwrap();
    assert_eq!(cfg.tracing_library_dir, "/opt/xalt");
    assert_eq!(cfg.provenance_tool_path, "/usr/bin/tro-utils");
    assert_eq!(cfg.signing_key_home, "");
}

#[test]
fn preload_without_existing_list_is_shim_alone() {
    let r = compose_preload("/opt/xalt/lib64/libxalt_init.so", None);
    assert_eq!(r, "/opt/xalt/lib64/libxalt_init.so");
}

#[test]
fn preload_prepends_and_keeps_existing_list() {
    let existing = "libone.so:libtwo.so".to_string();
    let r = compose_preload("/opt/xalt/lib64/libxalt_init.so", Some(&existing));
    assert_eq!(r, "/opt/xalt/lib64/libxalt_init.so:libone.so:libtwo.so");
}

#[test]
fn env_mutations_come_in_mandated_order() {
    let args = args_of(&["xalt_dir=/opt/xalt", "gpg_home=/h/.gnupg"]);
    let cfg = resolve_config(&args, true).unwrap();
    let preload = "libold.so".to_string();
    let ws = compute_env_mutations(&cfg, Some(&preload), "alice");
    let names: Vec<&str> = ws.iter().map(|w| w.name.as_str()).collect();
    assert_eq!(
        names,
        vec![
            "GPGPGHOME",
            "GPG_HOME",
            "XALT_DIR",
            "LD_PRELOAD",
            "USER",
            "XALT_EXECUTABLE_TRACKING",
            "XALT_TRACING"
        ]
    );
    assert_eq!(ws[0].value, "/h/.gnupg");
    assert_eq!(ws[1].value, "/h/.gnupg");
    assert_eq!(ws[2].value, "/opt/xalt");
    assert_eq!(ws[3].value, "/opt/xalt/lib64/libxalt_init.so:libold.so");
    assert_eq!(ws[4].value, "alice");
    assert_eq!(ws[5].value, "yes");
    assert_eq!(ws[6].value, "no");
}

#[test]
fn inject_environment_resolves_user_from_uid() {
    let args = args_of(&["xalt_dir=/opt/xalt"]);
    let cfg = resolve_config(&args, true).unwrap();
    let expected = users::get_user_by_uid(0)
        .map(|u| u.name().to_string_lossy().into_owned())
        .expect("uid 0 should resolve");
    let ws = inject_environment(&cfg, None, 0).unwrap();
    assert_eq!(ws[4].name, "USER");
    assert_eq!(ws[4].value, expected);
}

#[test]
fn inject_environment_fails_for_unknown_uid() {
    let args = args_of(&["xalt_dir=/opt/xalt"]);
    let cfg = resolve_config(&args, true).unwrap();
    let r = inject_environment(&cfg, None, u32::MAX);
    assert_eq!(r, Err(EnvInjectionError::UserNotFound(u32::MAX)));
}

#[test]
fn uint_rendering_matches_decimal() {
    assert_eq!(uint_to_string(0), "0");
    assert_eq!(uint_to_string(7), "7");
    assert_eq!(uint_to_string(1234567890), "1234567890");
}

#[test]
fn epoch_parse_reads_integers_and_truncates_fractions() {
    assert_eq!(parse_epoch_seconds("1000"), Some(1000));
    assert_eq!(parse_epoch_seconds("1000.75"), Some(1000));
    assert_eq!(parse_epoch_seconds("0"), Some(0));
    assert_eq!(parse_epoch_seconds("253402300799"), Some(253402300799));
}

#[test]
fn epoch_parse_rejects_other_shapes() {
    assert_eq!(parse_epoch_seconds(""), None);
    assert_eq!(parse_epoch_seconds("abc"), None);
    assert_eq!(parse_epoch_seconds("-5"), None);
    assert_eq!(parse_epoch_seconds("1e30"), None);
    assert_eq!(parse_epoch_seconds(".5"), None);
    assert_eq!(parse_epoch_seconds("253402300800"), None);
    assert_eq!(parse_epoch_seconds("999999999999999999999999"), None);
}

#[test]
fn trace_dir_follows_home_convention() {
    assert_eq!(xalt_trace_dir("alice"), "/home/alice/.xalt.d");
}

fn trace_text(job: &str, start: &str, end: &str) -> String {
    format!(
        "{{\"userT\":{{\"job_id\":\"{}\"}},\"userDT\":{{\"start_time\":{},\"end_time\":{}}}}}",
        job, start, end
    )
}

#[test]
fn trace_lookup_returns_first_matching_record() {
    let files = vec![
        trace_text("5", "111", "222"),
        trace_text("7", "1000", "2000"),
    ];
    let tr = get_xalt_trace(7, Some(&files)).unwrap();
    assert_eq!(tr.job_id, 7);
    assert_eq!(tr.start_time, 1000);
    assert_eq!(tr.end_time, 2000);
}

#[test]
fn trace_lookup_empty_directory_is_not_found() {
    let files: Vec<String> = Vec::new();
    assert_eq!(get_xalt_trace(7, Some(&files)), Err(TraceLookupError::NotFound));
}

#[test]
fn trace_lookup_unreadable_directory_is_read_error() {
    assert_eq!(get_xalt_trace(7, None), Err(TraceLookupError::ReadError));
}

#[test]
fn trace_lookup_unparsable_file_is_read_error() {
    let files = vec!["this is not json".to_string()];
    assert_eq!(get_xalt_trace(7, Some(&files)), Err(TraceLookupError::ReadError));
}

#[test]
fn trace_lookup_truncates_fractional_times() {
    let files = vec![trace_text("3", "1618.9", "1620.2")];
    let tr = get_xalt_trace(3, Some(&files)).unwrap();
    assert_eq!(tr.start_time, 1618);
    assert_eq!(tr.end_time, 1620);
}

#[test]
fn trace_lookup_skips_non_matching_jobs() {
    let files = vec![trace_text("5", "111", "222")];
    assert_eq!(get_xalt_trace(7, Some(&files)), Err(TraceLookupError::NotFound));
}

#[test]
fn tool_exit_statuses_classify() {
    assert_eq!(tool_outcome(Some(0)), Ok(()));
    assert_eq!(tool_outcome(Some(2)), Err(ToolInvocationError::NonZeroExit(2)));
    assert_eq!(tool_outcome(None), Err(ToolInvocationError::AbnormalExit));
}
