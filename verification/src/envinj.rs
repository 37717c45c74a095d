use vstd::prelude::*;

use crate::config::{PluginConfig, PluginConfigView};
use crate::errors::EnvInjectionError;

verus! {

/// The view of an optional borrowed string.
pub open spec fn opt_str_view(o: Option<&String>) -> Option<Seq<char>> {
    match o {
        Some(v) => Some(v@),
        None => None,
    }
}

/// One environment-variable write, applied by the host with overwrite
/// semantics.
#[derive(Debug, Clone, PartialEq, Eq)]
pub struct EnvWrite {
    pub name: String,
    pub value: String,
}

/// Mathematical model of `EnvWrite`.
pub struct EnvWriteView {
    pub name: Seq<char>,
    pub value: Seq<char>,
}

impl View for EnvWrite {
    type V = EnvWriteView;

    open spec fn view(&self) -> EnvWriteView {
        EnvWriteView { name: self.name@, value: self.value@ }
    }
}

/// The views of a sequence of environment writes.
pub open spec fn env_views_of(ws: Seq<EnvWrite>) -> Seq<EnvWriteView> {
    ws.map_values(|w: EnvWrite| w@)
}

/// The tracing library's init shim inside the tracing directory.
pub open spec fn spec_shim_path(dir: Seq<char>) -> Seq<char> {
    dir + "/lib64/libxalt_init.so"@
}

/// Compose a new preload list: the shim path alone when nothing is
/// preloaded yet, otherwise the shim prepended to the existing list with
/// a separator in between — an existing list is preserved, never
/// replaced.
pub open spec fn spec_compose_preload(shim: Seq<char>, existing: Option<Seq<char>>) -> Seq<char> {
    match existing {
        None => shim,
        Some(v) => shim + seq![':'] + v,
    }
}

/// Build the preload list that activates the tracing library.
pub fn compose_preload(shim: &str, existing: Option<&String>) -> (r: String)
    ensures
        r@ == spec_compose_preload(shim@, opt_str_view(existing)),
{
    match existing {
        None => shim.to_owned(),
        Some(v) => {
            let mut out = shim.to_owned();
            out.append(":");
            out.append(v.as_str());
            proof {
                reveal_strlit(":");
                assert(out@ =~= shim@ + seq![':'] + v@);
            }
            out
        },
    }
}

/// The shim path for the configured tracing directory.
pub fn shim_path(cfg: &PluginConfig) -> (r: String)
    ensures
        r@ == spec_shim_path(cfg@.tracing_library_dir),
{
    let mut out = cfg.tracing_library_dir.clone();
    out.append("/lib64/libxalt_init.so");
    out
}

/// The ordered environment writes that activate tracing for a job run by
/// `user`: the two signing-home aliases, the tracing directory, the
/// composed preload list, the resolved user, and the two fixed tracing
/// mode flags.
pub open spec fn spec_env_mutations(
    cfg: PluginConfigView,
    preload: Option<Seq<char>>,
    user: Seq<char>,
) -> Seq<EnvWriteView> {
    seq![
        EnvWriteView { name: "GPGPGHOME"@, value: cfg.signing_key_home },
        EnvWriteView { name: "GPG_HOME"@, value: cfg.signing_key_home },
        EnvWriteView { name: "XALT_DIR"@, value: cfg.tracing_library_dir },
        EnvWriteView {
            name: "LD_PRELOAD"@,
            value: spec_compose_preload(spec_shim_path(cfg.tracing_library_dir), preload),
        },
        EnvWriteView { name: "USER"@, value: user },
        EnvWriteView { name: "XALT_EXECUTABLE_TRACKING"@, value: "yes"@ },
        EnvWriteView { name: "XALT_TRACING"@, value: "no"@ },
    ]
}

/// Compute the environment writes for a job owned by `user_name`, in the
/// mandated order.  Pure: verified for every resolved user name.
pub fn compute_env_mutations(
    cfg: &PluginConfig,
    current_preload: Option<&String>,
    user_name: &str,
) -> (r: Vec<EnvWrite>)
    ensures
        env_views_of(r@) == spec_env_mutations(cfg@, opt_str_view(current_preload), user_name@),
{
    let shim = shim_path(cfg);
    let preload = compose_preload(shim.as_str(), current_preload);
    let mut out: Vec<EnvWrite> = Vec::new();
    out.push(EnvWrite { name: "GPGPGHOME".to_owned(), value: cfg.signing_key_home.clone() });
    out.push(EnvWrite { name: "GPG_HOME".to_owned(), value: cfg.signing_key_home.clone() });
    out.push(EnvWrite { name: "XALT_DIR".to_owned(), value: cfg.tracing_library_dir.clone() });
    out.push(EnvWrite { name: "LD_PRELOAD".to_owned(), value: preload });
    out.push(EnvWrite { name: "USER".to_owned(), value: user_name.to_owned() });
    out.push(EnvWrite { name: "XALT_EXECUTABLE_TRACKING".to_owned(), value: "yes".to_owned() });
    out.push(EnvWrite { name: "XALT_TRACING".to_owned(), value: "no".to_owned() });
    proof {
        assert(env_views_of(out@) =~= spec_env_mutations(
            cfg@,
            opt_str_view(current_preload),
            user_name@,
        ));
    }
    out
}

/// Relies on users::get_user_by_uid, which consults the system user
/// database via getpwuid_r: whether an entry exists and what name it
/// carries depend on the machine, so nothing further is assumed of the
/// outcome.
#[verifier::external_body]
fn lookup_user_name(uid: u32) -> (r: Option<String>) {
    users::get_user_by_uid(uid).map(|u| u.name().to_string_lossy().into_owned())
}

/// Prepare the tracing environment for a job owned by the user with the
/// given numeric id.  The writes are fixed by the configuration, the
/// current preload list and whatever user name the system database
/// resolves; a job owner that cannot be resolved is fatal to this step.
pub fn inject_environment(
    cfg: &PluginConfig,
    current_preload: Option<&String>,
    job_uid: u32,
) -> (r: Result<Vec<EnvWrite>, EnvInjectionError>)
    ensures
        match r {
            Ok(ws) => exists|u: Seq<char>|
                env_views_of(ws@) == #[trigger] spec_env_mutations(
                    cfg@,
                    opt_str_view(current_preload),
                    u,
                ),
            Err(e) => e == EnvInjectionError::UserNotFound(job_uid),
        },
{
    match lookup_user_name(job_uid) {
        Some(user) => {
            let ws = compute_env_mutations(cfg, current_preload, user.as_str());
            proof {
                assert(env_views_of(ws@) == spec_env_mutations(
                    cfg@,
                    opt_str_view(current_preload),
                    user@,
                ));
            }
            Ok(ws)
        },
        None => Err(EnvInjectionError::UserNotFound(job_uid)),
    }
}

} // verus!
