use vstd::prelude::*;

use crate::errors::ConfigError;
use crate::text::{is_prefix_of, starts_with_str, tail_from, views_of};

verus! {

/// The raw operator-supplied settings, before the tracing directory has
/// been validated.  A missing key leaves its field at the default.
#[derive(Debug, Clone, PartialEq, Eq)]
pub struct RawSettings {
    pub xalt_dir: Option<String>,
    pub gpg_home: String,
    pub gpg_fingerprint: String,
    pub gpg_passphrase: String,
    pub trs_caps: String,
    pub tro_utils: String,
}

/// Mathematical model of `RawSettings`.
pub struct RawSettingsView {
    pub xalt_dir: Option<Seq<char>>,
    pub gpg_home: Seq<char>,
    pub gpg_fingerprint: Seq<char>,
    pub gpg_passphrase: Seq<char>,
    pub trs_caps: Seq<char>,
    pub tro_utils: Seq<char>,
}

impl View for RawSettings {
    type V = RawSettingsView;

    open spec fn view(&self) -> RawSettingsView {
        RawSettingsView {
            xalt_dir: match self.xalt_dir {
                Some(s) => Some(s@),
                None => None,
            },
            gpg_home: self.gpg_home@,
            gpg_fingerprint: self.gpg_fingerprint@,
            gpg_passphrase: self.gpg_passphrase@,
            trs_caps: self.trs_caps@,
            tro_utils: self.tro_utils@,
        }
    }
}

/// Settings before any entry has been seen.
pub open spec fn spec_default_settings() -> RawSettingsView {
    RawSettingsView {
        xalt_dir: None,
        gpg_home: Seq::empty(),
        gpg_fingerprint: Seq::empty(),
        gpg_passphrase: Seq::empty(),
        trs_caps: Seq::empty(),
        tro_utils: Seq::empty(),
    }
}

/// An entry's key is recognized when it carries one of the six known
/// `key=` prefixes.
pub open spec fn is_recognized_entry(arg: Seq<char>) -> bool {
    is_prefix_of("xalt_dir="@, arg) || is_prefix_of("gpg_home="@, arg) || is_prefix_of(
        "gpg_fingerprint="@,
        arg,
    ) || is_prefix_of("gpg_passphrase="@, arg) || is_prefix_of("trs_caps="@, arg) || is_prefix_of(
        "tro_utils="@,
        arg,
    )
}

/// Fold one `key=value` entry into the settings: a recognized key
/// replaces exactly its own field with the text after `=`; any other
/// entry is ignored.
pub open spec fn spec_apply_entry(s: RawSettingsView, arg: Seq<char>) -> RawSettingsView {
    if is_prefix_of("xalt_dir="@, arg) {
        RawSettingsView { xalt_dir: Some(arg.skip("xalt_dir="@.len() as int)), ..s }
    } else if is_prefix_of("gpg_home="@, arg) {
        RawSettingsView { gpg_home: arg.skip("gpg_home="@.len() as int), ..s }
    } else if is_prefix_of("gpg_fingerprint="@, arg) {
        RawSettingsView { gpg_fingerprint: arg.skip("gpg_fingerprint="@.len() as int), ..s }
    } else if is_prefix_of("gpg_passphrase="@, arg) {
        RawSettingsView { gpg_passphrase: arg.skip("gpg_passphrase="@.len() as int), ..s }
    } else if is_prefix_of("trs_caps="@, arg) {
        RawSettingsView { trs_caps: arg.skip("trs_caps="@.len() as int), ..s }
    } else if is_prefix_of("tro_utils="@, arg) {
        RawSettingsView { tro_utils: arg.skip("tro_utils="@.len() as int), ..s }
    } else {
        s
    }
}

/// The settings that an ordered entry sequence denotes: entries are
/// folded left to right, so a later occurrence of a key wins.
pub open spec fn spec_parse_args(args: Seq<Seq<char>>) -> RawSettingsView
    decreases args.len(),
{
    if args.len() == 0 {
        spec_default_settings()
    } else {
        spec_apply_entry(spec_parse_args(args.drop_last()), args.last())
    }
}

/// An entry with an unrecognized key never changes the parsed settings.
pub proof fn lemma_unknown_key_ignored(args: Seq<Seq<char>>, arg: Seq<char>)
    requires
        !is_recognized_entry(arg),
    ensures
        spec_parse_args(args.push(arg)) == spec_parse_args(args),
{
    assert(args.push(arg).drop_last() =~= args);
    assert(args.push(arg).last() == arg);
}

/// Parsing is a pure fold over the entries: the same entry sequence
/// always yields the same settings.
pub proof fn lemma_parse_deterministic(args1: Seq<Seq<char>>, args2: Seq<Seq<char>>)
    requires
        args1 == args2,
    ensures
        spec_parse_args(args1) == spec_parse_args(args2),
{
}

/// Parse the ordered `key=value` entries into raw settings, ignoring
/// unknown keys.
pub fn parse_plugin_args(args: &Vec<String>) -> (r: RawSettings)
    ensures
        r@ == spec_parse_args(views_of(args@)),
{
    let ghost all = views_of(args@);
    let mut rs = RawSettings {
        xalt_dir: None,
        gpg_home: String::new(),
        gpg_fingerprint: String::new(),
        gpg_passphrase: String::new(),
        trs_caps: String::new(),
        tro_utils: String::new(),
    };
    assert(rs@ == spec_default_settings());
    let mut i: usize = 0;
    while i < args.len()
        invariant
            i <= args.len(),
            all == views_of(args@),
            all.len() == args@.len(),
            forall|j: int| 0 <= j < args@.len() ==> all[j] == args@[j]@,
            rs@ == spec_parse_args(all.take(i as int)),
        decreases args.len() - i,
    {
        let arg = &args[i];
        if starts_with_str(arg.as_str(), "xalt_dir=") {
            let v = tail_from(arg.as_str(), "xalt_dir=".unicode_len());
            rs.xalt_dir = Some(v.to_owned());
        } else if starts_with_str(arg.as_str(), "gpg_home=") {
            let v = tail_from(arg.as_str(), "gpg_home=".unicode_len());
            rs.gpg_home = v.to_owned();
        } else if starts_with_str(arg.as_str(), "gpg_fingerprint=") {
            let v = tail_from(arg.as_str(), "gpg_fingerprint=".unicode_len());
            rs.gpg_fingerprint = v.to_owned();
        } else if starts_with_str(arg.as_str(), "gpg_passphrase=") {
            let v = tail_from(arg.as_str(), "gpg_passphrase=".unicode_len());
            rs.gpg_passphrase = v.to_owned();
        } else if starts_with_str(arg.as_str(), "trs_caps=") {
            let v = tail_from(arg.as_str(), "trs_caps=".unicode_len());
            rs.trs_caps = v.to_owned();
        } else if starts_with_str(arg.as_str(), "tro_utils=") {
            let v = tail_from(arg.as_str(), "tro_utils=".unicode_len());
            rs.tro_utils = v.to_owned();
        }
        proof {
            assert(all.take(i + 1 as int).drop_last() =~= all.take(i as int));
            assert(all.take(i + 1 as int).last() == arg@);
            assert(rs@ == spec_apply_entry(spec_parse_args(all.take(i as int)), arg@));
        }
        i = i + 1;
    }
    proof {
        assert(all.take(args@.len() as int) =~= all);
    }
    rs
}

/// Validate the configured tracing library directory.  The caller
/// supplies whether the path resolves to an existing directory; a path
/// that does not is rejected, carried inside the error.
pub fn parse_xalt_dir(value: &str, is_dir: bool) -> (r: Result<String, ConfigError>)
    ensures
        match r {
            Ok(s) => is_dir && s@ == value@,
            Err(e) => !is_dir && e is InvalidPath && spec_invalid_path_payload(e) == value@,
        },
{
    if is_dir {
        Ok(value.to_owned())
    } else {
        Err(ConfigError::InvalidPath(value.to_owned()))
    }
}

/// The path a `ConfigError::InvalidPath` complains about.
pub open spec fn spec_invalid_path_payload(e: ConfigError) -> Seq<char> {
    match e {
        ConfigError::InvalidPath(s) => s@,
    }
}

/// The fully validated configuration record, immutable once resolved.
#[derive(Debug, Clone, PartialEq, Eq)]
pub struct PluginConfig {
    pub tracing_library_dir: String,
    pub signing_key_home: String,
    pub signing_fingerprint: String,
    pub signing_passphrase: String,
    pub capabilities_profile: String,
    pub provenance_tool_path: String,
}

/// Mathematical model of `PluginConfig`.
pub struct PluginConfigView {
    pub tracing_library_dir: Seq<char>,
    pub signing_key_home: Seq<char>,
    pub signing_fingerprint: Seq<char>,
    pub signing_passphrase: Seq<char>,
    pub capabilities_profile: Seq<char>,
    pub provenance_tool_path: Seq<char>,
}

impl View for PluginConfig {
    type V = PluginConfigView;

    open spec fn view(&self) -> PluginConfigView {
        PluginConfigView {
            tracing_library_dir: self.tracing_library_dir@,
            signing_key_home: self.signing_key_home@,
            signing_fingerprint: self.signing_fingerprint@,
            signing_passphrase: self.signing_passphrase@,
            capabilities_profile: self.capabilities_profile@,
            provenance_tool_path: self.provenance_tool_path@,
        }
    }
}

/// Assemble the configuration record from parsed settings and the
/// validated tracing directory.
pub open spec fn spec_config_of(s: RawSettingsView, dir: Seq<char>) -> PluginConfigView {
    PluginConfigView {
        tracing_library_dir: dir,
        signing_key_home: s.gpg_home,
        signing_fingerprint: s.gpg_fingerprint,
        signing_passphrase: s.gpg_passphrase,
        capabilities_profile: s.trs_caps,
        provenance_tool_path: s.tro_utils,
    }
}

/// Resolve the configuration: parse the entries, then validate the
/// tracing directory.  `xalt_dir_exists` reports whether the parsed
/// `xalt_dir` value (if any) resolves to an existing directory.
pub fn resolve_config(args: &Vec<String>, xalt_dir_exists: bool) -> (r: Result<
    PluginConfig,
    ConfigError,
>)
    ensures
        match r {
            Ok(c) => {
                let s = spec_parse_args(views_of(args@));
                match s.xalt_dir {
                    Some(v) => xalt_dir_exists && c@ == spec_config_of(s, v),
                    None => c@ == spec_config_of(s, Seq::empty()),
                }
            },
            Err(e) => {
                let s = spec_parse_args(views_of(args@));
                &&& s.xalt_dir is Some
                &&& !xalt_dir_exists
                &&& spec_invalid_path_payload(e) == s.xalt_dir.unwrap()
                &&& e is InvalidPath
            },
        },
{
    let RawSettings { xalt_dir, gpg_home, gpg_fingerprint, gpg_passphrase, trs_caps, tro_utils } =
        parse_plugin_args(args);
    let dir = match xalt_dir {
        Some(v) => {
            match parse_xalt_dir(v.as_str(), xalt_dir_exists) {
                Ok(d) => d,
                Err(e) => {
                    return Err(e);
                },
            }
        },
        None => String::new(),
    };
    Ok(
        PluginConfig {
            tracing_library_dir: dir,
            signing_key_home: gpg_home,
            signing_fingerprint: gpg_fingerprint,
            signing_passphrase: gpg_passphrase,
            capabilities_profile: trs_caps,
            provenance_tool_path: tro_utils,
        },
    )
}

} // verus!
