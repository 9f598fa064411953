//! Scanner configuration: which checks run, whether violations block the
//! build, what is excluded and how the project is laid out.

use vstd::prelude::*;
use vstd::utf8::*;
use vstd::string::StringSliceAdditionalSpecFns;

use crate::text::{lowercase, str_eq, to_lowercase, trim, trim_bytes};

verus! {

/// Project topology — controls which files the scanner collects.
#[derive(Debug, Clone, Copy, PartialEq, Eq, Structural)]
pub enum Topology {
    /// Single crate: scan own `ui/` or `src/` only. Default.
    Flat,
    /// Workspace: scan all `apps/*/ui/` and `apps/*/src/` from workspace root.
    Workspace,
}

impl Default for Topology {
    fn default() -> (r: Self)
        ensures
            r == Topology::Flat,
    {
        Topology::Flat
    }
}

pub const TOPOLOGY_WORKSPACE: &'static str = "workspace";

pub const CONFIG_DIR: &'static str = "proj";

pub const CONFIG_FILENAME: &'static str = "rulestools.toml";

/// The topology a setting names: `workspace` (whitespace around it and case
/// aside) is a workspace; anything else is flat.
pub open spec fn spec_topology_from(s: Seq<char>) -> Topology {
    if lowercase(decode_utf8(trim_bytes(encode_utf8(s)))) == TOPOLOGY_WORKSPACE@ {
        Topology::Workspace
    } else {
        Topology::Flat
    }
}

impl Topology {
    /// The topology a setting names.
    pub fn from_str(s: &str) -> (r: Self)
        ensures
            r == spec_topology_from(s@),
    {
        let lower = to_lowercase(trim(s));
        if str_eq(lower.as_str(), TOPOLOGY_WORKSPACE) {
            Self::Workspace
        } else {
            Self::Flat
        }
    }
}

/// Scanner configuration — controls which checks are enabled and whether violations block the build.
#[derive(Debug, Clone)]
pub struct Config {
    pub enabled: bool,
    pub deny: bool,
    pub check_tokens: bool,
    pub check_strings: bool,
    pub check_structure: bool,
    pub check_events: bool,
    pub check_mother_child: bool,
    pub check_string_states: bool,
    pub check_architecture: bool,
    pub exclude: Vec<String>,
    pub topology: Topology,
}

/// The mathematical value of a [`Config`].
pub struct ConfigView {
    pub enabled: bool,
    pub deny: bool,
    pub check_tokens: bool,
    pub check_strings: bool,
    pub check_structure: bool,
    pub check_events: bool,
    pub check_mother_child: bool,
    pub check_string_states: bool,
    pub check_architecture: bool,
    pub exclude: Seq<Seq<char>>,
    pub topology: Topology,
}

impl View for Config {
    type V = ConfigView;

    open spec fn view(&self) -> ConfigView {
        ConfigView {
            enabled: self.enabled,
            deny: self.deny,
            check_tokens: self.check_tokens,
            check_strings: self.check_strings,
            check_structure: self.check_structure,
            check_events: self.check_events,
            check_mother_child: self.check_mother_child,
            check_string_states: self.check_string_states,
            check_architecture: self.check_architecture,
            exclude: self.exclude.deep_view(),
            topology: self.topology,
        }
    }
}

/// The default configuration: enabled, not blocking the build, every check
/// on, nothing excluded, flat topology.
pub open spec fn default_config() -> ConfigView {
    ConfigView {
        enabled: true,
        deny: false,
        check_tokens: true,
        check_strings: true,
        check_structure: true,
        check_events: true,
        check_mother_child: true,
        check_string_states: true,
        check_architecture: true,
        exclude: seq![],
        topology: Topology::Flat,
    }
}

impl Default for Config {
    fn default() -> (r: Self)
        ensures
            r@ == default_config(),
    {
        let exclude: Vec<String> = Vec::new();
        assert(exclude.deep_view() =~= Seq::<Seq<char>>::empty());
        Self {
            enabled: true,
            deny: false,
            check_tokens: true,
            check_strings: true,
            check_structure: true,
            check_events: true,
            check_mother_child: true,
            check_string_states: true,
            check_architecture: true,
            exclude,
            topology: Topology::Flat,
        }
    }
}

/// The contents of `proj/rulestools.toml`.
pub struct TomlRoot {
    pub slintscanners: Option<TomlScanners>,
    pub project: Option<TomlProject>,
}

/// The `[project]` section.
pub struct TomlProject {
    pub topology: Option<String>,
}

/// The `[slintscanners]` section.
pub struct TomlScanners {
    pub enabled: Option<bool>,
    pub deny: Option<bool>,
    pub tokens: Option<bool>,
    pub strings: Option<bool>,
    pub structure: Option<bool>,
    pub events: Option<bool>,
    pub mother_child: Option<bool>,
    pub string_states: Option<bool>,
    pub architecture: Option<bool>,
    pub exclude: Option<Vec<String>>,
}

/// A setting: the value given, or else the default.
pub open spec fn setting(given: Option<bool>, default: bool) -> bool {
    match given {
        Some(v) => v,
        None => default,
    }
}

/// The configuration that a settings file gives: the defaults, overridden by
/// every value the `[slintscanners]` section sets, and the topology that the
/// `[project]` section names. With no settings file, the defaults.
pub open spec fn spec_from_settings(settings: Option<TomlRoot>) -> ConfigView {
    let d = default_config();
    match settings {
        None => d,
        Some(t) => {
            let c = match t.slintscanners {
                None => d,
                Some(s) => ConfigView {
                    enabled: setting(s.enabled, d.enabled),
                    deny: setting(s.deny, d.deny),
                    check_tokens: setting(s.tokens, d.check_tokens),
                    check_strings: setting(s.strings, d.check_strings),
                    check_structure: setting(s.structure, d.check_structure),
                    check_events: setting(s.events, d.check_events),
                    check_mother_child: setting(s.mother_child, d.check_mother_child),
                    check_string_states: setting(s.string_states, d.check_string_states),
                    check_architecture: setting(s.architecture, d.check_architecture),
                    exclude: match s.exclude {
                        Some(v) => v.deep_view(),
                        None => d.exclude,
                    },
                    topology: d.topology,
                },
            };
            match t.project {
                Some(p) => match p.topology {
                    Some(name) => ConfigView { topology: spec_topology_from(name@), ..c },
                    None => c,
                },
                None => c,
            }
        },
    }
}

/// `given`, or else the current value.
fn apply(given: Option<bool>, current: bool) -> (r: bool)
    ensures
        r == setting(given, current),
{
    match given {
        Some(v) => v,
        None => current,
    }
}

impl Config {
    /// The configuration that a settings file gives (`None` when there is no
    /// readable, well-formed settings file).
    pub fn from_settings(settings: Option<TomlRoot>) -> (r: Self)
        ensures
            r@ == spec_from_settings(settings),
    {
        let mut cfg = Self::default();
        let ghost given = settings;
        match settings {
            None => {},
            Some(t) => {
                match t.slintscanners {
                    None => {},
                    Some(s) => {
                        cfg.enabled = apply(s.enabled, cfg.enabled);
                        cfg.deny = apply(s.deny, cfg.deny);
                        cfg.check_tokens = apply(s.tokens, cfg.check_tokens);
                        cfg.check_strings = apply(s.strings, cfg.check_strings);
                        cfg.check_structure = apply(s.structure, cfg.check_structure);
                        cfg.check_events = apply(s.events, cfg.check_events);
                        cfg.check_mother_child = apply(s.mother_child, cfg.check_mother_child);
                        cfg.check_string_states = apply(s.string_states, cfg.check_string_states);
                        cfg.check_architecture = apply(s.architecture, cfg.check_architecture);
                        match s.exclude {
                            Some(v) => {
                                cfg.exclude = v;
                            },
                            None => {},
                        }
                    },
                }
                match t.project {
                    Some(p) => match p.topology {
                        Some(name) => {
                            cfg.topology = Topology::from_str(name.as_str());
                        },
                        None => {},
                    },
                    None => {},
                }
            },
        }
        cfg
    }

    /// Whether violations found stop the build: some were found and the
    /// configuration denies them.
    pub fn blocks_build(&self, total_errors: usize) -> (r: bool)
        ensures
            r == (total_errors > 0 && self.deny),
    {
        total_errors > 0 && self.deny
    }
}

} // verus!
