//! The records of a simulation file, and the rules read off them: which
//! pipe a capture reads, which steps a `when` guard skips, and how a raw
//! `[[step]]` table is told apart.

use vstd::prelude::*;
use crate::matrix::{key_index, table_view, TomlValue, TomlView};
use crate::text::{chars_of, eq_str, opt_chars};

verus! {

/// Metadata block at `[sim]`.
#[derive(Debug)]
pub struct SimMeta {
    /// Human-readable name of the simulation, used in reports and logs.
    pub name: String,
    /// Topology loaded from `../topos/<topology>.toml`, when set.
    pub topology: Option<String>,
}

impl Default for SimMeta {
    fn default() -> (m: Self)
        ensures
            m.name@ == Seq::<char>::empty(),
            m.topology is None,
    {
        SimMeta { name: String::new(), topology: None }
    }
}

/// An `[[extends]]` entry: a file to inherit templates, groups and binaries from.
#[derive(Debug)]
pub struct ExtendsEntry {
    pub file: String,
}

/// A `[[prepare]]` entry for prebuilding workspace binaries.
#[derive(Debug)]
pub struct PrepareSpec {
    /// Preparation mode (`build`).
    pub mode: Option<String>,
    /// Cargo features of the prepare builds.
    pub features: Vec<String>,
    /// Build with all features.
    pub all_features: bool,
    /// Examples to prebuild in release mode.
    pub examples: Vec<String>,
    /// Binaries to prebuild in release mode.
    pub bins: Vec<String>,
}

impl Default for PrepareSpec {
    fn default() -> (p: Self)
        ensures
            p.mode is None,
            p.features@.len() == 0,
            !p.all_features,
            p.examples@.len() == 0,
            p.bins@.len() == 0,
    {
        PrepareSpec { mode: None, features: Vec::new(), all_features: false, examples: Vec::new(), bins: Vec::new() }
    }
}

/// The `prepare` field of a simulation file: absent, one table, or an array.
#[derive(Debug)]
pub enum PrepareField {
    One(PrepareSpec),
    Many(Vec<PrepareSpec>),
}

/// The prepare entries that a `prepare` field gives: none when absent, the
/// one table, or all entries of the array.
pub fn prepare_specs(field: Option<PrepareField>) -> (r: Vec<PrepareSpec>)
    ensures
        match field {
            None => r@.len() == 0,
            Some(PrepareField::One(spec)) => r@ == seq![spec],
            Some(PrepareField::Many(specs)) => r@ == specs@,
        },
{
    match field {
        None => Vec::new(),
        Some(PrepareField::One(spec)) => {
            let mut v: Vec<PrepareSpec> = Vec::new();
            v.push(spec);
            proof {
                assert(v@ =~= seq![spec]);
            }
            v
        },
        Some(PrepareField::Many(specs)) => specs,
    }
}

/// Normalized result mapping of a step: capture keys
/// (`"step_id.capture_name"` or `".capture_name"`).
#[derive(Debug)]
pub struct StepResults {
    pub duration: Option<String>,
    pub up_bytes: Option<String>,
    pub down_bytes: Option<String>,
    pub latency_ms: Option<String>,
}

impl Default for StepResults {
    fn default() -> (r: Self)
        ensures
            r.duration is None,
            r.up_bytes is None,
            r.down_bytes is None,
            r.latency_ms is None,
    {
        StepResults { duration: None, up_bytes: None, down_bytes: None, latency_ms: None }
    }
}

/// Output parser mode of `spawn` and `run` steps.
#[derive(Clone, Copy, Debug, PartialEq, Eq, Structural)]
pub enum Parser {
    Text,
    Ndjson,
    Json,
}

impl Default for Parser {
    fn default() -> (p: Self)
        ensures
            p == Parser::Text,
    {
        Parser::Text
    }
}

/// The pipe that a capture reads unless it names one.
pub fn pipe_default() -> (r: String)
    ensures
        r@ == "stdout"@,
{
    "stdout".to_owned()
}

/// A named capture from a process pipe.
#[derive(Debug)]
pub struct CaptureSpec {
    /// The pipe to read: `stdout` or `stderr`.
    pub pipe: String,
    /// Pattern whose group 1 (or whole match) becomes the value.
    pub regex: Option<String>,
    /// Key=value guards on parsed JSON (`ndjson`/`json` only).
    pub match_fields: Vec<(String, String)>,
    /// Dot-path into parsed JSON (`ndjson`/`json` only).
    pub pick: Option<String>,
}

impl Default for CaptureSpec {
    fn default() -> (c: Self)
        ensures
            c.pipe@ == "stdout"@,
            c.regex is None,
            c.match_fields@.len() == 0,
            c.pick is None,
    {
        CaptureSpec { pipe: pipe_default(), regex: None, match_fields: Vec::new(), pick: None }
    }
}

/// The call-site fields of a step that uses a template or group.
#[derive(Debug)]
pub struct UseStep {
    /// The template or group used.
    pub use_name: String,
    /// Group substitution variables (`${group.key}`).
    pub vars: Vec<(String, String)>,
    /// Override fields merged on top of the template.
    pub id: Option<String>,
    pub device: Option<String>,
    pub env: Vec<(String, String)>,
    pub args: Vec<String>,
    pub requires: Vec<String>,
    pub results: Option<StepResults>,
    pub timeout: Option<String>,
    pub captures: Vec<(String, CaptureSpec)>,
}

/// A step with its `when` guard.
#[derive(Debug)]
pub struct Guarded {
    /// The guard: the step is skipped when it is `false`.
    pub when: Option<String>,
    /// The step, by its action name.
    pub action: String,
}

impl Guarded {
    /// Whether the step is skipped: its guard is exactly `false`.
    pub fn is_skipped(&self) -> (b: bool)
        ensures
            b == (opt_chars(self.when) == Some("false"@)),
    {
        match &self.when {
            Some(w) => {
                let c = chars_of(w.as_str());
                eq_str(&c, "false")
            },
            None => false,
        }
    }
}

/// The text of a `when` guard: a string as it is, a boolean as `true` or
/// `false`; other values give no guard.
pub open spec fn guard_text(v: TomlView) -> Option<Seq<char>> {
    match v {
        TomlView::Str(s) => Some(s),
        TomlView::Bool(b) => Some(if b { "true"@ } else { "false"@ }),
        _ => None,
    }
}

/// What a raw `[[step]]` table is: its `when` guard (taken out of the table)
/// and whether it uses a template (it has a `use` key).
pub open spec fn step_entry_of(t: Seq<(Seq<char>, TomlView)>) -> (Seq<(Seq<char>, TomlView)>, Option<Seq<char>>, bool) {
    let (rest, when) = match key_index(t, "when"@) {
        Some(i) => (t.remove(i), guard_text(t[i].1)),
        None => (t, None),
    };
    (rest, when, key_index(rest, "use"@) is Some)
}

/// Takes the `when` guard out of a raw `[[step]]` table and tells whether the
/// step uses a template.
pub fn split_step_entry(table: &mut Vec<(String, TomlValue)>) -> (r: (Option<String>, bool))
    ensures
        (table_view(final(table)@), opt_chars(r.0), r.1) == step_entry_of(table_view(old(table)@)),
{
    let when = match crate::matrix::find_key(table, "when") {
        Some(i) => {
            proof {
                crate::matrix::lemma_table_view_remove(table@, i as int);
                crate::matrix::lemma_table_view_len(table@);
            }
            let (_, v) = table.remove(i);
            match v {
                TomlValue::Str(s) => Some(s),
                TomlValue::Bool(b) => Some(if b { "true".to_owned() } else { "false".to_owned() }),
                _ => None,
            }
        },
        None => None,
    };
    let uses = match crate::matrix::find_key(table, "use") {
        Some(_) => true,
        None => false,
    };
    (when, uses)
}

/// Per-region latency configuration: one-way latency in ms to each target region.
#[derive(Debug)]
pub struct RegionConfig {
    pub latencies: Vec<(String, u32)>,
}

/// A router of a lab configuration.
#[derive(Debug)]
pub struct RouterConfig {
    /// Router name.
    pub name: String,
    /// Region tag, for inter-region latency rules.
    pub region: Option<String>,
    /// The upstream router; without one the router attaches to the IX switch.
    pub upstream: Option<String>,
    /// The NAT mode, by name (`none` when absent).
    pub nat: String,
}

} // verus!
