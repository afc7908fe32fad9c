//! Layered configuration: values with provenance, their checks and their sources.
use vstd::prelude::*;
use crate::config::source::{ConfigSource, Sourced};
use crate::config::types::{
    Component, Config, ConfigView, Settings, SettingsView, UnmatchedPolicy, components_view,
    copy_components,
};
use crate::config::validate::{spec_validate, validate_components};
use crate::domain::error::ConfigError;
use crate::git::branch::opt_str_view;
use crate::domain::text::{
    contains_seq, copy_opt, debug_quote, debug_quoted, has_prefix, lowercase_of, opt_view,
    str_contains, str_eq, str_starts_with, to_lowercase,
};

verus! {

/// Fully resolved configuration with provenance tracking.
#[derive(Debug)]
pub struct ResolvedConfig {
    pub base_branch: Sourced<String>,
    pub branch_template: Sourced<String>,
    pub unmatched_files: Sourced<UnmatchedPolicy>,
    pub default_commit_type: Sourced<Option<String>>,
    /// Components from .atomic.toml, in file order.
    pub components: Vec<Component>,
}

/// The settings a resolved configuration carries.
pub open spec fn resolved_settings(r: ResolvedConfig) -> SettingsView {
    SettingsView {
        base_branch: r.base_branch.value@,
        branch_template: r.branch_template.value@,
        unmatched_files: r.unmatched_files.value,
        default_commit_type: opt_view(r.default_commit_type.value),
    }
}

impl ResolvedConfig {
    /// Convert back to a plain `Config` for use with `ComponentMatcher` etc.
    pub fn to_config(&self) -> (r: Config)
        ensures
            r@ == (ConfigView {
                settings: resolved_settings(*self),
                components: components_view(self.components@),
            }),
    {
        Config {
            settings: Settings {
                base_branch: self.base_branch.value.clone(),
                branch_template: self.branch_template.value.clone(),
                unmatched_files: self.unmatched_files.value,
                default_commit_type: copy_opt(&self.default_commit_type.value),
            },
            components: copy_components(&self.components),
        }
    }
}

/// Configuration warnings (non-fatal).
#[derive(Debug)]
pub struct ConfigWarning {
    pub message: String,
}

/// The warning for a configuration without components.
pub open spec fn no_components_warning() -> Seq<char> {
    "no components defined — create .atomic.toml with [[components]] or run git-atomic init"@
}

/// The warning for a branch template without the placeholder; `quoted` is the
/// template's debug form.
pub open spec fn template_warning(quoted: Seq<char>) -> Seq<char> {
    "branch_template "@ + quoted + " does not contain {component} placeholder"@
}

/// The warning for an empty base branch.
pub open spec fn empty_base_warning() -> Seq<char> {
    "base_branch is empty"@
}

/// The warnings for a resolved configuration, in order: no components, a template
/// with no placeholder (neither `{component}` nor `{name}`), an empty base branch.
pub open spec fn spec_warnings(r: ResolvedConfig) -> Seq<Seq<char>> {
    let a: Seq<Seq<char>> = if r.components@.len() == 0 {
        seq![no_components_warning()]
    } else {
        seq![]
    };
    let b: Seq<Seq<char>> = if !contains_seq(r.branch_template.value@, "{component}"@) && !contains_seq(r.branch_template.value@, "{name}"@) {
        seq![template_warning(debug_quoted(r.branch_template.value@))]
    } else {
        seq![]
    };
    let c: Seq<Seq<char>> = if r.base_branch.value@.len() == 0 {
        seq![empty_base_warning()]
    } else {
        seq![]
    };
    a + b + c
}

/// The messages of a list of warnings.
pub open spec fn warnings_view(ws: Seq<ConfigWarning>) -> Seq<Seq<char>> {
    ws.map_values(|w: ConfigWarning| w.message@)
}

/// Validate the resolved (merged) configuration for cross-source consistency.
pub fn validate_resolved(config: &ResolvedConfig) -> (r: Vec<ConfigWarning>)
    ensures
        warnings_view(r@) == spec_warnings(*config),
{
    let mut warnings: Vec<ConfigWarning> = Vec::new();
    let ghost a: Seq<Seq<char>> = if config.components@.len() == 0 {
        seq![no_components_warning()]
    } else {
        seq![]
    };
    let ghost b: Seq<Seq<char>> = if !contains_seq(config.branch_template.value@, "{component}"@) && !contains_seq(
        config.branch_template.value@,
        "{name}"@,
    ) {
        seq![template_warning(debug_quoted(config.branch_template.value@))]
    } else {
        seq![]
    };
    let ghost c: Seq<Seq<char>> = if config.base_branch.value@.len() == 0 {
        seq![empty_base_warning()]
    } else {
        seq![]
    };
    if config.components.len() == 0 {
        warnings.push(
            ConfigWarning {
                message: "no components defined — create .atomic.toml with [[components]] or run git-atomic init".to_string(),
            },
        );
    }
    assert(warnings_view(warnings@) =~= a);
    if !str_contains(config.branch_template.value.as_str(), "{component}") && !str_contains(
        config.branch_template.value.as_str(),
        "{name}",
    ) {
        let m = "branch_template ".to_string();
        let m = m.concat(debug_quote(config.branch_template.value.as_str()).as_str());
        let m = m.concat(" does not contain {component} placeholder");
        let ghost before = warnings@;
        warnings.push(ConfigWarning { message: m });
        assert(warnings_view(warnings@) =~= warnings_view(before).push(m@));
    }
    assert(warnings_view(warnings@) =~= a + b);
    if config.base_branch.value.as_str().is_empty() {
        let ghost before = warnings@;
        warnings.push(ConfigWarning { message: "base_branch is empty".to_string() });
        assert(warnings_view(warnings@) =~= warnings_view(before).push(empty_base_warning()));
    }
    assert(warnings_view(warnings@) =~= a + b + c);
    warnings
}

/// The source a provider's metadata name stands for: the git config provider, the
/// `.atomic.toml` file (or any TOML source), the environment, or else a default.
pub open spec fn spec_source_from_name(name: Seq<char>) -> ConfigSource {
    if name == "git config"@ {
        ConfigSource::GitConfig
    } else if contains_seq(name, ".atomic.toml"@) || has_prefix(name, "TOML"@) {
        ConfigSource::File
    } else if contains_seq(name, "GIT_ATOMIC"@) || contains_seq(name, "env"@) {
        ConfigSource::Env
    } else {
        ConfigSource::Default
    }
}

/// Map a provider's metadata name to our `ConfigSource` enum.
pub fn source_from_metadata_name(name: &str) -> (r: ConfigSource)
    ensures
        r == spec_source_from_name(name@),
{
    if str_eq(name, "git config") {
        ConfigSource::GitConfig
    } else if str_contains(name, ".atomic.toml") || str_starts_with(name, "TOML") {
        ConfigSource::File
    } else if str_contains(name, "GIT_ATOMIC") || str_contains(name, "env") {
        ConfigSource::Env
    } else {
        ConfigSource::Default
    }
}

/// The source of a value from what its tag says: a default tag, or the metadata name
/// of the provider that supplied it (none known: default).
pub open spec fn tag_source(is_default: bool, metadata_name: Option<Seq<char>>) -> ConfigSource {
    if is_default {
        ConfigSource::Default
    } else {
        match metadata_name {
            Some(n) => spec_source_from_name(n),
            None => ConfigSource::Default,
        }
    }
}

/// The source of a value from what its tag says.
pub fn source_for_tag(is_default: bool, metadata_name: Option<&str>) -> (r: ConfigSource)
    ensures
        r == tag_source(is_default, opt_str_view(metadata_name)),
{
    if is_default {
        return ConfigSource::Default;
    }
    match metadata_name {
        Some(n) => source_from_metadata_name(n),
        None => ConfigSource::Default,
    }
}

/// The prefix of environment variables that set configuration values.
pub const ENV_PREFIX: &'static str = "GIT_ATOMIC_";

/// The configuration path an environment key (with the prefix removed) sets:
/// `GIT_ATOMIC_BASE_BRANCH` → `settings.base_branch`.
pub fn env_key_path(key: &str) -> (r: String)
    ensures
        r@ == "settings."@ + lowercase_of(key@),
{
    let k = to_lowercase(key);
    "settings.".to_string().concat(k.as_str())
}

/// The git config keys (under the `atomic` section) read as settings, each with the
/// setting it provides.
pub open spec fn spec_git_config_keys() -> Seq<(Seq<char>, Seq<char>)> {
    seq![
        ("baseBranch"@, "base_branch"@),
        ("branchTemplate"@, "branch_template"@),
        ("unmatchedFiles"@, "unmatched_files"@),
        ("defaultCommitType"@, "default_commit_type"@),
    ]
}

/// The git config keys (under the `atomic` section) read as settings, each with the
/// setting it provides, in the order they are read.
pub fn git_config_keys() -> (r: Vec<(&'static str, &'static str)>)
    ensures
        r@.map_values(|p: (&'static str, &'static str)| (p.0@, p.1@)) == spec_git_config_keys(),
{
    let r = vec![
        ("baseBranch", "base_branch"),
        ("branchTemplate", "branch_template"),
        ("unmatchedFiles", "unmatched_files"),
        ("defaultCommitType", "default_commit_type"),
    ];
    assert(r@.map_values(|p: (&'static str, &'static str)| (p.0@, p.1@)) =~= spec_git_config_keys());
    r
}

/// A setting as extracted from the merged layers: its value, whether its tag is the
/// default one, and the metadata name of the provider that supplied it (if known).
#[derive(Debug)]
pub struct TaggedValue<T> {
    pub value: T,
    pub is_default: bool,
    pub provider: Option<String>,
}

/// The provenance of a tagged value.
pub open spec fn tagged_source<T>(t: TaggedValue<T>) -> ConfigSource {
    tag_source(t.is_default, opt_view(t.provider))
}

fn sourced_string(t: TaggedValue<String>) -> (r: Sourced<String>)
    ensures
        r.value@ == t.value@,
        r.source == tagged_source(t),
{
    let source = source_for_tag(t.is_default, as_opt_str(&t.provider));
    Sourced::new(t.value, source)
}

fn as_opt_str(o: &Option<String>) -> (r: Option<&str>)
    ensures
        opt_str_view(r) == opt_view(*o),
{
    match o {
        Some(s) => Some(s.as_str()),
        None => None,
    }
}

/// The resolved configuration from the values extracted from the merged layers: the
/// components must pass the same checks as a loaded file (unique names, globs that
/// compile), and each setting keeps the source its tag names; an absent default commit
/// type comes from the defaults.
pub fn resolve_layers(
    base_branch: TaggedValue<String>,
    branch_template: TaggedValue<String>,
    unmatched_files: TaggedValue<UnmatchedPolicy>,
    default_commit_type: Option<TaggedValue<String>>,
    components: Vec<Component>,
) -> (r: Result<ResolvedConfig, ConfigError>)
    ensures
        match spec_validate(components_view(components@)) {
            Err(e) => r matches Err(x) && x@ == e,
            Ok(_) => r matches Ok(c) && {
                &&& c.base_branch.value@ == base_branch.value@
                &&& c.base_branch.source == tagged_source(base_branch)
                &&& c.branch_template.value@ == branch_template.value@
                &&& c.branch_template.source == tagged_source(branch_template)
                &&& c.unmatched_files.value == unmatched_files.value
                &&& c.unmatched_files.source == tagged_source(unmatched_files)
                &&& opt_view(c.default_commit_type.value) == match default_commit_type {
                    Some(t) => Some(t.value@),
                    None => None,
                }
                &&& c.default_commit_type.source == match default_commit_type {
                    Some(t) => tagged_source(t),
                    None => ConfigSource::Default,
                }
                &&& components_view(c.components@) == components_view(components@)
            },
        },
{
    match validate_components(&components) {
        Err(e) => {
            return Err(e);
        },
        Ok(()) => {},
    }
    let unmatched_source = source_for_tag(
        unmatched_files.is_default,
        as_opt_str(&unmatched_files.provider),
    );
    let (commit_type, commit_type_source) = match default_commit_type {
        Some(t) => {
            let src = source_for_tag(t.is_default, as_opt_str(&t.provider));
            (Some(t.value), src)
        },
        None => (None, ConfigSource::Default),
    };
    Ok(
        ResolvedConfig {
            base_branch: sourced_string(base_branch),
            branch_template: sourced_string(branch_template),
            unmatched_files: Sourced::new(unmatched_files.value, unmatched_source),
            default_commit_type: Sourced::new(commit_type, commit_type_source),
            components,
        },
    )
}

/// The settings that git config provides: for each key that has a value, in key order,
/// the setting it provides and the value.
pub open spec fn present_settings(
    keys: Seq<(Seq<char>, Seq<char>)>,
    found: Seq<Option<Seq<char>>>,
) -> Seq<(Seq<char>, Seq<char>)>
    decreases found.len(),
{
    if found.len() == 0 || keys.len() == 0 {
        seq![]
    } else {
        let rest = present_settings(keys.drop_last(), found.drop_last());
        match found.last() {
            Some(v) => rest.push((keys.last().1, v)),
            None => rest,
        }
    }
}

/// The views of optional strings.
pub open spec fn opts_view(v: Seq<Option<String>>) -> Seq<Option<Seq<char>>> {
    v.map_values(|o: Option<String>| opt_view(o))
}

/// The views of pairs of strings.
pub open spec fn pairs_view(v: Seq<(String, String)>) -> Seq<(Seq<char>, Seq<char>)> {
    v.map_values(|p: (String, String)| (p.0@, p.1@))
}

/// The settings provided by git config, from the values found for each of
/// [`git_config_keys`], in that order.
pub fn git_config_settings(found: &Vec<Option<String>>) -> (r: Vec<(String, String)>)
    requires
        found@.len() == spec_git_config_keys().len(),
    ensures
        pairs_view(r@) == present_settings(spec_git_config_keys(), opts_view(found@)),
{
    let keys = git_config_keys();
    let ghost ks = keys@.map_values(|p: (&'static str, &'static str)| (p.0@, p.1@));
    let mut r: Vec<(String, String)> = Vec::new();
    let mut i: usize = 0;
    assert(ks.take(0) =~= Seq::<(Seq<char>, Seq<char>)>::empty());
    while i < found.len()
        invariant
            i <= found@.len(),
            found@.len() == keys@.len(),
            ks == keys@.map_values(|p: (&'static str, &'static str)| (p.0@, p.1@)),
            ks == spec_git_config_keys(),
            pairs_view(r@) == present_settings(ks.take(i as int), opts_view(found@).take(i as int)),
        decreases found@.len() - i,
    {
        let ghost before = pairs_view(r@);
        proof {
            assert(ks.take(i + 1).drop_last() =~= ks.take(i as int));
            assert(opts_view(found@).take(i + 1).drop_last() =~= opts_view(found@).take(i as int));
            assert(ks.take(i + 1).last() == ks[i as int]);
            assert(opts_view(found@).take(i + 1).last() == opt_view(found@[i as int]));
        }
        match &found[i] {
            Some(v) => {
                r.push((keys[i].1.to_string(), v.clone()));
                assert(pairs_view(r@) =~= before.push((ks[i as int].1, v@)));
            },
            None => {},
        }
        i = i + 1;
    }
    assert(ks.take(i as int) =~= ks);
    assert(opts_view(found@).take(i as int) =~= opts_view(found@));
    r
}

/// A camel-case name in snake case: each capital letter becomes `_` and its lowercase.
pub open spec fn snake_case(s: Seq<char>) -> Seq<char>
    decreases s.len(),
{
    if s.len() == 0 {
        s
    } else {
        let c = s[0];
        (if 'A' <= c && c <= 'Z' {
            seq!['_', ((c as int) + 32) as char]
        } else {
            seq![c]
        }) + snake_case(s.skip(1))
    }
}

proof fn lemma_snake_concat(a: Seq<char>, b: Seq<char>)
    ensures
        snake_case(a + b) == snake_case(a) + snake_case(b),
    decreases a.len(),
{
    if a.len() == 0 {
        assert(a + b =~= b);
    } else {
        assert((a + b).skip(1) =~= a.skip(1) + b);
        assert((a + b)[0] == a[0]);
        lemma_snake_concat(a.skip(1), b);
    }
}

proof fn lemma_snake_lower(a: Seq<char>)
    requires
        forall|i: int| 0 <= i < a.len() ==> !('A' <= #[trigger] a[i] && a[i] <= 'Z'),
    ensures
        snake_case(a) == a,
    decreases a.len(),
{
    if a.len() > 0 {
        assert forall|i: int| 0 <= i < a.skip(1).len() implies !('A' <= #[trigger] a.skip(1)[i] && a.skip(1)[i] <= 'Z') by {
            assert(a.skip(1)[i] == a[i + 1]);
        }
        lemma_snake_lower(a.skip(1));
        assert(seq![a[0]] + a.skip(1) =~= a);
    }
}

proof fn lemma_snake_capital(c: char, l: char)
    requires
        'A' <= c <= 'Z',
        (c as int) + 32 == l as int,
    ensures
        snake_case(seq![c]) == seq!['_', l],
{
    assert(seq![c].skip(1) =~= Seq::<char>::empty());
    assert(((c as int) + 32) as char == (l as int) as char);
    assert((l as int) as char == l);
    assert(snake_case(Seq::<char>::empty()) == Seq::<char>::empty());
    assert(snake_case(seq![c].skip(1)) == Seq::<char>::empty());
    assert(seq![c][0] == c);
    assert(seq!['_', l] + Seq::<char>::empty() =~= seq!['_', l]);
}

/// `lower + capital + rest` in snake case, when `lower` and `rest` hold no capital.
proof fn lemma_snake_one_hump(x: Seq<char>, y: Seq<char>, c: char, l: char)
    requires
        forall|i: int| 0 <= i < x.len() ==> !('A' <= #[trigger] x[i] && x[i] <= 'Z'),
        forall|i: int| 0 <= i < y.len() ==> !('A' <= #[trigger] y[i] && y[i] <= 'Z'),
        'A' <= c <= 'Z',
        (c as int) + 32 == l as int,
    ensures
        snake_case(x + seq![c] + y) == x + seq!['_', l] + y,
{
    lemma_snake_concat(x + seq![c], y);
    lemma_snake_concat(x, seq![c]);
    lemma_snake_lower(x);
    lemma_snake_lower(y);
    lemma_snake_capital(c, l);
}

proof fn lemma_snake_keys()
    ensures
        snake_case("baseBranch"@) == "base_branch"@,
        snake_case("branchTemplate"@) == "branch_template"@,
        snake_case("unmatchedFiles"@) == "unmatched_files"@,
        snake_case("defaultCommitType"@) == "default_commit_type"@,
        "base_branch"@.len() == 11 && "base_branch"@[0] == 'b' && "base_branch"@[2] == 's',
        "branch_template"@.len() == 15 && "branch_template"@[0] == 'b' && "branch_template"@[2] == 'a',
        "unmatched_files"@.len() == 15 && "unmatched_files"@[0] == 'u',
        "default_commit_type"@.len() == 19 && "default_commit_type"@[0] == 'd',
{
    reveal_strlit("baseBranch");
    reveal_strlit("base_branch");
    reveal_strlit("branchTemplate");
    reveal_strlit("branch_template");
    reveal_strlit("unmatchedFiles");
    reveal_strlit("unmatched_files");
    reveal_strlit("defaultCommitType");
    reveal_strlit("default_commit_type");
    let base = seq!['b', 'a', 's', 'e'];
    let ranch = seq!['r', 'a', 'n', 'c', 'h'];
    lemma_snake_one_hump(base, ranch, 'B', 'b');
    assert("baseBranch"@ =~= base + seq!['B'] + ranch);
    assert("base_branch"@ =~= base + seq!['_', 'b'] + ranch);
    let branch = seq!['b', 'r', 'a', 'n', 'c', 'h'];
    let emplate = seq!['e', 'm', 'p', 'l', 'a', 't', 'e'];
    lemma_snake_one_hump(branch, emplate, 'T', 't');
    assert("branchTemplate"@ =~= branch + seq!['T'] + emplate);
    assert("branch_template"@ =~= branch + seq!['_', 't'] + emplate);
    let unmatched = seq!['u', 'n', 'm', 'a', 't', 'c', 'h', 'e', 'd'];
    let iles = seq!['i', 'l', 'e', 's'];
    lemma_snake_one_hump(unmatched, iles, 'F', 'f');
    assert("unmatchedFiles"@ =~= unmatched + seq!['F'] + iles);
    assert("unmatched_files"@ =~= unmatched + seq!['_', 'f'] + iles);
    let default = seq!['d', 'e', 'f', 'a', 'u', 'l', 't'];
    let ommit = seq!['o', 'm', 'm', 'i', 't'];
    let ype = seq!['y', 'p', 'e'];
    lemma_snake_one_hump(default, ommit, 'C', 'c');
    lemma_snake_concat(default + seq!['C'] + ommit, seq!['T'] + ype);
    lemma_snake_concat(seq!['T'], ype);
    lemma_snake_capital('T', 't');
    lemma_snake_lower(ype);
    assert("defaultCommitType"@ =~= (default + seq!['C'] + ommit) + (seq!['T'] + ype));
    assert("default_commit_type"@ =~= (default + seq!['_', 'c'] + ommit) + (seq!['_', 't'] + ype));
}

/// Each git config key feeds the setting of the same name: the setting is the key in
/// snake case (`atomic.branchTemplate` gives `branch_template`), no two keys feed the
/// same setting, and the four settings read are `base_branch`, `branch_template`,
/// `unmatched_files` and `default_commit_type`.
pub proof fn lemma_git_keys_feed_their_settings()
    ensures
        ({
            let ks = spec_git_config_keys();
            &&& ks.len() == 4
            &&& forall|i: int| 0 <= i < ks.len() ==> #[trigger] ks[i].1 == snake_case(ks[i].0)
            &&& forall|i: int, j: int| 0 <= i < j < ks.len() ==> ks[i].1 != ks[j].1
            &&& exists|i: int| 0 <= i < ks.len() && ks[i].1 == "base_branch"@
            &&& exists|i: int| 0 <= i < ks.len() && ks[i].1 == "branch_template"@
            &&& exists|i: int| 0 <= i < ks.len() && ks[i].1 == "unmatched_files"@
            &&& exists|i: int| 0 <= i < ks.len() && ks[i].1 == "default_commit_type"@
        }),
{
    lemma_snake_keys();
    let ks = spec_git_config_keys();
    assert forall|i: int, j: int| 0 <= i < j < ks.len() implies ks[i].1 != ks[j].1 by {
        assert(ks[i].1[2] != ks[j].1[2] || ks[i].1[0] != ks[j].1[0]);
    }
    assert(ks[0].1 == "base_branch"@);
    assert(ks[1].1 == "branch_template"@);
    assert(ks[2].1 == "unmatched_files"@);
    assert(ks[3].1 == "default_commit_type"@);
}

proof fn lemma_present_settings(keys: Seq<(Seq<char>, Seq<char>)>, found: Seq<Option<Seq<char>>>)
    requires
        keys.len() == found.len(),
    ensures
        forall|i: int|
            0 <= i < found.len() && #[trigger] found[i] is Some ==> present_settings(keys, found).contains(
                (keys[i].1, found[i]->0),
            ),
        forall|x: (Seq<char>, Seq<char>)|
            #[trigger] present_settings(keys, found).contains(x) ==> exists|i: int|
                0 <= i < found.len() && found[i] == Some(x.1) && keys[i].1 == x.0,
    decreases found.len(),
{
    if found.len() > 0 {
        let kd = keys.drop_last();
        let fd = found.drop_last();
        lemma_present_settings(kd, fd);
        let rest = present_settings(kd, fd);
        let r = present_settings(keys, found);
        let n = found.len() - 1;
        assert forall|i: int| 0 <= i < found.len() && #[trigger] found[i] is Some implies r.contains(
            (keys[i].1, found[i]->0),
        ) by {
            if i < n {
                assert(fd[i] == found[i] && kd[i] == keys[i]);
                assert(rest.contains((kd[i].1, fd[i]->0)));
                let t = choose|t: int| 0 <= t < rest.len() && rest[t] == (kd[i].1, fd[i]->0);
                assert(r[t] == rest[t]);
            } else {
                assert(found.last() == found[i]);
                assert(r[rest.len() as int] == (keys[i].1, found[i]->0));
            }
        }
        assert forall|x: (Seq<char>, Seq<char>)| #[trigger] r.contains(x) implies exists|i: int|
            0 <= i < found.len() && found[i] == Some(x.1) && keys[i].1 == x.0 by {
            let t = choose|t: int| 0 <= t < r.len() && r[t] == x;
            if t < rest.len() {
                assert(r[t] == rest[t]);
                assert(rest.contains(x));
                let i = choose|i: int| 0 <= i < fd.len() && fd[i] == Some(x.1) && kd[i].1 == x.0;
                assert(found[i] == fd[i] && keys[i] == kd[i]);
            } else {
                assert(found[n] == Some(x.1) && keys[n].1 == x.0);
            }
        }
    }
}

/// What git config provides follows its keys: every value found for a key is provided
/// for the setting that key feeds (a value for `atomic.branchTemplate` sets
/// `branch_template`), and nothing else is provided.
pub proof fn lemma_git_values_feed_their_settings(found: Seq<Option<Seq<char>>>)
    requires
        found.len() == 4,
    ensures
        forall|i: int|
            0 <= i < 4 && #[trigger] found[i] is Some ==> present_settings(spec_git_config_keys(), found).contains(
                (snake_case(spec_git_config_keys()[i].0), found[i]->0),
            ),
        found[1] is Some ==> present_settings(spec_git_config_keys(), found).contains(
            ("branch_template"@, found[1]->0),
        ),
        forall|x: (Seq<char>, Seq<char>)|
            #[trigger] present_settings(spec_git_config_keys(), found).contains(x) ==> exists|i: int|
                0 <= i < 4 && found[i] == Some(x.1) && x.0 == snake_case(spec_git_config_keys()[i].0),
{
    lemma_git_keys_feed_their_settings();
    lemma_snake_keys();
    let ks = spec_git_config_keys();
    lemma_present_settings(ks, found);
    assert(ks[1].1 == "branch_template"@);
}

} // verus!
