//! Configuration types loaded from `.atomic.toml`.
use vstd::prelude::*;
use crate::domain::text::{
    ascii_lower, copy_opt, copy_strings, strings_view, debug_quote, debug_quoted, lowercase_of,
    opt_view, str_eq, to_lowercase,
};
use vstd::utf8::is_ascii_chars;

verus! {

/// Policy for files that match no component glob.
#[derive(Debug, Clone, Copy, PartialEq, Eq, Structural)]
pub enum UnmatchedPolicy {
    /// Fail with exit code 4 (default).
    Error,
    /// Log a warning but continue.
    Warn,
    /// Silently skip unmatched files.
    Ignore,
}

impl Default for UnmatchedPolicy {
    fn default() -> (r: Self)
        ensures
            r == UnmatchedPolicy::Error,
    {
        UnmatchedPolicy::Error
    }
}

/// The word that names each policy (its display form).
pub open spec fn policy_word(p: UnmatchedPolicy) -> Seq<char> {
    match p {
        UnmatchedPolicy::Error => "error"@,
        UnmatchedPolicy::Warn => "warn"@,
        UnmatchedPolicy::Ignore => "ignore"@,
    }
}

/// The policy a lowercase word names, if any.
pub open spec fn policy_for_word(w: Seq<char>) -> Option<UnmatchedPolicy> {
    if w == "error"@ {
        Some(UnmatchedPolicy::Error)
    } else if w == "warn"@ {
        Some(UnmatchedPolicy::Warn)
    } else if w == "ignore"@ {
        Some(UnmatchedPolicy::Ignore)
    } else {
        None
    }
}

/// The error text for a word that names no policy; `quoted` is the word's debug form.
pub open spec fn invalid_policy_message(quoted: Seq<char>) -> Seq<char> {
    "invalid unmatched_files policy: "@ + quoted
        + " (expected \"error\", \"warn\", or \"ignore\")"@
}

/// The value of a policy parse result.
pub open spec fn policy_result_view(r: Result<UnmatchedPolicy, String>) -> Result<
    UnmatchedPolicy,
    Seq<char>,
> {
    match r {
        Ok(p) => Ok(p),
        Err(m) => Err(m@),
    }
}

/// What parsing gives for an already lowercased word.
pub open spec fn spec_policy_from_lowercase(w: Seq<char>) -> Result<UnmatchedPolicy, Seq<char>> {
    match policy_for_word(w) {
        Some(p) => Ok(p),
        None => Err(invalid_policy_message(debug_quoted(w))),
    }
}

impl UnmatchedPolicy {
    /// The policy named by an already lowercased word.
    pub fn from_lowercase(w: &str) -> (r: Result<UnmatchedPolicy, String>)
        ensures
            policy_result_view(r) == spec_policy_from_lowercase(w@),
    {
        if str_eq(w, "error") {
            Ok(UnmatchedPolicy::Error)
        } else if str_eq(w, "warn") {
            Ok(UnmatchedPolicy::Warn)
        } else if str_eq(w, "ignore") {
            Ok(UnmatchedPolicy::Ignore)
        } else {
            let m = "invalid unmatched_files policy: ".to_string();
            let q = debug_quote(w);
            let m = m.concat(q.as_str());
            let m = m.concat(" (expected \"error\", \"warn\", or \"ignore\")");
            Err(m)
        }
    }

    /// Parse a policy name, ignoring case.
    pub fn parse(s: &str) -> (r: Result<UnmatchedPolicy, String>)
        ensures
            policy_result_view(r) == spec_policy_from_lowercase(lowercase_of(s@)),
            is_ascii_chars(s@) ==> policy_result_view(r) == spec_policy_from_lowercase(
                ascii_lower(s@),
            ),
    {
        let lower = to_lowercase(s);
        Self::from_lowercase(lower.as_str())
    }

    /// The policy's name.
    pub fn to_string(&self) -> (r: String)
        ensures
            r@ == policy_word(*self),
    {
        match self {
            UnmatchedPolicy::Error => "error".to_string(),
            UnmatchedPolicy::Warn => "warn".to_string(),
            UnmatchedPolicy::Ignore => "ignore".to_string(),
        }
    }
}

impl std::str::FromStr for UnmatchedPolicy {
    type Err = String;

    /// Parse a policy name, ignoring case (as [`UnmatchedPolicy::parse`]).
    fn from_str(s: &str) -> (r: Result<Self, Self::Err>)
        ensures
            policy_result_view(r) == spec_policy_from_lowercase(lowercase_of(s@)),
            is_ascii_chars(s@) ==> policy_result_view(r) == spec_policy_from_lowercase(
                ascii_lower(s@),
            ),
    {
        UnmatchedPolicy::parse(s)
    }
}

/// A single component definition.
#[derive(Debug)]
pub struct Component {
    /// Component name.
    pub name: String,
    /// Glob patterns that claim files for this component.
    pub globs: Vec<String>,
    /// Override the conventional-commit type for this component.
    pub commit_type: Option<String>,
    /// Override the branch name for this component.
    pub branch: Option<String>,
}

/// The value of a [`Component`].
pub struct ComponentView {
    pub name: Seq<char>,
    pub globs: Seq<Seq<char>>,
    pub commit_type: Option<Seq<char>>,
    pub branch: Option<Seq<char>>,
}

impl View for Component {
    type V = ComponentView;

    open spec fn view(&self) -> ComponentView {
        ComponentView {
            name: self.name@,
            globs: strings_view(self.globs@),
            commit_type: opt_view(self.commit_type),
            branch: opt_view(self.branch),
        }
    }
}

impl Component {
    /// A copy of this component.
    pub fn copy(&self) -> (r: Component)
        ensures
            r@ == self@,
    {
        Component {
            name: self.name.clone(),
            globs: copy_strings(&self.globs),
            commit_type: copy_opt(&self.commit_type),
            branch: copy_opt(&self.branch),
        }
    }
}

/// The views of a list of components.
pub open spec fn components_view(v: Seq<Component>) -> Seq<ComponentView> {
    v.map_values(|c: Component| c@)
}

/// A copy of a list of components.
pub fn copy_components(v: &Vec<Component>) -> (r: Vec<Component>)
    ensures
        components_view(r@) == components_view(v@),
{
    let mut r: Vec<Component> = Vec::new();
    let mut i: usize = 0;
    while i < v.len()
        invariant
            i <= v@.len(),
            r@.len() == i,
            components_view(r@) == components_view(v@.take(i as int)),
        decreases v@.len() - i,
    {
        let ghost old_r = r@;
        let c = v[i].copy();
        r.push(c);
        assert forall|k: int| 0 <= k < i + 1 implies components_view(r@)[k] == components_view(
            v@.take(i + 1),
        )[k] by {
            if k < i {
                assert(components_view(old_r)[k] == components_view(v@.take(i as int))[k]);
            }
        }
        i = i + 1;
        assert(components_view(r@) =~= components_view(v@.take(i as int)));
    }
    assert(v@.take(i as int) =~= v@);
    r
}

/// Global settings with defaults.
#[derive(Debug)]
pub struct Settings {
    /// Base branch for atomic branches.
    pub base_branch: String,
    /// Branch naming template. `{component}` (or `{name}`) is replaced at runtime.
    pub branch_template: String,
    /// Policy when files match no component.
    pub unmatched_files: UnmatchedPolicy,
    /// Default conventional-commit type.
    pub default_commit_type: Option<String>,
}

/// The value of [`Settings`].
pub struct SettingsView {
    pub base_branch: Seq<char>,
    pub branch_template: Seq<char>,
    pub unmatched_files: UnmatchedPolicy,
    pub default_commit_type: Option<Seq<char>>,
}

impl View for Settings {
    type V = SettingsView;

    open spec fn view(&self) -> SettingsView {
        SettingsView {
            base_branch: self.base_branch@,
            branch_template: self.branch_template@,
            unmatched_files: self.unmatched_files,
            default_commit_type: opt_view(self.default_commit_type),
        }
    }
}

/// `main`
pub open spec fn spec_default_base_branch() -> Seq<char> {
    "main"@
}

/// `atomic/{component}`
pub open spec fn spec_default_branch_template() -> Seq<char> {
    "atomic/{component}"@
}

/// The default settings.
pub open spec fn default_settings_view() -> SettingsView {
    SettingsView {
        base_branch: spec_default_base_branch(),
        branch_template: spec_default_branch_template(),
        unmatched_files: UnmatchedPolicy::Error,
        default_commit_type: None,
    }
}

/// The default base branch.
pub fn default_base_branch() -> (r: String)
    ensures
        r@ == spec_default_base_branch(),
{
    "main".to_string()
}

/// The default branch template.
pub fn default_branch_template() -> (r: String)
    ensures
        r@ == spec_default_branch_template(),
{
    "atomic/{component}".to_string()
}

impl Default for Settings {
    fn default() -> (r: Self)
        ensures
            r@ == default_settings_view(),
    {
        Self {
            base_branch: default_base_branch(),
            branch_template: default_branch_template(),
            unmatched_files: UnmatchedPolicy::Error,
            default_commit_type: None,
        }
    }
}

impl Settings {
    /// A copy of these settings.
    pub fn copy(&self) -> (r: Settings)
        ensures
            r@ == self@,
    {
        Settings {
            base_branch: self.base_branch.clone(),
            branch_template: self.branch_template.clone(),
            unmatched_files: self.unmatched_files,
            default_commit_type: copy_opt(&self.default_commit_type),
        }
    }
}

/// Root configuration loaded from `.atomic.toml`.
#[derive(Debug)]
pub struct Config {
    pub settings: Settings,
    /// Ordered list of component definitions; order determines match priority
    /// (first match wins).
    pub components: Vec<Component>,
}

/// The value of a [`Config`].
pub struct ConfigView {
    pub settings: SettingsView,
    pub components: Seq<ComponentView>,
}

impl View for Config {
    type V = ConfigView;

    open spec fn view(&self) -> ConfigView {
        ConfigView { settings: self.settings@, components: components_view(self.components@) }
    }
}

/// The sample configuration written by `init`.
pub open spec fn sample_config_view() -> ConfigView {
    ConfigView {
        settings: default_settings_view(),
        components: seq![
            ComponentView {
                name: "frontend"@,
                globs: seq!["src/ui/**"@, "src/components/**"@],
                commit_type: None,
                branch: None,
            },
            ComponentView {
                name: "backend"@,
                globs: seq!["src/api/**"@, "src/db/**"@],
                commit_type: Some("fix"@),
                branch: None,
            },
        ],
    }
}

fn owned(s: &str) -> (r: String)
    ensures
        r@ == s@,
{
    s.to_string()
}

impl Config {
    /// Build a sample config with default settings and example components.
    /// Used by `init` to generate `.atomic.toml` from the real types.
    pub fn sample() -> (r: Self)
        ensures
            r@ == sample_config_view(),
    {
        let frontend = Component {
            name: owned("frontend"),
            globs: vec![owned("src/ui/**"), owned("src/components/**")],
            commit_type: None,
            branch: None,
        };
        let backend = Component {
            name: owned("backend"),
            globs: vec![owned("src/api/**"), owned("src/db/**")],
            commit_type: Some(owned("fix")),
            branch: None,
        };
        let r = Self { settings: Settings::default(), components: vec![frontend, backend] };
        assert(strings_view(r.components@[0].globs@) =~= seq![
            "src/ui/**"@,
            "src/components/**"@,
        ]);
        assert(strings_view(r.components@[1].globs@) =~= seq![
            "src/api/**"@,
            "src/db/**"@,
        ]);
        assert(components_view(r.components@) =~= sample_config_view().components);
        r
    }

    /// A copy of this configuration.
    pub fn copy(&self) -> (r: Config)
        ensures
            r@ == self@,
    {
        Config { settings: self.settings.copy(), components: copy_components(&self.components) }
    }
}

/// Parsing ignores the case of ASCII names: any ASCII text whose lowercase is a
/// policy's name parses to that policy (its name, or its name in capitals, among them);
/// any other ASCII text is refused, naming its lowercase form.
pub proof fn lemma_policy_names_round_trip(p: UnmatchedPolicy, s: Seq<char>)
    requires
        is_ascii_chars(s),
    ensures
        ascii_lower(s) == policy_word(p) ==> spec_policy_from_lowercase(ascii_lower(s)) == Ok::<
            UnmatchedPolicy,
            Seq<char>,
        >(p),
        policy_for_word(ascii_lower(s)) is None ==> spec_policy_from_lowercase(ascii_lower(s))
            == Err::<UnmatchedPolicy, Seq<char>>(invalid_policy_message(debug_quoted(ascii_lower(s)))),
{
    lemma_policy_word_parses(p);
}

/// A policy's name parses back to the policy.
pub proof fn lemma_policy_word_parses(p: UnmatchedPolicy)
    ensures
        spec_policy_from_lowercase(policy_word(p)) == Ok::<UnmatchedPolicy, Seq<char>>(p),
        is_ascii_chars(policy_word(p)),
        ascii_lower(policy_word(p)) == policy_word(p),
{
    reveal_strlit("error");
    reveal_strlit("warn");
    reveal_strlit("ignore");
    assert("error"@.len() == 5 && "warn"@.len() == 4 && "ignore"@.len() == 6);
    assert(ascii_lower(policy_word(p)) =~= policy_word(p));
}

} // verus!
