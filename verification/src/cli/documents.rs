//! The JSON documents of `--json` output: what each report holds, key by key.
use vstd::prelude::*;
use crate::cli::json::{Json, JsonDoc, json_fields, json_list, json_str, json_strings, json_view, push_field, push_item, str_items};
use crate::config::layered::ResolvedConfig;
use crate::config::source::source_label;
use crate::config::types::{Component, ComponentView, Config, ConfigView, components_view, policy_word};
use crate::domain::effect::{Effect, PlannedRefEdit};
use crate::domain::text::{concat_str, opt_view};
use crate::git::atomize::AtomicResult;
use crate::git::branch::{BranchState, BranchStateView};

verus! {

/// An optional string: the string, or `null`.
pub open spec fn opt_json(o: Option<Seq<char>>) -> Json {
    match o {
        Some(s) => Json::Str(s),
        None => Json::Null,
    }
}

fn opt_doc(o: &Option<String>) -> (r: JsonDoc)
    ensures
        json_view(r) == opt_json(opt_view(*o)),
{
    match o {
        Some(s) => json_str(s.as_str()),
        None => JsonDoc::Null,
    }
}

/// One component's commit: component, branch, commit id, files and whether the branch
/// is new.
pub open spec fn result_json(r: AtomicResult) -> Json {
    Json::Obj(
        seq![
            ("component"@, Json::Str(r.component@)),
            ("branch"@, Json::Str(r.branch@)),
            ("commit"@, Json::Str(r.commit_id@)),
            ("files"@, Json::Arr(str_items(r.files@))),
            ("created"@, Json::Bool(r.created)),
        ],
    )
}

/// The report of a split: whether it was a dry run, and one entry per component.
pub open spec fn commit_results_doc(rs: Seq<AtomicResult>, dry_run: bool) -> Json {
    Json::Obj(
        seq![
            ("dry_run"@, Json::Bool(dry_run)),
            ("results"@, Json::Arr(rs.map_values(|r: AtomicResult| result_json(r)))),
        ],
    )
}

fn result_doc(r: &AtomicResult) -> (d: JsonDoc)
    ensures
        json_view(d) == result_json(*r),
{
    let mut f: Vec<(String, JsonDoc)> = Vec::new();
    push_field(&mut f, "component", json_str(r.component.as_str()));
    push_field(&mut f, "branch", json_str(r.branch.as_str()));
    push_field(&mut f, "commit", json_str(r.commit_id.as_str()));
    push_field(&mut f, "files", json_strings(&r.files));
    push_field(&mut f, "created", JsonDoc::Bool(r.created));
    assert(json_fields(f@) =~= seq![
        ("component"@, Json::Str(r.component@)),
        ("branch"@, Json::Str(r.branch@)),
        ("commit"@, Json::Str(r.commit_id@)),
        ("files"@, Json::Arr(str_items(r.files@))),
        ("created"@, Json::Bool(r.created)),
    ]);
    JsonDoc::Obj(f)
}

/// The JSON report of a split.
pub fn commit_results_json(results: &Vec<AtomicResult>, dry_run: bool) -> (r: JsonDoc)
    ensures
        json_view(r) == commit_results_doc(results@, dry_run),
{
    let mut items: Vec<JsonDoc> = Vec::new();
    let mut i: usize = 0;
    assert(json_list(items@) =~= results@.take(0).map_values(|r: AtomicResult| result_json(r)));
    while i < results.len()
        invariant
            i <= results@.len(),
            json_list(items@) == results@.take(i as int).map_values(|r: AtomicResult| result_json(r)),
        decreases results@.len() - i,
    {
        push_item(&mut items, result_doc(&results[i]));
        assert(results@.take(i + 1).map_values(|r: AtomicResult| result_json(r)) =~= results@.take(
            i as int,
        ).map_values(|r: AtomicResult| result_json(r)).push(result_json(results@[i as int])));
        i = i + 1;
    }
    assert(results@.take(i as int) =~= results@);
    let mut f: Vec<(String, JsonDoc)> = Vec::new();
    push_field(&mut f, "dry_run", JsonDoc::Bool(dry_run));
    push_field(&mut f, "results", JsonDoc::Arr(items));
    assert(json_fields(f@) =~= seq![
        ("dry_run"@, Json::Bool(dry_run)),
        ("results"@, Json::Arr(results@.map_values(|r: AtomicResult| result_json(r)))),
    ]);
    JsonDoc::Obj(f)
}

/// A branch state as its debug text names it (a tip shown as `Sha1(<id>)`).
pub open spec fn state_text(s: BranchStateView) -> Seq<char> {
    match s {
        BranchStateView::Missing => "Missing"@,
        BranchStateView::Current => "Current"@,
        BranchStateView::FastForward(t) => "FastForward { tip: Sha1("@ + t + ") }"@,
        BranchStateView::Behind(t) => "Behind { tip: Sha1("@ + t + ") }"@,
        BranchStateView::Diverged(t) => "Diverged { tip: Sha1("@ + t + ") }"@,
    }
}

fn state_string(s: &BranchState) -> (r: String)
    ensures
        r@ == state_text(s@),
{
    match s {
        BranchState::Missing => "Missing".to_string(),
        BranchState::Current => "Current".to_string(),
        BranchState::FastForward { tip } => concat_str("FastForward { tip: Sha1(", tip.as_str()).concat(") }"),
        BranchState::Behind { tip } => concat_str("Behind { tip: Sha1(", tip.as_str()).concat(") }"),
        BranchState::Diverged { tip } => concat_str("Diverged { tip: Sha1(", tip.as_str()).concat(") }"),
    }
}

/// One row of the status report: component, branch, state and number of files.
pub open spec fn status_row_json(component: Seq<char>, branch: Seq<char>, state: BranchStateView, files: nat) -> Json {
    Json::Obj(
        seq![
            ("component"@, Json::Str(component)),
            ("branch"@, Json::Str(branch)),
            ("state"@, Json::Str(state_text(state))),
            ("file_count"@, Json::Num(files)),
        ],
    )
}

/// The fields of a status row a JSON row is made of.
pub open spec fn status_row_doc(row: crate::cli::output::StatusRow) -> Json {
    status_row_json(row.component@, row.branch@, row.state@, row.files@.len())
}

/// The JSON status report: one entry per component.
pub fn status_json(rows: &Vec<crate::cli::output::StatusRow>) -> (r: JsonDoc)
    ensures
        json_view(r) == Json::Arr(rows@.map_values(|row: crate::cli::output::StatusRow| status_row_doc(row))),
{
    let mut items: Vec<JsonDoc> = Vec::new();
    let mut i: usize = 0;
    assert(json_list(items@) =~= rows@.take(0).map_values(|row: crate::cli::output::StatusRow| status_row_doc(row)));
    while i < rows.len()
        invariant
            i <= rows@.len(),
            json_list(items@) == rows@.take(i as int).map_values(
                |row: crate::cli::output::StatusRow| status_row_doc(row),
            ),
        decreases rows@.len() - i,
    {
        let row = &rows[i];
        let mut f: Vec<(String, JsonDoc)> = Vec::new();
        push_field(&mut f, "component", json_str(row.component.as_str()));
        push_field(&mut f, "branch", json_str(row.branch.as_str()));
        push_field(&mut f, "state", JsonDoc::Str(state_string(&row.state)));
        push_field(&mut f, "file_count", JsonDoc::Num(row.files.len() as u64));
        assert(json_fields(f@) =~= seq![
            ("component"@, Json::Str(row.component@)),
            ("branch"@, Json::Str(row.branch@)),
            ("state"@, Json::Str(state_text(row.state@))),
            ("file_count"@, Json::Num(row.files@.len())),
        ]);
        push_item(&mut items, JsonDoc::Obj(f));
        assert(rows@.take(i + 1).map_values(|row: crate::cli::output::StatusRow| status_row_doc(row))
            =~= rows@.take(i as int).map_values(
            |row: crate::cli::output::StatusRow| status_row_doc(row),
        ).push(status_row_doc(rows@[i as int])));
        i = i + 1;
    }
    assert(rows@.take(i as int) =~= rows@);
    JsonDoc::Arr(items)
}

/// A setting's value and the label of its source.
pub open spec fn sourced_json(value: Json, source: crate::config::source::ConfigSource) -> Json {
    Json::Obj(seq![("value"@, value), ("source"@, Json::Str(source_label(source)))])
}

/// The provenance report: for each of the four settings, its value and source.
pub open spec fn provenance_doc(r: ResolvedConfig) -> Json {
    Json::Obj(
        seq![
            (
                "config"@,
                Json::Obj(
                    seq![
                        ("base_branch"@, sourced_json(Json::Str(r.base_branch.value@), r.base_branch.source)),
                        ("branch_template"@, sourced_json(Json::Str(r.branch_template.value@), r.branch_template.source)),
                        ("unmatched_files"@, sourced_json(Json::Str(policy_word(r.unmatched_files.value)), r.unmatched_files.source)),
                        ("default_commit_type"@, sourced_json(opt_json(opt_view(r.default_commit_type.value)), r.default_commit_type.source)),
                    ],
                ),
            ),
        ],
    )
}

fn sourced_doc(value: JsonDoc, source: crate::config::source::ConfigSource) -> (r: JsonDoc)
    ensures
        json_view(r) == sourced_json(json_view(value), source),
{
    let mut f: Vec<(String, JsonDoc)> = Vec::new();
    let ghost v = json_view(value);
    push_field(&mut f, "value", value);
    push_field(&mut f, "source", json_str(source.label()));
    assert(json_fields(f@) =~= seq![("value"@, v), ("source"@, Json::Str(source_label(source)))]);
    JsonDoc::Obj(f)
}

/// The JSON provenance report.
pub fn provenance_json(resolved: &ResolvedConfig) -> (r: JsonDoc)
    ensures
        json_view(r) == provenance_doc(*resolved),
{
    let mut inner: Vec<(String, JsonDoc)> = Vec::new();
    push_field(&mut inner, "base_branch", sourced_doc(json_str(resolved.base_branch.value.as_str()), resolved.base_branch.source));
    push_field(&mut inner, "branch_template", sourced_doc(json_str(resolved.branch_template.value.as_str()), resolved.branch_template.source));
    let policy = resolved.unmatched_files.value.to_string();
    push_field(&mut inner, "unmatched_files", sourced_doc(json_str(policy.as_str()), resolved.unmatched_files.source));
    push_field(&mut inner, "default_commit_type", sourced_doc(opt_doc(&resolved.default_commit_type.value), resolved.default_commit_type.source));
    let mut f: Vec<(String, JsonDoc)> = Vec::new();
    let ghost iv = json_fields(inner@);
    push_field(&mut f, "config", JsonDoc::Obj(inner));
    assert(json_fields(f@) =~= seq![("config"@, Json::Obj(iv))]);
    assert(iv =~= seq![
        ("base_branch"@, sourced_json(Json::Str(resolved.base_branch.value@), resolved.base_branch.source)),
        ("branch_template"@, sourced_json(Json::Str(resolved.branch_template.value@), resolved.branch_template.source)),
        ("unmatched_files"@, sourced_json(Json::Str(policy_word(resolved.unmatched_files.value)), resolved.unmatched_files.source)),
        ("default_commit_type"@, sourced_json(opt_json(opt_view(resolved.default_commit_type.value)), resolved.default_commit_type.source)),
    ]);
    JsonDoc::Obj(f)
}

/// A component as JSON: name, globs, commit type and branch override (`null` if unset).
pub open spec fn component_json(c: ComponentView) -> Json {
    Json::Obj(
        seq![
            ("name"@, Json::Str(c.name)),
            ("globs"@, Json::Arr(c.globs.map_values(|g: Seq<char>| Json::Str(g)))),
            ("commit_type"@, opt_json(c.commit_type)),
            ("branch"@, opt_json(c.branch)),
        ],
    )
}

/// A configuration as JSON: its settings and its components, in order.
pub open spec fn config_doc(c: ConfigView) -> Json {
    Json::Obj(
        seq![
            (
                "settings"@,
                Json::Obj(
                    seq![
                        ("base_branch"@, Json::Str(c.settings.base_branch)),
                        ("branch_template"@, Json::Str(c.settings.branch_template)),
                        ("unmatched_files"@, Json::Str(policy_word(c.settings.unmatched_files))),
                        ("default_commit_type"@, opt_json(c.settings.default_commit_type)),
                    ],
                ),
            ),
            ("components"@, Json::Arr(c.components.map_values(|x: ComponentView| component_json(x)))),
        ],
    )
}

fn component_doc(c: &Component) -> (r: JsonDoc)
    ensures
        json_view(r) == component_json(c@),
{
    let mut f: Vec<(String, JsonDoc)> = Vec::new();
    push_field(&mut f, "name", json_str(c.name.as_str()));
    let globs = json_strings(&c.globs);
    assert(str_items(c.globs@) =~= c@.globs.map_values(|g: Seq<char>| Json::Str(g)));
    push_field(&mut f, "globs", globs);
    push_field(&mut f, "commit_type", opt_doc(&c.commit_type));
    push_field(&mut f, "branch", opt_doc(&c.branch));
    assert(json_fields(f@) =~= seq![
        ("name"@, Json::Str(c@.name)),
        ("globs"@, Json::Arr(c@.globs.map_values(|g: Seq<char>| Json::Str(g)))),
        ("commit_type"@, opt_json(c@.commit_type)),
        ("branch"@, opt_json(c@.branch)),
    ]);
    JsonDoc::Obj(f)
}

/// A configuration as JSON.
pub fn config_json(config: &Config) -> (r: JsonDoc)
    ensures
        json_view(r) == config_doc(config@),
{
    let mut s: Vec<(String, JsonDoc)> = Vec::new();
    push_field(&mut s, "base_branch", json_str(config.settings.base_branch.as_str()));
    push_field(&mut s, "branch_template", json_str(config.settings.branch_template.as_str()));
    let policy = config.settings.unmatched_files.to_string();
    push_field(&mut s, "unmatched_files", json_str(policy.as_str()));
    push_field(&mut s, "default_commit_type", opt_doc(&config.settings.default_commit_type));
    let ghost sv = json_fields(s@);
    let cs = &config.components;
    let ghost cv = config@.components;
    let mut items: Vec<JsonDoc> = Vec::new();
    let mut i: usize = 0;
    assert(json_list(items@) =~= cv.take(0).map_values(|x: ComponentView| component_json(x)));
    while i < cs.len()
        invariant
            i <= cs@.len(),
            cv == components_view(cs@),
            json_list(items@) == cv.take(i as int).map_values(|x: ComponentView| component_json(x)),
        decreases cs@.len() - i,
    {
        push_item(&mut items, component_doc(&cs[i]));
        assert(cv[i as int] == cs@[i as int]@);
        assert(cv.take(i + 1).map_values(|x: ComponentView| component_json(x)) =~= cv.take(
            i as int,
        ).map_values(|x: ComponentView| component_json(x)).push(component_json(cv[i as int])));
        i = i + 1;
    }
    assert(cv.take(i as int) =~= cv);
    let mut f: Vec<(String, JsonDoc)> = Vec::new();
    push_field(&mut f, "settings", JsonDoc::Obj(s));
    push_field(&mut f, "components", JsonDoc::Arr(items));
    assert(sv =~= seq![
        ("base_branch"@, Json::Str(config@.settings.base_branch)),
        ("branch_template"@, Json::Str(config@.settings.branch_template)),
        ("unmatched_files"@, Json::Str(policy_word(config@.settings.unmatched_files))),
        ("default_commit_type"@, opt_json(config@.settings.default_commit_type)),
    ]);
    assert(json_fields(f@) =~= seq![
        ("settings"@, Json::Obj(sv)),
        ("components"@, Json::Arr(cv.map_values(|x: ComponentView| component_json(x)))),
    ]);
    JsonDoc::Obj(f)
}

/// A ref edit as previewed: the ref, its component and whether it is created or updated.
pub open spec fn edit_json(e: PlannedRefEdit) -> Json {
    Json::Obj(
        seq![
            ("ref"@, Json::Str(e.ref_name@)),
            ("component"@, Json::Str(e.component@)),
            ("action"@, Json::Str(if e.created { "create"@ } else { "update"@ })),
        ],
    )
}

/// The JSON preview of an effect in a dry run: its kind, the dry-run flag, and what it
/// would do (the refs, the push, or the file with its content, given structured when it
/// has a structured form).
pub open spec fn effect_doc(e: Effect) -> Json {
    match e {
        Effect::RefTransaction { edits, .. } => Json::Obj(
            seq![
                ("effect"@, Json::Str("ref_transaction"@)),
                ("dry_run"@, Json::Bool(true)),
                ("refs"@, Json::Arr(edits@.map_values(|x: PlannedRefEdit| edit_json(x)))),
            ],
        ),
        Effect::Push { remote, branches } => Json::Obj(
            seq![
                ("effect"@, Json::Str("push"@)),
                ("dry_run"@, Json::Bool(true)),
                ("remote"@, Json::Str(remote@)),
                ("branches"@, Json::Arr(str_items(branches@))),
            ],
        ),
        Effect::WriteFile { path, content, structured } => Json::Obj(
            seq![
                ("effect"@, Json::Str("write_file"@)),
                ("dry_run"@, Json::Bool(true)),
                ("path"@, Json::Str(path@)),
                (
                    "content"@,
                    match structured {
                        Some(d) => json_view(d),
                        None => Json::Str(content@),
                    },
                ),
            ],
        ),
    }
}

fn copy_doc(d: &JsonDoc) -> (r: JsonDoc)
    ensures
        json_view(r) == json_view(*d),
    decreases *d,
{
    match d {
        JsonDoc::Null => JsonDoc::Null,
        JsonDoc::Bool(b) => JsonDoc::Bool(*b),
        JsonDoc::Num(n) => JsonDoc::Num(*n),
        JsonDoc::Str(s) => JsonDoc::Str(s.clone()),
        JsonDoc::Arr(v) => {
            let mut items: Vec<JsonDoc> = Vec::new();
            let mut i: usize = 0;
            assert(json_list(items@) =~= json_list(v@.take(0)));
            proof {
                assert(decreases_to!(*d => v));
                assert(decreases_to!(v => v@));
                assert forall|k: int| 0 <= k < v@.len() implies decreases_to!(*d => #[trigger] v@[k]) by {
                    assert(decreases_to!(v@ => v@[k]));
                }
            }
            while i < v.len()
                invariant
                    i <= v@.len(),
                    json_list(items@) == json_list(v@.take(i as int)),
                    forall|k: int| 0 <= k < v@.len() ==> decreases_to!(*d => #[trigger] v@[k]),
                decreases v@.len() - i,
            {
                let x = copy_doc(&v[i]);
                push_item(&mut items, x);
                assert(v@.take(i + 1).drop_last() =~= v@.take(i as int));
                i = i + 1;
            }
            assert(v@.take(i as int) =~= v@);
            JsonDoc::Arr(items)
        },
        JsonDoc::Obj(v) => {
            let mut f: Vec<(String, JsonDoc)> = Vec::new();
            let mut i: usize = 0;
            assert(json_fields(f@) =~= json_fields(v@.take(0)));
            proof {
                assert(decreases_to!(*d => v));
                assert(decreases_to!(v => v@));
                assert forall|k: int| 0 <= k < v@.len() implies decreases_to!(*d => #[trigger] v@[k].1) by {
                    assert(decreases_to!(v@ => v@[k]));
                    assert(decreases_to!(v@[k] => v@[k].1));
                }
            }
            while i < v.len()
                invariant
                    i <= v@.len(),
                    json_fields(f@) == json_fields(v@.take(i as int)),
                    forall|k: int| 0 <= k < v@.len() ==> decreases_to!(*d => #[trigger] v@[k].1),
                decreases v@.len() - i,
            {
                let x = copy_doc(&v[i].1);
                push_field(&mut f, v[i].0.as_str(), x);
                assert(v@.take(i + 1).drop_last() =~= v@.take(i as int));
                i = i + 1;
            }
            assert(v@.take(i as int) =~= v@);
            JsonDoc::Obj(f)
        },
    }
}

/// The JSON preview of an effect.
pub fn effect_preview_json(effect: &Effect) -> (r: JsonDoc)
    ensures
        json_view(r) == effect_doc(*effect),
{
    let mut f: Vec<(String, JsonDoc)> = Vec::new();
    match effect {
        Effect::RefTransaction { edits, .. } => {
            push_field(&mut f, "effect", json_str("ref_transaction"));
            push_field(&mut f, "dry_run", JsonDoc::Bool(true));
            let mut items: Vec<JsonDoc> = Vec::new();
            let mut i: usize = 0;
            assert(json_list(items@) =~= edits@.take(0).map_values(|x: PlannedRefEdit| edit_json(x)));
            while i < edits.len()
                invariant
                    i <= edits@.len(),
                    json_list(items@) == edits@.take(i as int).map_values(|x: PlannedRefEdit| edit_json(x)),
                decreases edits@.len() - i,
            {
                let e = &edits[i];
                let mut g: Vec<(String, JsonDoc)> = Vec::new();
                push_field(&mut g, "ref", json_str(e.ref_name.as_str()));
                push_field(&mut g, "component", json_str(e.component.as_str()));
                push_field(&mut g, "action", json_str(if e.created { "create" } else { "update" }));
                assert(json_fields(g@) =~= seq![
                    ("ref"@, Json::Str(e.ref_name@)),
                    ("component"@, Json::Str(e.component@)),
                    ("action"@, Json::Str(if e.created { "create"@ } else { "update"@ })),
                ]);
                push_item(&mut items, JsonDoc::Obj(g));
                assert(edits@.take(i + 1).map_values(|x: PlannedRefEdit| edit_json(x)) =~= edits@.take(
                    i as int,
                ).map_values(|x: PlannedRefEdit| edit_json(x)).push(edit_json(edits@[i as int])));
                i = i + 1;
            }
            assert(edits@.take(i as int) =~= edits@);
            push_field(&mut f, "refs", JsonDoc::Arr(items));
        },
        Effect::Push { remote, branches } => {
            push_field(&mut f, "effect", json_str("push"));
            push_field(&mut f, "dry_run", JsonDoc::Bool(true));
            push_field(&mut f, "remote", json_str(remote.as_str()));
            push_field(&mut f, "branches", json_strings(branches));
        },
        Effect::WriteFile { path, content, structured } => {
            push_field(&mut f, "effect", json_str("write_file"));
            push_field(&mut f, "dry_run", JsonDoc::Bool(true));
            push_field(&mut f, "path", json_str(path.as_str()));
            let c = match structured {
                Some(d) => copy_doc(d),
                None => json_str(content.as_str()),
            };
            push_field(&mut f, "content", c);
        },
    }
    assert(json_fields(f@) =~= match effect_doc(*effect) {
        Json::Obj(fs) => fs,
        _ => seq![],
    });
    JsonDoc::Obj(f)
}

/// A one-field object with a string value.
pub open spec fn single_json(key: Seq<char>, value: Seq<char>) -> Json {
    Json::Obj(seq![(key, Json::Str(value))])
}

/// A one-field object with a string value.
pub fn single_field(key: &str, value: &str) -> (r: JsonDoc)
    ensures
        json_view(r) == single_json(key@, value@),
{
    let mut f: Vec<(String, JsonDoc)> = Vec::new();
    push_field(&mut f, key, json_str(value));
    assert(json_fields(f@) =~= seq![(key@, Json::Str(value@))]);
    JsonDoc::Obj(f)
}

} // verus!
