//! What each command prints, and where: the lines of human-readable output, or, in JSON
//! mode, that a JSON document is due, or nothing at all when quiet.
use vstd::prelude::*;
use vstd::utf8::encode_utf8;
use crate::cli::layout::{
    abbreviate_id, decimal, decimal_string, pad_right, padded, short_id, split_lines,
    text_lines, lines_view, utf8_len_below,
};
use crate::cli::paint::{
    bold, cyan, dimmed, green, paint_bold, paint_cyan, paint_dimmed, paint_green, paint_red,
    paint_yellow, red, yellow,
};
use crate::cli::documents::{
    commit_results_doc, commit_results_json, effect_doc, effect_preview_json, provenance_doc,
    provenance_json, single_field, single_json, status_json, status_row_doc,
};
use crate::cli::json::{Json, JsonDoc, json_fields, json_list, json_str, json_view, push_field, push_item};
use crate::config::layered::{ConfigWarning, ResolvedConfig, warnings_view};
use crate::config::source::{ConfigSource, source_label};
use crate::config::types::policy_word;
use crate::domain::effect::{Effect, PlannedRefEdit};
use crate::domain::error::{Error, ErrorView, error_message};
use crate::domain::text::concat_str;
use crate::git::atomize::{AtomicResult, branch_display, spec_branch_display};
use crate::git::branch::{BranchState, BranchStateView};

verus! {

/// How output is presented.
#[derive(Debug, Clone, Copy, PartialEq, Eq, Structural)]
pub enum OutputMode {
    Human,
    Json,
    Quiet,
}

/// Presents command results in the chosen mode.
pub struct Printer {
    pub mode: OutputMode,
    pub verbosity: u8,
}

/// The stream a line goes to.
#[derive(Debug, Clone, Copy, PartialEq, Eq, Structural)]
pub enum Stream {
    Stdout,
    Stderr,
}

/// One line of output and the stream it goes to.
#[derive(Debug)]
pub struct OutLine {
    pub stream: Stream,
    pub text: String,
}

/// What a command prints.
#[derive(Debug)]
pub enum Rendered {
    /// Nothing (quiet mode).
    Nothing,
    /// These lines, each to its stream.
    Lines(Vec<OutLine>),
    /// A JSON document describing the same data (JSON mode), printed indented when
    /// `pretty`, on one line otherwise.
    Json { doc: JsonDoc, pretty: bool },
}

/// The lines of output, as values.
pub open spec fn out_view(v: Seq<OutLine>) -> Seq<(Stream, Seq<char>)> {
    v.map_values(|l: OutLine| (l.stream, l.text@))
}

/// The value of what is printed.
pub enum RenderedView {
    Nothing,
    Lines(Seq<(Stream, Seq<char>)>),
    Json(Json, bool),
}

impl View for Rendered {
    type V = RenderedView;

    open spec fn view(&self) -> RenderedView {
        match self {
            Rendered::Nothing => RenderedView::Nothing,
            Rendered::Lines(v) => RenderedView::Lines(out_view(v@)),
            Rendered::Json { doc, pretty } => RenderedView::Json(json_view(*doc), *pretty),
        }
    }
}

/// What is printed in each mode, given the human-readable lines and the JSON document.
pub open spec fn by_mode(
    mode: OutputMode,
    human: Seq<(Stream, Seq<char>)>,
    json: Json,
    pretty: bool,
) -> RenderedView {
    match mode {
        OutputMode::Quiet => RenderedView::Nothing,
        OutputMode::Json => RenderedView::Json(json, pretty),
        OutputMode::Human => RenderedView::Lines(human),
    }
}

/// The mode chosen by the flags: JSON wins over quiet, human otherwise.
pub open spec fn mode_for(json: bool, quiet: bool) -> OutputMode {
    if json {
        OutputMode::Json
    } else if quiet {
        OutputMode::Quiet
    } else {
        OutputMode::Human
    }
}

/// A count of files: `1 file`, `2 files`.
pub open spec fn count_note(n: nat, noun: Seq<char>, plural: Seq<char>) -> Seq<char> {
    decimal(n) + " "@ + noun + if n == 1 {
        ""@
    } else {
        plural
    }
}

/// The line reporting one component's commit.
pub open spec fn result_line(r: AtomicResult, dry_run: bool) -> Seq<char> {
    green("✓"@) + " ["@ + cyan(r.component@) + "] "@ + dimmed(short_id(r.commit_id@)) + " → "@
        + bold(r.branch@) + " ("@ + (if dry_run {
        "would "@
    } else {
        ""@
    }) + (if r.created {
        "create"@
    } else {
        "update"@
    }) + ", "@ + count_note(r.files@.len(), "file"@, "s"@) + ")"@
}

/// A file listed under a result, when verbose.
pub open spec fn file_line(f: String) -> (Stream, Seq<char>) {
    (Stream::Stdout, "    "@ + dimmed(f@))
}

/// The lines of one component's commit.
pub open spec fn result_lines(r: AtomicResult, dry_run: bool, verbose: bool) -> Seq<(Stream, Seq<char>)> {
    seq![(Stream::Stdout, result_line(r, dry_run))] + if verbose {
        r.files@.map_values(|f: String| file_line(f))
    } else {
        seq![]
    }
}

/// The lines of all the commits made (or that would be made).
pub open spec fn commit_lines(rs: Seq<AtomicResult>, dry_run: bool, verbose: bool) -> Seq<(Stream, Seq<char>)>
    decreases rs.len(),
{
    if rs.len() == 0 {
        seq![]
    } else {
        commit_lines(rs.drop_last(), dry_run, verbose) + result_lines(rs.last(), dry_run, verbose)
    }
}

/// One row of the status report: a component, its files, its branch and the branch's
/// state.
#[derive(Debug)]
pub struct StatusRow {
    pub component: String,
    pub files: Vec<String>,
    pub state: BranchState,
    pub branch: String,
}

/// The word for a branch state, colored.
pub open spec fn state_word(s: BranchStateView) -> Seq<char> {
    match s {
        BranchStateView::Missing => yellow("missing"@),
        BranchStateView::Current => green("current"@),
        BranchStateView::FastForward(_) => cyan("ahead"@),
        BranchStateView::Behind(_) => yellow("behind"@),
        BranchStateView::Diverged(_) => red("diverged"@),
    }
}

/// The status line of a component.
pub open spec fn status_line(row: StatusRow) -> Seq<char> {
    "  "@ + bold(row.component@) + " "@ + dimmed(row.branch@) + " ("@ + state_word(row.state@)
        + ", "@ + count_note(row.files@.len(), "file"@, "s"@) + ")"@
}

/// The status lines of all components.
pub open spec fn status_lines(rows: Seq<StatusRow>) -> Seq<(Stream, Seq<char>)> {
    rows.map_values(|row: StatusRow| (Stream::Stdout, status_line(row)))
}

/// A setting, its value and where the value came from, in aligned columns.
pub open spec fn setting_line(key: Seq<char>, value: Seq<char>, source: ConfigSource) -> Seq<char> {
    "  "@ + padded(key, 20) + " = "@ + padded(value, 30) + " ("@ + dimmed(source_label(source))
        + ")"@
}

/// The provenance report of the resolved settings.
pub open spec fn provenance_lines(r: ResolvedConfig) -> Seq<(Stream, Seq<char>)> {
    seq![
        (Stream::Stdout, bold("Settings:"@)),
        (Stream::Stdout, setting_line("base_branch"@, r.base_branch.value@, r.base_branch.source)),
        (Stream::Stdout, setting_line("branch_template"@, r.branch_template.value@, r.branch_template.source)),
        (Stream::Stdout, setting_line("unmatched_files"@, policy_word(r.unmatched_files.value), r.unmatched_files.source)),
    ] + match r.default_commit_type.value {
        Some(t) => seq![(Stream::Stdout, setting_line("default_commit_type"@, t@, r.default_commit_type.source))],
        None => seq![],
    } + seq![(Stream::Stdout, ""@)]
}

/// The preview line of a ref edit.
pub open spec fn edit_line(e: PlannedRefEdit) -> (Stream, Seq<char>) {
    (
        Stream::Stdout,
        "  "@ + dimmed("▸"@) + " would "@ + (if e.created {
            "create"@
        } else {
            "update"@
        }) + " branch "@ + bold(spec_branch_display(e.ref_name@)),
    )
}

/// A line of a file's content, in a preview.
pub open spec fn content_line(l: Seq<char>) -> (Stream, Seq<char>) {
    (Stream::Stdout, "    "@ + dimmed(l))
}

/// The preview of an effect: the ref edits it would make, the push it would run, or the
/// file it would create (with the content, when verbose or under 4096 bytes).
pub open spec fn preview_lines(e: Effect, verbose: bool) -> Seq<(Stream, Seq<char>)> {
    match e {
        Effect::RefTransaction { edits, .. } => edits@.map_values(|x: PlannedRefEdit| edit_line(x)),
        Effect::Push { remote, branches } => seq![
            (
                Stream::Stdout,
                "  "@ + dimmed("▸"@) + " would push "@ + count_note(branches@.len(), "branch"@, "es"@)
                    + " to "@ + bold(remote@),
            ),
        ],
        Effect::WriteFile { path, content, .. } => seq![
            (Stream::Stdout, "  "@ + dimmed("▸"@) + " would create "@ + bold(path@)),
        ] + if verbose || encode_utf8(content@).len() < 4096 {
            seq![(Stream::Stdout, ""@)] + text_lines(content@).map_values(
                |l: Seq<char>| content_line(l),
            )
        } else {
            seq![]
        },
    }
}

/// What reports a valid configuration and its warnings: in JSON mode a fixed object
/// when there is no warning, otherwise an object with the warnings; for people a check
/// mark and a sentence, then a line per warning; nothing when quiet.
pub open spec fn validate_ok_view(mode: OutputMode, warnings: Seq<Seq<char>>) -> RenderedView {
    match mode {
        OutputMode::Json => if warnings.len() == 0 {
            RenderedView::Lines(seq![(Stream::Stdout, "{\"valid\": true}"@)])
        } else {
            RenderedView::Json(
                Json::Obj(
                    seq![
                        ("valid"@, Json::Bool(true)),
                        ("warnings"@, Json::Arr(warnings.map_values(|w: Seq<char>| Json::Str(w)))),
                    ],
                ),
                false,
            )
        },
        OutputMode::Quiet => RenderedView::Nothing,
        OutputMode::Human => RenderedView::Lines(
            seq![(Stream::Stdout, green("✓"@) + " configuration is valid"@)] + warnings.map_values(
                |w: Seq<char>| warning_line(w),
            ),
        ),
    }
}

/// A warning line, on the error stream.
pub open spec fn warning_line(message: Seq<char>) -> (Stream, Seq<char>) {
    (Stream::Stderr, yellow("⚠"@) + " "@ + message)
}

/// The line reporting an error, on the error stream.
pub open spec fn error_lines(e: ErrorView) -> Seq<(Stream, Seq<char>)> {
    seq![(Stream::Stderr, red("✗"@) + " "@ + error_message(e))]
}

/// What reports an error: in JSON mode a one-line object holding the message (and,
/// for a configuration found invalid by `validate`, `"valid": false` before it),
/// otherwise the error line, quiet mode included (it silences everything but errors).
pub open spec fn error_view(mode: OutputMode, e: ErrorView, validating: bool) -> RenderedView {
    match mode {
        OutputMode::Json => RenderedView::Json(error_doc(error_message(e), validating), false),
        _ => RenderedView::Lines(error_lines(e)),
    }
}

/// The JSON object reporting an error.
pub open spec fn error_doc(message: Seq<char>, validating: bool) -> Json {
    if validating {
        Json::Obj(seq![("valid"@, Json::Bool(false)), ("error"@, Json::Str(message))])
    } else {
        single_json("error"@, message)
    }
}

fn push_line(lines: &mut Vec<OutLine>, stream: Stream, text: String)
    ensures
        out_view(final(lines)@) == out_view(old(lines)@).push((stream, text@)),
{
    let ghost before = lines@;
    let ghost t = text@;
    lines.push(OutLine { stream, text });
    assert(out_view(lines@) =~= out_view(before).push((stream, t)));
}

fn files_note(n: usize, noun: &str, plural: &str) -> (r: String)
    ensures
        r@ == count_note(n as nat, noun@, plural@),
{
    let r = decimal_string(n).concat(" ").concat(noun);
    if n == 1 {
        let r2 = r.concat("");
        r2
    } else {
        r.concat(plural)
    }
}

impl Printer {
    /// A printer for the given flags.
    pub fn new(json: bool, quiet: bool, verbosity: u8) -> (r: Self)
        ensures
            r.mode == mode_for(json, quiet),
            r.verbosity == verbosity,
    {
        let mode = if json {
            OutputMode::Json
        } else if quiet {
            OutputMode::Quiet
        } else {
            OutputMode::Human
        };
        Self { mode, verbosity }
    }

    fn one_line(&self, stream: Stream, text: String, doc: JsonDoc, pretty: bool) -> (r: Rendered)
        ensures
            r@ == by_mode(self.mode, seq![(stream, text@)], json_view(doc), pretty),
    {
        match self.mode {
            OutputMode::Quiet => Rendered::Nothing,
            OutputMode::Json => Rendered::Json { doc, pretty },
            OutputMode::Human => {
                let mut v: Vec<OutLine> = Vec::new();
                push_line(&mut v, stream, text);
                assert(out_view(v@) =~= seq![(stream, text@)]);
                Rendered::Lines(v)
            },
        }
    }

    /// The report of the commits made (or, in a dry run, that would be made): a line per
    /// component, followed by its files when verbose.
    pub fn print_commit_results(&self, results: &Vec<AtomicResult>, dry_run: bool) -> (r:
        Rendered)
        ensures
            r@ == by_mode(
                self.mode,
                commit_lines(results@, dry_run, self.verbosity > 0),
                commit_results_doc(results@, dry_run),
                true,
            ),
    {
        match self.mode {
            OutputMode::Quiet => {
                return Rendered::Nothing;
            },
            OutputMode::Json => {
                return Rendered::Json { doc: commit_results_json(results, dry_run), pretty: true };
            },
            OutputMode::Human => {},
        }
        let verbose = self.verbosity > 0;
        let mut lines: Vec<OutLine> = Vec::new();
        let mut i: usize = 0;
        assert(out_view(lines@) =~= commit_lines(results@.take(0), dry_run, verbose));
        while i < results.len()
            invariant
                i <= results@.len(),
                out_view(lines@) == commit_lines(results@.take(i as int), dry_run, verbose),
            decreases results@.len() - i,
        {
            let r = &results[i];
            let ghost start = out_view(lines@);
            let short = abbreviate_id(r.commit_id.as_str());
            let text = paint_green("✓").concat(" [").concat(paint_cyan(r.component.as_str()).as_str());
            let text = text.concat("] ").concat(paint_dimmed(short.as_str()).as_str()).concat(" → ");
            let text = text.concat(paint_bold(r.branch.as_str()).as_str()).concat(" (");
            let text = if dry_run { text.concat("would ") } else { text.concat("") };
            let text = if r.created { text.concat("create") } else { text.concat("update") };
            let text = text.concat(", ").concat(files_note(r.files.len(), "file", "s").as_str());
            let text = text.concat(")");
            assert(text@ == result_line(*r, dry_run));
            push_line(&mut lines, Stream::Stdout, text);
            if verbose {
                let mut j: usize = 0;
                while j < r.files.len()
                    invariant
                        j <= r.files@.len(),
                        out_view(lines@) == start.push((Stream::Stdout, result_line(*r, dry_run)))
                            + r.files@.take(j as int).map_values(|f: String| file_line(f)),
                    decreases r.files@.len() - j,
                {
                    let ghost prev = out_view(lines@);
                    let t = concat_str("    ", paint_dimmed(r.files[j].as_str()).as_str());
                    push_line(&mut lines, Stream::Stdout, t);
                    assert(r.files@.take(j + 1).map_values(|f: String| file_line(f))
                        =~= r.files@.take(j as int).map_values(|f: String| file_line(f)).push(
                        file_line(r.files@[j as int]),
                    ));
                    j = j + 1;
                }
                assert(r.files@.take(j as int) =~= r.files@);
            }
            proof {
                assert(results@.take(i + 1).drop_last() =~= results@.take(i as int));
                assert(results@.take(i + 1).last() == results@[i as int]);
                if verbose {
                    assert(out_view(lines@) =~= start + result_lines(*r, dry_run, verbose));
                } else {
                    assert(out_view(lines@) =~= start + result_lines(*r, dry_run, verbose));
                }
            }
            i = i + 1;
        }
        assert(results@.take(i as int) =~= results@);
        Rendered::Lines(lines)
    }

    /// The status report: a line per component with its branch, the branch's state and
    /// its number of files.
    pub fn print_status(&self, rows: &Vec<StatusRow>) -> (r: Rendered)
        ensures
            r@ == by_mode(
                self.mode,
                status_lines(rows@),
                Json::Arr(rows@.map_values(|row: StatusRow| status_row_doc(row))),
                true,
            ),
    {
        match self.mode {
            OutputMode::Quiet => {
                return Rendered::Nothing;
            },
            OutputMode::Json => {
                return Rendered::Json { doc: status_json(rows), pretty: true };
            },
            OutputMode::Human => {},
        }
        let mut lines: Vec<OutLine> = Vec::new();
        let mut i: usize = 0;
        assert(out_view(lines@) =~= status_lines(rows@.take(0)));
        while i < rows.len()
            invariant
                i <= rows@.len(),
                out_view(lines@) == status_lines(rows@.take(i as int)),
            decreases rows@.len() - i,
        {
            let row = &rows[i];
            let state = match &row.state {
                BranchState::Missing => paint_yellow("missing"),
                BranchState::Current => paint_green("current"),
                BranchState::FastForward { .. } => paint_cyan("ahead"),
                BranchState::Behind { .. } => paint_yellow("behind"),
                BranchState::Diverged { .. } => paint_red("diverged"),
            };
            let text = concat_str("  ", paint_bold(row.component.as_str()).as_str()).concat(" ");
            let text = text.concat(paint_dimmed(row.branch.as_str()).as_str()).concat(" (");
            let text = text.concat(state.as_str()).concat(", ");
            let text = text.concat(files_note(row.files.len(), "file", "s").as_str()).concat(")");
            assert(text@ == status_line(*row));
            push_line(&mut lines, Stream::Stdout, text);
            assert(status_lines(rows@.take(i + 1)) =~= status_lines(rows@.take(i as int)).push(
                (Stream::Stdout, status_line(rows@[i as int])),
            ));
            i = i + 1;
        }
        assert(rows@.take(i as int) =~= rows@);
        Rendered::Lines(lines)
    }

    /// The report that the configuration is valid, with its warnings.
    pub fn print_validate_ok(&self, warnings: &Vec<ConfigWarning>) -> (r: Rendered)
        ensures
            r@ == validate_ok_view(self.mode, warnings_view(warnings@)),
    {
        let ghost ws = warnings_view(warnings@);
        match self.mode {
            OutputMode::Quiet => Rendered::Nothing,
            OutputMode::Json => {
                if warnings.len() == 0 {
                    let mut v: Vec<OutLine> = Vec::new();
                    push_line(&mut v, Stream::Stdout, "{\"valid\": true}".to_string());
                    assert(out_view(v@) =~= seq![(Stream::Stdout, "{\"valid\": true}"@)]);
                    assert(ws.len() == 0);
                    let r = Rendered::Lines(v);
                    assert(r@ == validate_ok_view(self.mode, ws));
                    r
                } else {
                    let mut items: Vec<JsonDoc> = Vec::new();
                    let mut i: usize = 0;
                    assert(json_list(items@) =~= ws.take(0).map_values(|w: Seq<char>| Json::Str(w)));
                    while i < warnings.len()
                        invariant
                            i <= warnings@.len(),
                            ws == warnings_view(warnings@),
                            json_list(items@) == ws.take(i as int).map_values(|w: Seq<char>| Json::Str(w)),
                        decreases warnings@.len() - i,
                    {
                        push_item(&mut items, json_str(warnings[i].message.as_str()));
                        assert(ws.take(i + 1).map_values(|w: Seq<char>| Json::Str(w)) =~= ws.take(
                            i as int,
                        ).map_values(|w: Seq<char>| Json::Str(w)).push(Json::Str(ws[i as int])));
                        i = i + 1;
                    }
                    assert(ws.take(i as int) =~= ws);
                    let mut f: Vec<(String, JsonDoc)> = Vec::new();
                    push_field(&mut f, "valid", JsonDoc::Bool(true));
                    push_field(&mut f, "warnings", JsonDoc::Arr(items));
                    assert(json_fields(f@) =~= seq![
                        ("valid"@, Json::Bool(true)),
                        ("warnings"@, Json::Arr(ws.map_values(|w: Seq<char>| Json::Str(w)))),
                    ]);
                    let r = Rendered::Json { doc: JsonDoc::Obj(f), pretty: false };
                    assert(r@ == validate_ok_view(self.mode, ws));
                    r
                }
            },
            OutputMode::Human => {
                let mut v: Vec<OutLine> = Vec::new();
                assert(out_view(v@) =~= Seq::<(Stream, Seq<char>)>::empty());
                push_line(&mut v, Stream::Stdout, paint_green("✓").concat(" configuration is valid"));
                let ghost head = out_view(v@);
                let mut i: usize = 0;
                assert(out_view(v@) =~= head + ws.take(0).map_values(|w: Seq<char>| warning_line(w)));
                while i < warnings.len()
                    invariant
                        i <= warnings@.len(),
                        ws == warnings_view(warnings@),
                        out_view(v@) == head + ws.take(i as int).map_values(|w: Seq<char>| warning_line(w)),
                    decreases warnings@.len() - i,
                {
                    let t = paint_yellow("⚠").concat(" ").concat(warnings[i].message.as_str());
                    push_line(&mut v, Stream::Stderr, t);
                    assert(ws.take(i + 1).map_values(|w: Seq<char>| warning_line(w)) =~= ws.take(
                        i as int,
                    ).map_values(|w: Seq<char>| warning_line(w)).push(warning_line(ws[i as int])));
                    i = i + 1;
                }
                assert(ws.take(i as int) =~= ws);
                assert(head =~= seq![(Stream::Stdout, green("✓"@) + " configuration is valid"@)]);
                let r = Rendered::Lines(v);
                assert(r@ == validate_ok_view(self.mode, ws));
                r
            },
        }
    }

    /// The report that a configuration file was created.
    pub fn print_init(&self, path: &str) -> (r: Rendered)
        ensures
            r@ == by_mode(
                self.mode,
                seq![(Stream::Stdout, green("✓"@) + " created "@ + path@)],
                single_json("created"@, path@),
                false,
            ),
    {
        self.one_line(
            Stream::Stdout,
            paint_green("✓").concat(" created ").concat(path),
            single_field("created", path),
            false,
        )
    }

    /// The report of an error, on the error stream (shown in quiet mode too).
    pub fn print_error(&self, err: &Error) -> (r: Rendered)
        ensures
            r@ == error_view(self.mode, err@, false),
    {
        self.error_line(err, false)
    }

    /// The report that the configuration is invalid, on the error stream (shown in quiet
    /// mode too).
    pub fn print_validate_error(&self, err: &Error) -> (r: Rendered)
        ensures
            r@ == error_view(self.mode, err@, true),
    {
        self.error_line(err, true)
    }

    fn error_line(&self, err: &Error, validating: bool) -> (r: Rendered)
        ensures
            r@ == error_view(self.mode, err@, validating),
    {
        match self.mode {
            OutputMode::Json => {
                let m = err.message();
                let doc = if validating {
                    let mut f: Vec<(String, JsonDoc)> = Vec::new();
                    push_field(&mut f, "valid", JsonDoc::Bool(false));
                    push_field(&mut f, "error", json_str(m.as_str()));
                    assert(json_fields(f@) =~= seq![
                        ("valid"@, Json::Bool(false)),
                        ("error"@, Json::Str(m@)),
                    ]);
                    JsonDoc::Obj(f)
                } else {
                    single_field("error", m.as_str())
                };
                Rendered::Json { doc, pretty: false }
            },
            _ => {
                let text = paint_red("✗").concat(" ").concat(err.message().as_str());
                let mut v: Vec<OutLine> = Vec::new();
                push_line(&mut v, Stream::Stderr, text);
                assert(out_view(v@) =~= error_lines(err@));
                Rendered::Lines(v)
            },
        }
    }

    /// The report of a configuration warning, on the error stream.
    pub fn print_config_warning(&self, warning: &ConfigWarning) -> (r: Rendered)
        ensures
            r@ == by_mode(
                self.mode,
                seq![warning_line(warning.message@)],
                single_json("warning"@, warning.message@),
                false,
            ),
    {
        self.one_line(
            Stream::Stderr,
            paint_yellow("⚠").concat(" ").concat(warning.message.as_str()),
            single_field("warning", warning.message.as_str()),
            false,
        )
    }

    /// The report of where each setting's value came from.
    pub fn print_config_provenance(&self, resolved: &ResolvedConfig) -> (r: Rendered)
        ensures
            r@ == by_mode(self.mode, provenance_lines(*resolved), provenance_doc(*resolved), true),
    {
        match self.mode {
            OutputMode::Quiet => {
                return Rendered::Nothing;
            },
            OutputMode::Json => {
                return Rendered::Json { doc: provenance_json(resolved), pretty: true };
            },
            OutputMode::Human => {},
        }
        let mut lines: Vec<OutLine> = Vec::new();
        push_line(&mut lines, Stream::Stdout, paint_bold("Settings:"));
        push_line(
            &mut lines,
            Stream::Stdout,
            setting(
                "base_branch",
                resolved.base_branch.value.as_str(),
                resolved.base_branch.source,
            ),
        );
        push_line(
            &mut lines,
            Stream::Stdout,
            setting(
                "branch_template",
                resolved.branch_template.value.as_str(),
                resolved.branch_template.source,
            ),
        );
        let policy = resolved.unmatched_files.value.to_string();
        push_line(
            &mut lines,
            Stream::Stdout,
            setting("unmatched_files", policy.as_str(), resolved.unmatched_files.source),
        );
        match &resolved.default_commit_type.value {
            Some(t) => {
                push_line(
                    &mut lines,
                    Stream::Stdout,
                    setting("default_commit_type", t.as_str(), resolved.default_commit_type.source),
                );
            },
            None => {},
        }
        let ghost mid = out_view(lines@);
        push_line(&mut lines, Stream::Stdout, String::new());
        proof {
            reveal_strlit("");
            assert(""@ =~= Seq::<char>::empty());
            assert(out_view(lines@) == mid.push((Stream::Stdout, ""@)));
            assert(mid.len() >= 4);
            assert(mid[0] == (Stream::Stdout, bold("Settings:"@)));
            assert(mid[1] == provenance_lines(*resolved)[1]);
            assert(mid[2] == provenance_lines(*resolved)[2]);
            assert(mid[3] == provenance_lines(*resolved)[3]);
        }
        assert(out_view(lines@) =~= provenance_lines(*resolved));
        Rendered::Lines(lines)
    }

    /// The preview of an effect, in a dry run.
    pub fn print_effect_preview(&self, effect: &Effect) -> (r: Rendered)
        ensures
            r@ == by_mode(
                self.mode,
                preview_lines(*effect, self.verbosity > 0),
                effect_doc(*effect),
                true,
            ),
    {
        match self.mode {
            OutputMode::Quiet => {
                return Rendered::Nothing;
            },
            OutputMode::Json => {
                return Rendered::Json { doc: effect_preview_json(effect), pretty: true };
            },
            OutputMode::Human => {},
        }
        let mut lines: Vec<OutLine> = Vec::new();
        let marker = concat_str("  ", paint_dimmed("▸").as_str());
        match effect {
            Effect::RefTransaction { edits, .. } => {
                let mut i: usize = 0;
                assert(out_view(lines@) =~= edits@.take(0).map_values(|x: PlannedRefEdit| edit_line(x)));
                while i < edits.len()
                    invariant
                        i <= edits@.len(),
                        marker@ == "  "@ + dimmed("▸"@),
                        out_view(lines@) == edits@.take(i as int).map_values(
                            |x: PlannedRefEdit| edit_line(x),
                        ),
                    decreases edits@.len() - i,
                {
                    let e = &edits[i];
                    let action = if e.created {
                        "create"
                    } else {
                        "update"
                    };
                    let shown = branch_display(e.ref_name.as_str());
                    let text = marker.clone().concat(" would ").concat(action).concat(" branch ");
                    let text = text.concat(paint_bold(shown.as_str()).as_str());
                    assert((Stream::Stdout, text@) == edit_line(*e));
                    push_line(&mut lines, Stream::Stdout, text);
                    assert(edits@.take(i + 1).map_values(|x: PlannedRefEdit| edit_line(x))
                        =~= edits@.take(i as int).map_values(|x: PlannedRefEdit| edit_line(x)).push(
                        edit_line(edits@[i as int]),
                    ));
                    i = i + 1;
                }
                assert(edits@.take(i as int) =~= edits@);
            },
            Effect::Push { remote, branches } => {
                let text = marker.clone().concat(" would push ");
                let text = text.concat(files_note(branches.len(), "branch", "es").as_str());
                let text = text.concat(" to ").concat(paint_bold(remote.as_str()).as_str());
                push_line(&mut lines, Stream::Stdout, text);
                assert(out_view(lines@) =~= preview_lines(*effect, self.verbosity > 0));
            },
            Effect::WriteFile { path, content, .. } => {
                let text = marker.clone().concat(" would create ");
                let text = text.concat(paint_bold(path.as_str()).as_str());
                push_line(&mut lines, Stream::Stdout, text);
                let ghost head = out_view(lines@);
                if self.verbosity > 0 || utf8_len_below(content.as_str(), 4096) {
                    push_line(&mut lines, Stream::Stdout, String::new());
                    proof {
                        reveal_strlit("");
                        assert(""@ =~= Seq::<char>::empty());
                    }
                    let body = split_lines(content.as_str());
                    let ghost ls = text_lines(content@);
                    let mut i: usize = 0;
                    assert(out_view(lines@) =~= head + seq![(Stream::Stdout, ""@)]
                        + ls.take(0).map_values(|l: Seq<char>| content_line(l)));
                    while i < body.len()
                        invariant
                            i <= body@.len(),
                            lines_view(body@) == ls,
                            out_view(lines@) == head + seq![(Stream::Stdout, ""@)] + ls.take(
                                i as int,
                            ).map_values(|l: Seq<char>| content_line(l)),
                        decreases body@.len() - i,
                    {
                        assert(body@[i as int]@ == ls[i as int]);
                        let t = concat_str("    ", paint_dimmed(body[i].as_str()).as_str());
                        push_line(&mut lines, Stream::Stdout, t);
                        assert(ls.take(i + 1).map_values(|l: Seq<char>| content_line(l))
                            =~= ls.take(i as int).map_values(|l: Seq<char>| content_line(l)).push(
                            content_line(ls[i as int]),
                        ));
                        i = i + 1;
                    }
                    assert(ls.take(i as int) =~= ls);
                }
                assert(out_view(lines@) =~= preview_lines(*effect, self.verbosity > 0));
            },
        }
        Rendered::Lines(lines)
    }
}

fn setting(key: &str, value: &str, source: ConfigSource) -> (r: String)
    ensures
        r@ == setting_line(key@, value@, source),
{
    let text = concat_str("  ", pad_right(key, 20).as_str()).concat(" = ");
    let text = text.concat(pad_right(value, 30).as_str()).concat(" (");
    text.concat(paint_dimmed(source.label()).as_str()).concat(")")
}

/// The status word tells branch states apart: states of different kinds never get the
/// same word; a branch ahead of the base is shown as `ahead` in cyan, a current one as
/// `current` in green, a missing one as `missing` and a behind one as `behind` in
/// yellow, a diverged one as `diverged` in red.
pub proof fn lemma_state_words_differ(a: BranchStateView, b: BranchStateView)
    ensures
        a matches BranchStateView::FastForward(_) ==> state_word(a) == "\x1b[36mahead\x1b[39m"@,
        a is Current ==> state_word(a) == "\x1b[32mcurrent\x1b[39m"@,
        a is Missing ==> state_word(a) == "\x1b[33mmissing\x1b[39m"@,
        a matches BranchStateView::Behind(_) ==> state_word(a) == "\x1b[33mbehind\x1b[39m"@,
        a matches BranchStateView::Diverged(_) ==> state_word(a) == "\x1b[31mdiverged\x1b[39m"@,
        (a is Missing) != (b is Missing) || (a is Current) != (b is Current) || (a is FastForward)
            != (b is FastForward) || (a is Behind) != (b is Behind) || (a is Diverged) != (
        b is Diverged) ==> state_word(a) != state_word(b),
{
    reveal_strlit("\x1b[32m");
    reveal_strlit("\x1b[31m");
    reveal_strlit("\x1b[33m");
    reveal_strlit("\x1b[36m");
    reveal_strlit("\x1b[39m");
    reveal_strlit("missing");
    reveal_strlit("current");
    reveal_strlit("ahead");
    reveal_strlit("behind");
    reveal_strlit("diverged");
    reveal_strlit("\x1b[36mahead\x1b[39m");
    reveal_strlit("\x1b[32mcurrent\x1b[39m");
    reveal_strlit("\x1b[33mmissing\x1b[39m");
    reveal_strlit("\x1b[33mbehind\x1b[39m");
    reveal_strlit("\x1b[31mdiverged\x1b[39m");
    let wa = state_word(a);
    let wb = state_word(b);
    if wa == wb {
        assert(wa[3] == wb[3] && wa[5] == wb[5]);
    }
}

} // verus!
