//! `init`: write a starter configuration.
use vstd::prelude::*;
use crate::cli::output::{Printer, Rendered, RenderedView, by_mode};
use crate::cli::documents::{config_doc, config_json, single_json};
use crate::cli::json::json_view;
use crate::cli::paint::green;
use crate::config::types::{Config, sample_config_view};
use crate::domain::effect::Effect;
use crate::domain::error::{Error, ErrorView};
use crate::domain::text::concat_str;

verus! {

/// The comment block at the top of a generated configuration.
pub const HEADER: &'static str = "# git-atomic configuration\n# See: https://github.com/aRustyDev/git-atomic\n#\n# Order matters: first matching component wins.\n\n";

/// The effects of `init`: refused when the configuration file exists already, unless
/// forced; otherwise the file is written with the header followed by the sample
/// configuration (`body`, its TOML text), the sample's structure going along as JSON.
pub fn plan(exists: bool, force: bool, path: &str, body: &str) -> (r: Result<Vec<Effect>, Error>)
    ensures
        (exists && !force) ==> (r matches Err(e) && e@ == ErrorView::General(
            "config already exists: "@ + path@,
        )),
        !(exists && !force) ==> (r matches Ok(v) && v@.len() == 1 && (v@[0] matches Effect::WriteFile {
            path: p,
            content: c,
            structured: Some(d),
        } && p@ == path@ && c@ == HEADER@ + body@ && json_view(d) == config_doc(
            sample_config_view(),
        ))),
{
    if exists && !force {
        return Err(Error::General(concat_str("config already exists: ", path)));
    }
    let content = concat_str(HEADER, body);
    let sample = Config::sample();
    let structured = Some(config_json(&sample));
    let effect = Effect::WriteFile { path: path.to_string(), content, structured };
    let v = vec![effect];
    Ok(v)
}

/// What `init` reports once done: that the file was created, unless it was a dry run
/// (whose preview said it all).
pub fn report(printer: &Printer, path: &str, dry_run: bool) -> (r: Rendered)
    ensures
        dry_run ==> r@ == RenderedView::Nothing,
        !dry_run ==> r@ == by_mode(
            printer.mode,
            seq![(crate::cli::output::Stream::Stdout, green("✓"@) + " created "@ + path@)],
            single_json("created"@, path@),
            false,
        ),
{
    if dry_run {
        Rendered::Nothing
    } else {
        printer.print_init(path)
    }
}

} // verus!
