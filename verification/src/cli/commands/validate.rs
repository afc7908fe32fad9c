//! `validate`: report whether the configuration loads, and warn about overlapping
//! components.
use vstd::prelude::*;
use crate::cli::output::{Printer, Rendered, error_view, validate_ok_view};
use crate::config::layered::{ConfigWarning, warnings_view};
use crate::config::overlap::{overlap_warnings, overlap_warnings_of};
use crate::config::types::Config;
use crate::domain::error::{ConfigError, Error, ErrorView};

verus! {

/// Run `validate` on the outcome of loading the configuration: a loaded configuration is
/// valid, with a warning for each pair of components whose globs overlap, which are
/// returned and reported with it; a failure becomes a configuration error, is reported,
/// and is returned.
pub fn run(loaded: Result<Config, ConfigError>, printer: &Printer) -> (r: (
    Result<Vec<ConfigWarning>, Error>,
    Rendered,
))
    ensures
        match loaded {
            Ok(c) => r.0 matches Ok(ws) && warnings_view(ws@) == overlap_warnings(c@.components)
                && r.1@ == validate_ok_view(printer.mode, overlap_warnings(c@.components)),
            Err(e) => r.0 matches Err(x) && x@ == ErrorView::Config(e@) && r.1@ == error_view(
                printer.mode,
                ErrorView::Config(e@),
                true,
            ),
        },
{
    match loaded {
        Ok(cfg) => {
            let warnings = overlap_warnings_of(&cfg.components);
            let shown = printer.print_validate_ok(&warnings);
            (Ok(warnings), shown)
        },
        Err(e) => {
            let err = Error::Config(e);
            let shown = printer.print_validate_error(&err);
            (Err(err), shown)
        },
    }
}

} // verus!
