use vstd::prelude::*;

use crate::structure::{CommitStructure, MultiSelectTrailer, Trailer, Values, ValuesFromGitLog};

verus! {

/// The built-in schema, used when no config file is found: a single
/// multi-select "Co-authored-by" trailer whose candidates are mined from
/// history, combining the current author identity with any co-author
/// trailers already present, at unbounded depth.
pub fn default_config() -> (r: CommitStructure)
    ensures
        r.trailers@.len() == 1,
        r.trailers@[0] matches Trailer::MultiSelect(m) && {
            &&& m.name@ == "Co-authored-by"@
            &&& m.values matches Values::FromGitLog(v) && {
                &&& v.depth is None
                &&& v.format_strings@.len() == 2
                &&& v.format_strings@[0]@ == "%an <%ae>"@
                &&& v.format_strings@[1]@ == "%(trailers:key=Co-authored-by,valueonly=true)"@
            }
        },
{
    let mut format_strings: Vec<String> = Vec::new();
    format_strings.push("%an <%ae>".to_owned());
    format_strings.push("%(trailers:key=Co-authored-by,valueonly=true)".to_owned());
    let mut trailers: Vec<Trailer> = Vec::new();
    trailers.push(Trailer::MultiSelect(MultiSelectTrailer {
        name: "Co-authored-by".to_owned(),
        values: Values::FromGitLog(ValuesFromGitLog { depth: None, format_strings }),
    }));
    CommitStructure { trailers }
}

} // verus!
