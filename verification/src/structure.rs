use vstd::prelude::*;

verus! {

/// The root schema: an ordered sequence of trailer definitions. Order is
/// significant — it determines prompt order and output line order.
#[derive(Debug, Clone)]
pub struct CommitStructure {
    pub trailers: Vec<Trailer>,
}

/// A trailer definition: one of three shapes, dispatched exhaustively by the
/// resolution engine.
#[derive(Debug, Clone)]
pub enum Trailer {
    /// Always prompts free text; no value source.
    Text(TextTrailer),
    /// Prompts for exactly one value from a candidate source.
    Select(SelectTrailer),
    /// Prompts for zero or more values from a candidate source.
    MultiSelect(MultiSelectTrailer),
}

#[derive(Debug, Clone)]
pub struct TextTrailer {
    pub name: String,
}

#[derive(Debug, Clone)]
pub struct SelectTrailer {
    pub name: String,
    pub values: Values,
}

#[derive(Debug, Clone)]
pub struct MultiSelectTrailer {
    pub name: String,
    pub values: Values,
}

/// Where a trailer's candidate values come from.
#[derive(Debug, Clone)]
pub enum Values {
    /// A fixed, static candidate list.
    FromOptions(ValuesFromOptions),
    /// Candidates mined live from version-control history.
    FromGitLog(ValuesFromGitLog),
}

#[derive(Debug, Clone)]
pub struct ValuesFromOptions {
    pub options: Vec<String>,
}

#[derive(Debug, Clone)]
pub struct ValuesFromGitLog {
    /// When present, each history query is limited to this many most recent
    /// entries.
    pub depth: Option<i32>,
    /// Each format string is run as one history query; results are merged.
    pub format_strings: Vec<String>,
}

} // verus!
