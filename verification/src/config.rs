//! Resolving command-line options into a validated run configuration.
//!
//! The command line offers an inline statement text, a statement file, an
//! output-format choice and a delimiter for delimiter-separated output.
//! `resolve_config` turns those raw options into a `RunConfig`, or reports a
//! `ConfigError` before anything else runs: giving both an inline text and a
//! file is a conflict, and a delimiter that is not exactly one character is
//! invalid.

use vstd::prelude::*;

verus! {

/// The output-format choice as it appears on the command line.
#[derive(Clone, Copy, PartialEq, Eq, Structural, Debug)]
pub enum FormatArg {
    Csv,
    Tsv,
    Dsv,
    Table,
}

/// How result batches are rendered: joined by a single separator character,
/// or as the engine's aligned table display.
#[derive(Clone, Copy, PartialEq, Eq, Structural, Debug)]
pub enum OutputFormat {
    Delimited(char),
    Table,
}

/// Where statement text comes from: a literal string, a file, or the
/// interactive session.
#[derive(Debug)]
pub enum InputMode {
    Inline(String),
    File(String),
    Interactive,
}

/// A validated configuration for one run: immutable once constructed.
#[derive(Debug)]
pub struct RunConfig {
    pub mode: InputMode,
    pub format: OutputFormat,
}

/// A configuration error, reported before any statement executes.
#[derive(Clone, Copy, PartialEq, Eq, Structural, Debug)]
pub enum ConfigError {
    /// Both an inline statement text and a statement file were given.
    ConflictingInputs,
    /// The delimiter option is not exactly one character.
    InvalidDelimiter,
}

impl ConfigError {
    /// A human-readable message for the error.
    pub fn message(&self) -> (r: &'static str)
        ensures
            *self is ConflictingInputs ==> r@ == "at most one of a statement text and a statement file may be given"@,
            *self is InvalidDelimiter ==> r@ == "the delimiter must be a single character"@,
    {
        match self {
            ConfigError::ConflictingInputs => "at most one of a statement text and a statement file may be given",
            ConfigError::InvalidDelimiter => "the delimiter must be a single character",
        }
    }
}

/// The delimiter option is acceptable when absent or exactly one character.
pub open spec fn delimiter_valid(delimiter: Option<Seq<char>>) -> bool {
    match delimiter {
        Some(d) => d.len() == 1,
        None => true,
    }
}

/// The output format that a format choice and a delimiter option select:
/// comma for csv, tab for tsv, the given (or default `|`) character for dsv,
/// and the table display otherwise.
pub open spec fn chosen_format(format: Option<FormatArg>, delimiter: Option<Seq<char>>) -> OutputFormat
    recommends
        delimiter_valid(delimiter),
{
    match format {
        Some(FormatArg::Csv) => OutputFormat::Delimited(','),
        Some(FormatArg::Tsv) => OutputFormat::Delimited('\t'),
        Some(FormatArg::Dsv) => match delimiter {
            Some(d) => OutputFormat::Delimited(d[0]),
            None => OutputFormat::Delimited('|'),
        },
        Some(FormatArg::Table) => OutputFormat::Table,
        None => OutputFormat::Table,
    }
}

/// Validates the raw command-line options and produces the run configuration.
///
/// The delimiter is checked first, whatever the chosen format, so that a bad
/// delimiter always fails the run before any statement executes; then at most
/// one statement source may be given; if neither is given the run is
/// interactive.
pub fn resolve_config(
    file: Option<String>,
    execute: Option<String>,
    format: Option<FormatArg>,
    delimiter: Option<String>,
) -> (r: Result<RunConfig, ConfigError>)
    ensures
        r is Err <==> !delimiter_valid(delimiter.deep_view()) || (file is Some && execute is Some),
        !delimiter_valid(delimiter.deep_view()) ==> r == Err::<RunConfig, ConfigError>(ConfigError::InvalidDelimiter),
        delimiter_valid(delimiter.deep_view()) && file is Some && execute is Some
            ==> r == Err::<RunConfig, ConfigError>(ConfigError::ConflictingInputs),
        r matches Ok(c) ==> c.format == chosen_format(format, delimiter.deep_view()),
        r is Ok && execute is Some ==> (r->Ok_0.mode matches InputMode::Inline(t) && t@ == execute->0@),
        r is Ok && file is Some ==> (r->Ok_0.mode matches InputMode::File(p) && p@ == file->0@),
        r is Ok && file is None && execute is None ==> r->Ok_0.mode is Interactive,
{
    if let Some(d) = &delimiter {
        if d.as_str().unicode_len() != 1 {
            return Err(ConfigError::InvalidDelimiter);
        }
    }
    let out_format = match format {
        Some(FormatArg::Csv) => OutputFormat::Delimited(','),
        Some(FormatArg::Tsv) => OutputFormat::Delimited('\t'),
        Some(FormatArg::Dsv) => match &delimiter {
            Some(d) => OutputFormat::Delimited(d.as_str().get_char(0)),
            None => OutputFormat::Delimited('|'),
        },
        Some(FormatArg::Table) => OutputFormat::Table,
        None => OutputFormat::Table,
    };
    let mode = match (execute, file) {
        (Some(_), Some(_)) => {
            return Err(ConfigError::ConflictingInputs);
        },
        (Some(text), None) => InputMode::Inline(text),
        (None, Some(path)) => InputMode::File(path),
        (None, None) => InputMode::Interactive,
    };
    Ok(RunConfig { mode, format: out_format })
}

} // verus!
