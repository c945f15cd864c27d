use dbase_sql::config::{resolve_config, ConfigError, FormatArg, InputMode, OutputFormat};

#[test]
fn long_delimiter_is_config_error() {
    let r = resolve_config(None, None, Some(FormatArg::Dsv), Some("ab".to_string()));
    assert_eq!(r.unwrap_err(), ConfigError::InvalidDelimiter);
}

#[test]
fn long_delimiter_rejected_even_for_table_format() {
    // the delimiter is validated before anything else, whatever the format
    let r = resolve_config(None, None, Some(FormatArg::Table), Some("xy".to_string()));
    assert_eq!(r.unwrap_err(), ConfigError::InvalidDelimiter);
    let r = resolve_config(
        Some("q.sql".to_string()),
        None,
        None,
        Some("::".to_string()),
    );
    assert_eq!(r.unwrap_err(), ConfigError::InvalidDelimiter);
}

#[test]
fn empty_delimiter_is_config_error() {
    let r = resolve_config(None, None, Some(FormatArg::Dsv), Some(String::new()));
    assert_eq!(r.unwrap_err(), ConfigError::InvalidDelimiter);
}

#[test]
fn file_and_inline_conflict() {
    let r = resolve_config(
        Some("q.sql".to_string()),
        Some("SELECT 1".to_string()),
        None,
        None,
    );
    assert_eq!(r.unwrap_err(), ConfigError::ConflictingInputs);
}

#[test]
fn defaults_to_interactive_table() {
    let c = resolve_config(None, None, None, None).unwrap();
    assert!(matches!(c.mode, InputMode::Interactive));
    assert_eq!(c.format, OutputFormat::Table);
}

#[test]
fn csv_and_tsv_pick_their_separators() {
    let c = resolve_config(None, None, Some(FormatArg::Csv), None).unwrap();
    assert_eq!(c.format, OutputFormat::Delimited(','));
    let c = resolve_config(None, None, Some(FormatArg::Tsv), None).unwrap();
    assert_eq!(c.format, OutputFormat::Delimited('\t'));
}

#[test]
fn dsv_defaults_to_pipe() {
    let c = resolve_config(None, None, Some(FormatArg::Dsv), None).unwrap();
    assert_eq!(c.format, OutputFormat::Delimited('|'));
}

#[test]
fn dsv_takes_the_given_delimiter() {
    let c = resolve_config(None, None, Some(FormatArg::Dsv), Some(";".to_string())).unwrap();
    assert_eq!(c.format, OutputFormat::Delimited(';'));
}

#[test]
fn delimiter_ignored_by_other_formats() {
    let c = resolve_config(None, None, Some(FormatArg::Csv), Some(";".to_string())).unwrap();
    assert_eq!(c.format, OutputFormat::Delimited(','));
}

#[test]
fn inline_mode_carries_the_text() {
    let c = resolve_config(None, Some("SELECT 1; SELECT 2".to_string()), None, None).unwrap();
    match c.mode {
        InputMode::Inline(t) => assert_eq!(t, "SELECT 1; SELECT 2"),
        _ => panic!("expected inline mode"),
    }
}

#[test]
fn file_mode_carries_the_path() {
    let c = resolve_config(Some("queries.sql".to_string()), None, None, None).unwrap();
    match c.mode {
        InputMode::File(p) => assert_eq!(p, "queries.sql"),
        _ => panic!("expected file mode"),
    }
}

#[test]
fn error_messages_name_the_constraint() {
    assert_eq!(
        ConfigError::ConflictingInputs.message(),
        "at most one of a statement text and a statement file may be given"
    );
    assert_eq!(
        ConfigError::InvalidDelimiter.message(),
        "the delimiter must be a single character"
    );
}
