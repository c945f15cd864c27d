use dbase_sql::format::{render_delimited, table_should_render, FormatError, ResultBatch};

fn strings(xs: &[&str]) -> Vec<String> {
    xs.iter().map(|s| s.to_string()).collect()
}

fn batch(names: &[&str], columns: &[&[&str]]) -> ResultBatch {
    let cols: Vec<Vec<String>> = columns.iter().map(|c| strings(c)).collect();
    ResultBatch::new(strings(names), cols).unwrap()
}

#[test]
fn header_and_one_row() {
    let b = batch(&["a", "b"], &[&["1"], &["2"]]);
    let out = render_delimited(&vec![b], ',');
    assert_eq!(out, "a,b\n1,2\n");
}

#[test]
fn empty_result_renders_nothing() {
    let out = render_delimited(&vec![], ',');
    assert_eq!(out, "");
}

#[test]
fn header_written_once_across_batches() {
    let b1 = batch(&["a"], &[&["1", "2"]]);
    let b2 = batch(&["a"], &[&["3"]]);
    let out = render_delimited(&vec![b1, b2], ',');
    assert_eq!(out, "a\n1\n2\n3\n");
}

#[test]
fn zero_row_batch_renders_header_only() {
    let b = batch(&["a", "b"], &[&[], &[]]);
    let out = render_delimited(&vec![b], ',');
    assert_eq!(out, "a,b\n");
}

#[test]
fn field_with_separator_is_quoted() {
    let b = batch(&["t", "u"], &[&["x,y"], &["z"]]);
    let out = render_delimited(&vec![b], ',');
    assert_eq!(out, "t,u\n\"x,y\",z\n");
    // re-splitting the data line on ',' must not fragment the quoted field
    let data_line = out.lines().nth(1).unwrap();
    assert!(data_line.starts_with("\"x,y\""));
}

#[test]
fn embedded_quote_is_doubled() {
    let b = batch(&["t"], &[&["say \"hi\""]]);
    let out = render_delimited(&vec![b], ',');
    assert_eq!(out, "t\n\"say \"\"hi\"\"\"\n");
}

#[test]
fn newline_in_field_is_quoted() {
    let b = batch(&["t"], &[&["two\nlines"]]);
    let out = render_delimited(&vec![b], ',');
    assert_eq!(out, "t\n\"two\nlines\"\n");
}

#[test]
fn other_separators_change_the_quoting() {
    // under tab separation a comma is ordinary text
    let b = batch(&["a", "b"], &[&["x,y"], &["z"]]);
    let out = render_delimited(&vec![b], '\t');
    assert_eq!(out, "a\tb\nx,y\tz\n");
}

#[test]
fn header_names_are_escaped_too() {
    let b = batch(&["a,b", "c"], &[&["1"], &["2"]]);
    let out = render_delimited(&vec![b], ',');
    assert_eq!(out, "\"a,b\",c\n1,2\n");
}

#[test]
fn ragged_columns_rejected() {
    let r = ResultBatch::new(
        strings(&["a", "b"]),
        vec![strings(&["1", "2"]), strings(&["3"])],
    );
    assert_eq!(r.unwrap_err(), FormatError::ShapeMismatch);
}

#[test]
fn name_count_mismatch_rejected() {
    let r = ResultBatch::new(strings(&["a", "b"]), vec![strings(&["1"])]);
    assert_eq!(r.unwrap_err(), FormatError::ShapeMismatch);
    assert_eq!(
        FormatError::ShapeMismatch.message(),
        "result columns do not agree in shape"
    );
}

#[test]
fn zero_rows_suppress_table_output() {
    let b = batch(&["a", "b"], &[&[], &[]]);
    assert!(!table_should_render(&vec![b]));
    assert!(!table_should_render(&vec![]));
}

#[test]
fn any_row_enables_table_output() {
    let empty = batch(&["a"], &[&[]]);
    let one = batch(&["a"], &[&["1"]]);
    assert!(table_should_render(&vec![empty, one]));
}

#[test]
fn pipe_delimited_render() {
    let b = batch(&["a", "b"], &[&["1"], &["2|3"]]);
    let out = render_delimited(&vec![b], '|');
    assert_eq!(out, "a|b\n1|\"2|3\"\n");
}

#[test]
fn single_column_has_no_separator() {
    let b = batch(&["only"], &[&["v1", "v2"]]);
    let out = render_delimited(&vec![b], ',');
    assert_eq!(out, "only\nv1\nv2\n");
}
