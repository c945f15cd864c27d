use dbase_sql::driver::ExecutionDriver;

#[test]
fn statements_run_in_order() {
    let mut d = ExecutionDriver::new(vec!["A".to_string(), "B".to_string()]);
    assert_eq!(d.next_statement().unwrap(), "A");
    d.record_success();
    assert_eq!(d.next_statement().unwrap(), "B");
    d.record_success();
    assert!(d.next_statement().is_none());
    assert!(d.is_finished());
}

#[test]
fn failure_aborts_the_rest_of_the_batch() {
    // of three statements the second fails: the first ran, the failure is
    // recorded, and the third is never handed out
    let mut d = ExecutionDriver::new(vec![
        "FIRST".to_string(),
        "SECOND".to_string(),
        "THIRD".to_string(),
    ]);
    assert_eq!(d.next_statement().unwrap(), "FIRST");
    d.record_success();
    assert_eq!(d.next_statement().unwrap(), "SECOND");
    d.record_failure();
    assert!(d.next_statement().is_none());
    assert!(d.is_finished());
}

#[test]
fn driver_from_text_uses_the_splitter() {
    let mut d = ExecutionDriver::for_text("SELECT 1; SELECT 2;");
    assert_eq!(d.next_statement().unwrap(), "SELECT 1");
    d.record_success();
    assert_eq!(d.next_statement().unwrap(), "SELECT 2");
    d.record_success();
    assert!(d.next_statement().is_none());
}

#[test]
fn empty_batch_is_finished_at_once() {
    let d = ExecutionDriver::new(Vec::new());
    assert!(d.next_statement().is_none());
    assert!(d.is_finished());
}
