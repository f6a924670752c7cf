use cargo_stub::sample::{consumer_one, consumer_two, library_function};

#[test]
fn library_function_prints_its_argument() {
    assert_eq!(library_function("x"), "Called with: x");
}

#[test]
fn consumer_one_prints_one_line() {
    let run = consumer_one();
    assert_eq!(run.printed, vec!["Called with: Consumer one".to_string()]);
    assert!(run.returned);
}

#[test]
fn consumer_two_fails_without_output() {
    let run = consumer_two();
    assert!(run.printed.is_empty());
    assert!(!run.returned);
}

#[test]
fn sample_program_prints_once_then_fails() {
    let run = cargo_stub::sample::run_main();
    assert_eq!(run.printed, vec!["Called with: Consumer one".to_string()]);
    assert!(!run.returned);
}
