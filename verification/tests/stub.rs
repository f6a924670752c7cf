use cargo_stub::fn_info::FnInfo;
use cargo_stub::fn_map::FnMap;
use cargo_stub::stub::{fit_all, stub_text, StubbingLoader};

const SAMPLE: &str = "fn library_function(name: &str) {
    println!(\"Called with: {}\", name);
}

fn consumer_one() {
    library_function(\"Consumer one\");
}

fn consumer_two() {
    panic!();
    library_function();
}

fn main() {
    consumer_one();
    consumer_two();
}
";

fn info(name: &str, file: &str, lo_line: usize, hi_line: usize) -> FnInfo {
    FnInfo { name: Some(name.to_string()), file: file.to_string(), lo_line, hi_line }
}

#[test]
fn stubbing_the_failing_sample_function() {
    let fns = vec![info("consumer_two", "src/main.rs", 9, 12)];
    let out = stub_text(SAMPLE, &fns);
    let expected = "fn library_function(name: &str) {
    println!(\"Called with: {}\", name);
}

fn consumer_one() {
    library_function(\"Consumer one\");
}

fn consumer_two() {
panic!(\"Function consumer_two is stubbed!\")/*    panic!();
    library_function();*/
}

fn main() {
    consumer_one();
    consumer_two();
}";
    assert_eq!(out, expected);
}

#[test]
fn one_line_body_is_opened_and_closed_on_the_same_line() {
    let src = "fn f() {\n    g();\n}\n";
    let out = stub_text(src, &vec![info("f", "a.rs", 1, 3)]);
    assert_eq!(out, "fn f() {\npanic!(\"Function f is stubbed!\")/*    g();*/\n}");
}

#[test]
fn two_functions_stubbed_in_order() {
    let src = "fn a() {\n    x();\n}\nfn b() {\n    y();\n    z();\n}";
    let fns = vec![info("a", "m.rs", 1, 3), info("b", "m.rs", 4, 7)];
    let out = stub_text(src, &fns);
    assert_eq!(
        out,
        "fn a() {\npanic!(\"Function a is stubbed!\")/*    x();*/\n}\nfn b() {\npanic!(\"Function b is stubbed!\")/*    y();\n    z();*/\n}"
    );
}

#[test]
fn stubbing_keeps_the_number_of_lines() {
    let fns = vec![info("consumer_one", "src/main.rs", 5, 7), info("consumer_two", "src/main.rs", 9, 12)];
    let out = stub_text(SAMPLE, &fns);
    assert_eq!(out.lines().count(), SAMPLE.lines().count());
}

#[test]
fn nothing_to_stub_gives_the_text_back() {
    let src = "fn main() {\n    run();\n}";
    assert_eq!(stub_text(src, &Vec::new()), src);
}

#[test]
fn loader_stubs_recorded_file() {
    let mut map = FnMap::new();
    map.push_fn(info("consumer_two", "src/main.rs", 9, 12));
    let loader = StubbingLoader::new(map);
    let out = loader.stubbed_source(&"src/main.rs".to_string(), SAMPLE.to_string());
    assert!(out.contains("panic!(\"Function consumer_two is stubbed!\")/*    panic!();"));
    assert!(out.contains("    library_function();*/"));
}

#[test]
fn loader_passes_other_files_through() {
    let mut map = FnMap::new();
    map.push_fn(info("consumer_two", "src/main.rs", 9, 12));
    let loader = StubbingLoader::new(map);
    let out = loader.stubbed_source(&"src/lib.rs".to_string(), SAMPLE.to_string());
    assert_eq!(out, SAMPLE);
}

#[test]
fn checked_stubbing_refuses_functions_outside_the_text() {
    let mut map = FnMap::new();
    map.push_fn(info("far", "src/main.rs", 40, 45));
    let loader = StubbingLoader::new(map);
    assert!(loader.checked_stubbed_source(&"src/main.rs".to_string(), SAMPLE.to_string()).is_none());
    assert_eq!(
        loader.checked_stubbed_source(&"src/other.rs".to_string(), SAMPLE.to_string()).as_deref(),
        Some(SAMPLE)
    );
}

#[test]
fn checked_stubbing_refuses_closures() {
    let mut map = FnMap::new();
    map.push_fn(FnInfo { name: None, file: "src/main.rs".to_string(), lo_line: 9, hi_line: 12 });
    let loader = StubbingLoader::new(map);
    assert!(loader.checked_stubbed_source(&"src/main.rs".to_string(), SAMPLE.to_string()).is_none());
}

#[test]
fn checked_stubbing_stubs_fitting_functions() {
    let mut map = FnMap::new();
    map.push_fn(info("consumer_two", "src/main.rs", 9, 12));
    let loader = StubbingLoader::new(map);
    let checked = loader.checked_stubbed_source(&"src/main.rs".to_string(), SAMPLE.to_string()).unwrap();
    assert_eq!(checked, loader.stubbed_source(&"src/main.rs".to_string(), SAMPLE.to_string()));
}

#[test]
fn fit_all_checks_lines_and_names() {
    assert!(fit_all(&vec![info("f", "a.rs", 1, 3)], 3));
    assert!(!fit_all(&vec![info("f", "a.rs", 3, 4)], 3));
    assert!(!fit_all(&vec![info("f", "a.rs", 0, 1)], 3));
    assert!(!fit_all(&vec![info("f", "a.rs", 0, 6)], 3));
    assert!(fit_all(&Vec::new(), 0));
}
