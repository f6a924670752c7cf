use cargo_stub::args::{
    compiler_args, make_input, make_output, output_of, stdin_input, sysroot_from_output, Input,
    InputError, InputRequest,
};

fn options() -> getopts::Options {
    let mut opts = getopts::Options::new();
    opts.optopt("", "out-dir", "directory for output", "DIR");
    opts.optopt("o", "", "output file", "FILE");
    opts
}

fn strings(items: &[&str]) -> Vec<String> {
    items.iter().map(|s| s.to_string()).collect()
}

#[test]
fn output_options_are_read() {
    let matches = options().parse(strings(&["--out-dir", "target", "-o", "prog", "main.rs"])).unwrap();
    let (odir, ofile) = make_output(&matches);
    assert_eq!(odir.as_deref(), Some("target"));
    assert_eq!(ofile.as_deref(), Some("prog"));
}

#[test]
fn absent_output_options_are_none() {
    let matches = options().parse(strings(&["main.rs"])).unwrap();
    let (odir, ofile) = make_output(&matches);
    assert!(odir.is_none());
    assert!(ofile.is_none());
}

#[test]
fn output_of_needs_both_options_defined() {
    let mut opts = getopts::Options::new();
    opts.optopt("", "out-dir", "directory for output", "DIR");
    let matches = opts.parse(strings(&["--out-dir", "t"])).unwrap();
    assert!(output_of(&matches).is_none());
    let matches = options().parse(strings(&["-o", "bin"])).unwrap();
    let out = output_of(&matches).unwrap();
    assert!(out.0.is_none());
    assert_eq!(out.1.as_deref(), Some("bin"));
}

#[test]
fn dash_means_standard_input() {
    assert!(matches!(make_input(&strings(&["-"])), Some(InputRequest::ReadStdin)));
}

#[test]
fn one_free_argument_names_the_input_file() {
    match make_input(&strings(&["src/main.rs"])) {
        Some(InputRequest::Ready(Input::File(p), Some(q))) => {
            assert_eq!(p, "src/main.rs");
            assert_eq!(q, "src/main.rs");
        }
        _ => panic!("expected a file input"),
    }
}

#[test]
fn no_or_several_free_arguments_give_no_input() {
    assert!(make_input(&[]).is_none());
    assert!(make_input(&strings(&["a.rs", "b.rs"])).is_none());
}

#[test]
fn text_read_from_stdin_is_the_input() {
    let (input, path, err) = stdin_input(Some("fn main() {}".to_string()));
    assert!(matches!(input, Input::Str { ref input } if input == "fn main() {}"));
    assert!(path.is_none());
    assert!(err.is_none());
}

#[test]
fn failed_stdin_read_gives_utf8_error() {
    let (input, path, err) = stdin_input(None);
    assert!(matches!(input, Input::Str { ref input } if input.is_empty()));
    assert!(path.is_none());
    assert!(matches!(err, Some(InputError::InvalidUtf8)));
}

#[test]
fn compiler_args_drop_program_and_add_sysroot() {
    let args = compiler_args(&strings(&["cargo-stub", "src/main.rs", "--crate-type", "bin"]), "/opt/rust".to_string());
    assert_eq!(args, strings(&["src/main.rs", "--crate-type", "bin", "--sysroot", "/opt/rust"]));
    let args = compiler_args(&Vec::new(), "/s".to_string());
    assert_eq!(args, strings(&["--sysroot", "/s"]));
}

#[test]
fn sysroot_is_trimmed_output() {
    assert_eq!(sysroot_from_output(b"/home/u/.rustup/toolchains/nightly\n".to_vec()).as_deref(), Some("/home/u/.rustup/toolchains/nightly"));
    assert_eq!(sysroot_from_output("  /ŕust \r\n".as_bytes().to_vec()).as_deref(), Some("/ŕust"));
}

#[test]
fn sysroot_needs_utf8() {
    assert!(sysroot_from_output(vec![0x2f, 0xff, 0xfe]).is_none());
}
