use cargo_stub::fn_info::FnInfo;
use cargo_stub::fn_map::FnMap;
use cargo_stub::path::{path_components, same_path};
use std::path::Path;

fn comps(s: &str) -> Vec<String> {
    path_components(s).into_iter().map(|c| c.into_iter().collect()).collect()
}

#[test]
fn components_of_paths() {
    assert_eq!(comps("src/main.rs"), vec!["src", "main.rs"]);
    assert_eq!(comps("/usr//lib/"), vec!["/", "usr", "lib"]);
    assert_eq!(comps("./a/./b/../c"), vec![".", "a", "b", "..", "c"]);
    assert!(comps("").is_empty());
}

#[test]
fn same_path_agrees_with_std() {
    let paths = [
        "src/main.rs", "src//main.rs", "src/./main.rs", "./src/main.rs", "/src/main.rs",
        "src/main.rs/", "src/../main.rs", ".", "./", "", "a/.", ".a/b", "..",
    ];
    for a in paths.iter() {
        for b in paths.iter() {
            assert_eq!(same_path(a, b), Path::new(a) == Path::new(b), "{:?} vs {:?}", a, b);
        }
    }
}

#[test]
fn map_keys_files_by_components() {
    let mut map = FnMap::new();
    map.push_fn(FnInfo { name: Some("a".to_string()), file: "src/main.rs".to_string(), lo_line: 1, hi_line: 3 });
    map.push_fn(FnInfo { name: Some("b".to_string()), file: "src//main.rs".to_string(), lo_line: 5, hi_line: 8 });
    let fns = map.get(&"src/./main.rs".to_string()).unwrap();
    assert_eq!(fns.len(), 2);
    assert!(map.get(&"./src/main.rs".to_string()).is_none());
}
