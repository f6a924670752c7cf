use cargo_stub::fn_info::{sort_by_start, FnInfo};
use cargo_stub::fn_map::{FnKind, FnMap, FunctionExtractor, SourceFile};
use std::cmp::Ordering;

fn info(name: Option<&str>, file: &str, lo_line: usize, hi_line: usize) -> FnInfo {
    FnInfo { name: name.map(|n| n.to_string()), file: file.to_string(), lo_line, hi_line }
}

#[test]
fn functions_order_by_start_line() {
    let a = info(Some("a"), "x.rs", 3, 9);
    let b = info(Some("b"), "y.rs", 5, 6);
    assert_eq!(a.cmp(&b), Ordering::Less);
    assert_eq!(b.cmp(&a), Ordering::Greater);
    assert_eq!(a.cmp(&info(None, "z.rs", 3, 4)), Ordering::Equal);
    assert_eq!(a.partial_cmp(&b), Some(Ordering::Less));
    assert!(a < b);
}

#[test]
fn equality_compares_start_with_other_end() {
    let a = info(Some("a"), "x.rs", 4, 9);
    let b = info(Some("b"), "x.rs", 1, 4);
    assert!(a == b);
    assert!(b != a);
    assert!(a != a.clone());
}

#[test]
fn sorting_orders_by_start_line() {
    let mut fns = vec![
        info(Some("c"), "f.rs", 30, 40),
        info(Some("a"), "f.rs", 1, 5),
        info(Some("b"), "f.rs", 10, 20),
        info(None, "f.rs", 10, 11),
    ];
    sort_by_start(&mut fns);
    let starts: Vec<usize> = fns.iter().map(|f| f.lo_line).collect();
    assert_eq!(starts, vec![1, 10, 10, 30]);
    assert_eq!(fns.len(), 4);
    assert_eq!(fns[0].name.as_deref(), Some("a"));
    assert_eq!(fns[3].name.as_deref(), Some("c"));
}

#[test]
fn map_groups_functions_by_file() {
    let mut map = FnMap::new();
    map.push_fn(info(Some("a"), "one.rs", 1, 3));
    map.push_fn(info(Some("b"), "two.rs", 2, 4));
    map.push_fn(info(Some("c"), "one.rs", 7, 9));
    let one = map.get(&"one.rs".to_string()).unwrap();
    assert_eq!(one.iter().map(|f| f.name.clone().unwrap()).collect::<Vec<_>>(), vec!["a", "c"]);
    let two = map.get(&"two.rs".to_string()).unwrap();
    assert_eq!(two.len(), 1);
    assert_eq!(two[0].lo_line, 2);
    assert!(map.get(&"three.rs".to_string()).is_none());
}

#[test]
fn sort_each_sorts_every_file() {
    let mut map = FnMap::new();
    map.push_fn(info(Some("late"), "one.rs", 20, 25));
    map.push_fn(info(Some("early"), "one.rs", 2, 8));
    map.push_fn(info(Some("only"), "two.rs", 4, 5));
    map.sort_each();
    let one = map.get(&"one.rs".to_string()).unwrap();
    assert_eq!(one[0].name.as_deref(), Some("early"));
    assert_eq!(one[1].name.as_deref(), Some("late"));
    assert_eq!(map.get(&"two.rs".to_string()).unwrap().len(), 1);
}

#[test]
fn visitor_records_named_functions_and_closures() {
    let mut ex = FunctionExtractor::new();
    ex.visit_fn(FnKind::ItemFn("main".to_string()), SourceFile::Real("src/main.rs".to_string()), 14, 17);
    ex.visit_fn(FnKind::Method("run".to_string()), SourceFile::Real("src/lib.rs".to_string()), 3, 8);
    ex.visit_fn(FnKind::Closure, SourceFile::Real("src/main.rs".to_string()), 15, 15);
    let main_fns = ex.fns.get(&"src/main.rs".to_string()).unwrap();
    assert_eq!(main_fns.len(), 2);
    assert_eq!(main_fns[0].name.as_deref(), Some("main"));
    assert_eq!(main_fns[0].lo_line, 14);
    assert_eq!(main_fns[0].hi_line, 17);
    assert_eq!(main_fns[0].file, "src/main.rs");
    assert!(main_fns[1].name.is_none());
    let lib_fns = ex.fns.get(&"src/lib.rs".to_string()).unwrap();
    assert_eq!(lib_fns[0].name.as_deref(), Some("run"));
}
