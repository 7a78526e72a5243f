use egglog::ast::Expr;
use egglog::map_sort::{
    EClassTable, MapPrimitive, MapSort, SortInfo, TermOrdering, TypeError, TypeInfo, Value, ValueMap,
};

const EXPR: u64 = 7;
const MAP: u64 = 9;

fn sort(name: &str, eq: bool, container: bool, eq_container: bool) -> SortInfo {
    SortInfo {
        name: name.to_string(),
        is_eq_sort: eq,
        is_container_sort: container,
        is_eq_container_sort: eq_container,
    }
}

fn types() -> TypeInfo {
    TypeInfo {
        sorts: vec![
            sort("i64", false, false, false),
            sort("Expr", true, false, false),
            sort("OtherMap", false, true, true),
        ],
    }
}

fn map_sort(k: &str, v: &str) -> Result<MapSort, TypeError> {
    MapSort::make_sort(&types(), "M".to_string(), MAP, &vec![Expr::Var(k.to_string()), Expr::Var(v.to_string())])
}

fn e(bits: u64) -> Value {
    Value { tag: EXPR, bits }
}

fn no_table() -> EClassTable {
    EClassTable { canon: vec![] }
}

fn entries(m: &MapSort, v: Value) -> Vec<(Value, Value)> {
    m.load(&v).entries
}

#[test]
fn make_sort_checks_its_arguments() {
    let m = map_sort("Expr", "Expr").unwrap();
    assert_eq!(m.name(), "M");
    assert!(m.is_container_sort());
    assert!(m.is_eq_container_sort());
    assert_eq!(map_sort("Nope", "Expr"), Err(TypeError::UndefinedSort("Nope".to_string())));
    assert_eq!(map_sort("Expr", "Gone"), Err(TypeError::UndefinedSort("Gone".to_string())));
    assert!(matches!(map_sort("OtherMap", "i64"), Err(TypeError::DisallowedNesting(_))));
    assert!(matches!(map_sort("i64", "OtherMap"), Err(TypeError::DisallowedNesting(_))));
    let one_arg = MapSort::make_sort(&types(), "M".to_string(), MAP, &vec![Expr::Var("Expr".to_string())]);
    assert_eq!(one_arg, Err(TypeError::BadArguments("M".to_string())));
    let not_a_name = MapSort::make_sort(
        &types(),
        "M".to_string(),
        MAP,
        &vec![Expr::Var("Expr".to_string()), Expr::Call("f".to_string(), vec![])],
    );
    assert_eq!(not_a_name, Err(TypeError::BadArguments("M".to_string())));
    let plain = map_sort("i64", "i64").unwrap();
    assert!(!plain.is_eq_container_sort());
}

#[test]
fn presort_names_in_registration_order() {
    assert_eq!(
        MapSort::presort_names(),
        vec!["rebuild", "map-empty", "map-insert", "map-get", "map-not-contains", "map-contains", "map-remove"]
    );
    let names: Vec<String> = MapPrimitive::register_primitives().iter().map(|p| p.name()).collect();
    assert_eq!(names, MapSort::presort_names());
}

#[test]
fn insert_get_contains_remove() {
    let mut m = map_sort("Expr", "Expr").unwrap();
    let t = no_table();
    let empty = MapPrimitive::Empty.apply(&mut m, &vec![], &t).unwrap();
    assert_eq!(empty.tag, MAP);
    let one = MapPrimitive::Insert.apply(&mut m, &vec![empty, e(2), e(20)], &t).unwrap();
    let two = MapPrimitive::Insert.apply(&mut m, &vec![one, e(1), e(10)], &t).unwrap();
    assert_eq!(entries(&m, two), vec![(e(1), e(10)), (e(2), e(20))]);
    assert_eq!(MapPrimitive::Get.apply(&mut m, &vec![two, e(2)], &t), Some(e(20)));
    assert_eq!(MapPrimitive::Get.apply(&mut m, &vec![two, e(3)], &t), None);
    assert_eq!(MapPrimitive::Contains.apply(&mut m, &vec![two, e(1)], &t), Some(Value::unit()));
    assert_eq!(MapPrimitive::Contains.apply(&mut m, &vec![two, e(3)], &t), None);
    assert_eq!(MapPrimitive::NotContains.apply(&mut m, &vec![two, e(1)], &t), None);
    assert_eq!(MapPrimitive::NotContains.apply(&mut m, &vec![two, e(3)], &t), Some(Value::unit()));
    let removed = MapPrimitive::Remove.apply(&mut m, &vec![two, e(2)], &t).unwrap();
    assert_eq!(entries(&m, removed), vec![(e(1), e(10))]);
    let over = MapPrimitive::Insert.apply(&mut m, &vec![removed, e(1), e(11)], &t).unwrap();
    assert_eq!(entries(&m, over), vec![(e(1), e(11))]);
}

#[test]
fn equal_maps_are_interned_once() {
    let mut m = map_sort("Expr", "Expr").unwrap();
    let t = no_table();
    let empty = MapPrimitive::Empty.apply(&mut m, &vec![], &t).unwrap();
    let a = MapPrimitive::Insert.apply(&mut m, &vec![empty, e(1), e(10)], &t).unwrap();
    let b = MapPrimitive::Insert.apply(&mut m, &vec![empty, e(1), e(10)], &t).unwrap();
    assert_eq!(a, b);
    let again = MapPrimitive::Empty.apply(&mut m, &vec![], &t).unwrap();
    assert_eq!(again, empty);
    let back = MapPrimitive::Remove.apply(&mut m, &vec![a, e(1)], &t).unwrap();
    assert_eq!(back, empty);
    assert_eq!(m.maps.len(), 2);
}

#[test]
fn rebuild_maps_keys_and_values_to_roots() {
    let mut m = map_sort("Expr", "Expr").unwrap();
    // ids 0 and 1 are roots; 2 is in the class of 0, 3 in the class of 1
    let table = EClassTable { canon: vec![0, 1, 0, 1] };
    let empty = MapPrimitive::Empty.apply(&mut m, &vec![], &table).unwrap();
    let v = MapPrimitive::Insert.apply(&mut m, &vec![empty, e(2), e(3)], &table).unwrap();
    let (rebuilt, changed) = m.rebuild(&v, &table);
    assert!(changed);
    assert_eq!(entries(&m, rebuilt), vec![(e(0), e(1))]);
    let (again, changed_again) = m.rebuild(&rebuilt, &table);
    assert!(!changed_again);
    assert_eq!(again, rebuilt);
    let via_primitive = MapPrimitive::Rebuild.apply(&mut m, &vec![v], &table).unwrap();
    assert_eq!(via_primitive, rebuilt);
}

#[test]
fn rebuild_of_canonical_map_reports_no_change() {
    let mut m = map_sort("Expr", "Expr").unwrap();
    let table = EClassTable { canon: vec![0, 1] };
    let empty = MapPrimitive::Empty.apply(&mut m, &vec![], &table).unwrap();
    let v = MapPrimitive::Insert.apply(&mut m, &vec![empty, e(0), e(1)], &table).unwrap();
    let (r, changed) = m.rebuild(&v, &table);
    assert!(!changed);
    assert_eq!(r, v);
}

#[test]
fn rebuild_merges_keys_that_collapse() {
    let mut m = map_sort("Expr", "i64").unwrap();
    let table = EClassTable { canon: vec![0, 0] };
    let t = no_table();
    let empty = MapPrimitive::Empty.apply(&mut m, &vec![], &t).unwrap();
    let a = MapPrimitive::Insert.apply(&mut m, &vec![empty, e(0), Value { tag: 1, bits: 5 }], &t).unwrap();
    let b = MapPrimitive::Insert.apply(&mut m, &vec![a, e(1), Value { tag: 1, bits: 6 }], &t).unwrap();
    let (r, changed) = m.rebuild(&b, &table);
    assert!(changed);
    assert_eq!(entries(&m, r), vec![(e(0), Value { tag: 1, bits: 6 })]);
}

#[test]
fn inner_values_lists_keys_and_values() {
    let mut m = map_sort("Expr", "i64").unwrap();
    let t = no_table();
    let empty = MapPrimitive::Empty.apply(&mut m, &vec![], &t).unwrap();
    let a = MapPrimitive::Insert.apply(&mut m, &vec![empty, e(4), Value { tag: 1, bits: 40 }], &t).unwrap();
    let inner = m.inner_values(&a);
    assert_eq!(inner, vec![("Expr".to_string(), e(4)), ("i64".to_string(), Value { tag: 1, bits: 40 })]);
    assert!(m.inner_values(&empty).is_empty());
    let mut v = a;
    assert!(!m.canonicalize(&mut v, &t));
    assert_eq!(v, a);
}

#[test]
fn accept_checks_argument_sorts() {
    let m = map_sort("Expr", "i64").unwrap();
    let unit = "Unit".to_string();
    let ts = |xs: &[&str]| xs.iter().map(|x| x.to_string()).collect::<Vec<String>>();
    assert_eq!(MapPrimitive::Insert.accept(&m, &ts(&["M", "Expr", "i64"]), &unit), Some("M".to_string()));
    assert_eq!(MapPrimitive::Insert.accept(&m, &ts(&["M", "i64", "Expr"]), &unit), None);
    assert_eq!(MapPrimitive::Get.accept(&m, &ts(&["M", "Expr"]), &unit), Some("i64".to_string()));
    assert_eq!(MapPrimitive::Contains.accept(&m, &ts(&["M", "Expr"]), &unit), Some("Unit".to_string()));
    assert_eq!(MapPrimitive::NotContains.accept(&m, &ts(&["M", "Expr"]), &unit), Some("Unit".to_string()));
    assert_eq!(MapPrimitive::Remove.accept(&m, &ts(&["M", "Expr"]), &unit), Some("M".to_string()));
    assert_eq!(MapPrimitive::Empty.accept(&m, &ts(&[]), &unit), Some("M".to_string()));
    assert_eq!(MapPrimitive::Empty.accept(&m, &ts(&["M"]), &unit), None);
    assert_eq!(MapPrimitive::Rebuild.accept(&m, &ts(&["M"]), &unit), Some("M".to_string()));
    assert_eq!(MapPrimitive::Rebuild.accept(&m, &ts(&["N"]), &unit), None);
}

#[test]
fn ordering_primitives() {
    let a = Value { tag: 3, bits: 9 };
    let b = Value { tag: 4, bits: 1 };
    assert_eq!(TermOrdering::Min.apply(&vec![a, b]), a);
    assert_eq!(TermOrdering::Max.apply(&vec![a, b]), b);
    assert_eq!(TermOrdering::Min.apply(&vec![b, a]), a);
    assert_eq!(TermOrdering::Max.apply(&vec![e(5), e(2)]), e(5));
    assert_eq!(TermOrdering::Min.name(), "ordering-min");
    assert_eq!(TermOrdering::Max.name(), "ordering-max");
    assert_eq!(TermOrdering::Min.accept(&vec!["i64".to_string(), "i64".to_string()]), Some("i64".to_string()));
    assert_eq!(TermOrdering::Min.accept(&vec!["i64".to_string(), "Expr".to_string()]), None);
}

#[test]
fn make_expr_folds_inserts_over_empty() {
    let mut m = map_sort("Expr", "Expr").unwrap();
    let t = no_table();
    let empty = MapPrimitive::Empty.apply(&mut m, &vec![], &t).unwrap();
    let a = MapPrimitive::Insert.apply(&mut m, &vec![empty, e(1), e(2)], &t).unwrap();
    let b = MapPrimitive::Insert.apply(&mut m, &vec![a, e(3), e(4)], &t).unwrap();
    let v = |x: &str| Expr::Var(x.to_string());
    let terms = vec![(v("k1"), v("v1")), (v("k3"), v("v3"))];
    let expr = m.make_expr(&b, &terms);
    let inner = Expr::Call("map-insert".to_string(), vec![Expr::Call("map-empty".to_string(), vec![]), v("k3"), v("v3")]);
    assert_eq!(expr, Expr::Call("map-insert".to_string(), vec![inner, v("k1"), v("v1")]));
    assert_eq!(m.make_expr(&empty, &vec![]), Expr::Call("map-empty".to_string(), vec![]));
}

#[test]
fn value_map_directly() {
    let mut vm = ValueMap::new();
    vm.insert(e(5), e(50));
    vm.insert(e(3), e(30));
    vm.insert(e(4), e(40));
    assert_eq!(vm.entries, vec![(e(3), e(30)), (e(4), e(40)), (e(5), e(50))]);
    assert!(vm.contains_key(&e(4)));
    vm.remove(&e(4));
    vm.remove(&e(9));
    assert_eq!(vm.get(&e(4)), None);
    assert_eq!(vm.get(&e(5)), Some(e(50)));
}

#[test]
fn canonicalize_rewrites_to_roots() {
    let mut m = map_sort("Expr", "Expr").unwrap();
    let table = EClassTable { canon: vec![0, 1, 0, 1] };
    let empty = MapPrimitive::Empty.apply(&mut m, &vec![], &table).unwrap();
    let v = MapPrimitive::Insert.apply(&mut m, &vec![empty, e(2), e(3)], &table).unwrap();
    let mut w = v;
    assert!(m.canonicalize(&mut w, &table));
    assert_ne!(w, v);
    assert_eq!(entries(&m, w), vec![(e(0), e(1))]);
    let mut again = w;
    assert!(!m.canonicalize(&mut again, &table));
    assert_eq!(again, w);
}
