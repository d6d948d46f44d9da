use pbrt::testutils::{make_bool_param_set, make_string_param_set, make_texture_param_set};
use pbrt::geometry::{Normal3, Point2, Point3, Vector2, Vector3};
use pbrt::paramset::{ParamList, ParamSet, ParamSetItem, Value};

fn floats(v: &[&str]) -> Value {
    Value::Float(ParamList(v.iter().map(|s| s.to_string()).collect()))
}

#[test]
fn test_param_set() {
    let mut ps: ParamSet = vec![ParamSetItem::new("test0", &floats(&["1.", "2."]))].into();
    assert_eq!(ps.find("test0").unwrap(), floats(&["1.", "2."]));

    let mut ps: ParamSet = vec![ParamSetItem::new("test1", &floats(&["1.", "2."]))].into();
    assert_eq!(ps.find("test1").unwrap(), floats(&["1.", "2."]));

    assert_eq!(
        ps.find("notfound").unwrap_or(floats(&["1.", "2."])),
        floats(&["1.", "2."])
    );

    ps.add("test2", floats(&["3.", "4."]));
    assert_eq!(ps.find("test2").unwrap(), floats(&["3.", "4."]));
    assert_eq!(ps.find("test3"), None);
    ps.add("bools", Value::Bool(ParamList(vec![true, true, false])));
    assert_eq!(
        ps.find("bools").unwrap(),
        Value::Bool(ParamList(vec![true, true, false]))
    );
    assert_eq!(ps.find("test3"), None);

    assert!(!ps.report_unused());

    ps.add("notused", Value::Bool(ParamList(vec![true, true, false])));
    assert!(ps.report_unused());
}

#[test]
fn test_param_set_find() {
    let mut ps: ParamSet = vec![
        ParamSetItem::new("test1", &floats(&["1.", "2."])),
        ParamSetItem::new(
            "test2",
            &Value::String(ParamList(vec!["one".to_owned(), "two".to_owned()])),
        ),
        ParamSetItem::new("test3", &Value::String(ParamList(vec![]))),
    ]
    .into();

    let test2: String = "one".to_owned();
    assert_eq!(ps.find_one_string("test2", "one".to_string()), test2);
}

#[test]
fn find_one_bool_found_and_missing() {
    let mut ps: ParamSet = vec![ParamSetItem::new("value", &Value::Bool(ParamList(vec![true])))].into();
    assert_eq!(ps.find_one_bool("value", false), true);
    assert_eq!(ps.find_one_bool("non-existent", false), false);
}

#[test]
fn find_one_wrong_type_gives_default() {
    let mut ps: ParamSet = vec![ParamSetItem::new("value", &floats(&["1"]))].into();
    assert_eq!(ps.find_one_bool("value", true), true);
    assert_eq!(ps.find_one_string("value", "d".to_string()), "d");
    assert_eq!(ps.find_one_texture("value", "t".to_string()), "t");
}

#[test]
fn find_one_empty_list_gives_default() {
    let mut ps: ParamSet = vec![ParamSetItem::new("test3", &Value::String(ParamList(vec![])))].into();
    assert_eq!(ps.find_one_string("test3", "one".to_string()), "one");
}

#[test]
fn find_one_texture_and_string() {
    let mut ps: ParamSet = vec![
        ParamSetItem::new("tex", &Value::Texture(ParamList(vec!["found".to_string()]))),
        ParamSetItem::new("s", &Value::String(ParamList(vec!["found".to_string()]))),
    ]
    .into();
    assert_eq!(ps.find_one_texture("tex", "default".to_string()), "found");
    assert_eq!(ps.find_one_texture("s", "default".to_string()), "default");
    assert_eq!(ps.find_one_string("s", "default".to_string()), "found");
    assert_eq!(ps.find_one_string("tex", "default".to_string()), "default");
    assert_eq!(ps.find_one_texture("non-existent", "default".to_string()), "default");
}

#[test]
fn later_items_replace_earlier_ones() {
    let mut ps: ParamSet = vec![
        ParamSetItem::new("x", &floats(&["1"])),
        ParamSetItem::new("x", &floats(&["2"])),
    ]
    .into();
    assert_eq!(ps.find("x"), Some(floats(&["2"])));
}

#[test]
fn find_after_add_gives_back_the_values_and_marks_them_used() {
    let mut ps = ParamSet::default();
    assert!(!ps.report_unused());
    ps.add("a", floats(&["0.5"]));
    assert!(ps.report_unused());
    assert_eq!(ps.find("a"), Some(floats(&["0.5"])));
    assert!(!ps.report_unused());
    // Adding again makes the parameter unused again.
    ps.add("a", floats(&["7"]));
    assert!(ps.report_unused());
    assert_eq!(ps.find("a"), Some(floats(&["7"])));
}

#[test]
fn clone_keeps_entries() {
    let mut ps = ParamSet::default();
    ps.add("a", floats(&["1"]));
    let mut copy = ps.clone();
    assert_eq!(copy.find("a"), Some(floats(&["1"])));
    assert!(ps.report_unused());
}

#[test]
fn value_duplicate_is_equal() {
    let v = Value::RGB(ParamList(vec!["1".to_string(), "0".to_string(), "0".to_string()]));
    assert_eq!(v.duplicate(), v);
}

#[test]
fn one_parameter_sets() {
    let mut ps = make_bool_param_set("value", vec![true]);
    assert_eq!(ps.find_one_bool("value", false), true);
    assert_eq!(ps.find_one_bool("non-existent", false), false);
    let mut ps = make_string_param_set("value", vec!["found".to_string()]);
    assert_eq!(ps.find_one_string("value", "default".to_string()), "found".to_string());
    assert_eq!(ps.find_one_string("non-existent", "default".to_string()), "default".to_string());
    let mut ps = make_texture_param_set("value", vec!["found".to_string()]);
    assert_eq!(ps.find_one_texture("value", "default".to_string()), "found".to_string());
    assert_eq!(ps.find_one_texture("non-existent", "default".to_string()), "default".to_string());
}

fn s(x: &str) -> String {
    x.to_string()
}

#[test]
fn find_one_typed_literals() {
    let mut ps: ParamSet = vec![
        ParamSetItem::new("f", &floats(&["1.5", "2"])),
        ParamSetItem::new("i", &Value::Int(ParamList(vec![s("7"), s("8")]))),
        ParamSetItem::new("p2", &Value::Point2f(ParamList(vec![Point2 { x: s("1"), y: s("2") }]))),
        ParamSetItem::new("v2", &Value::Vector2f(ParamList(vec![Vector2 { x: s("3"), y: s("4") }]))),
        ParamSetItem::new("p3", &Value::Point3f(ParamList(vec![Point3 { x: s("1"), y: s("2"), z: s("3") }]))),
        ParamSetItem::new("v3", &Value::Vector3f(ParamList(vec![Vector3 { x: s("4"), y: s("5"), z: s("6") }]))),
        ParamSetItem::new("n", &Value::Normal3f(ParamList(vec![Normal3 { x: s("0"), y: s("0"), z: s("1") }]))),
        ParamSetItem::new("empty", &Value::Float(ParamList(vec![]))),
    ]
    .into();
    assert_eq!(ps.find_one_float("f", s("9")), "1.5");
    assert_eq!(ps.find_one_float("empty", s("9")), "9");
    assert_eq!(ps.find_one_float("missing", s("9")), "9");
    assert_eq!(ps.find_one_float("i", s("9")), "9");
    assert_eq!(ps.find_one_int("i", s("0")), "7");
    assert_eq!(ps.find_one_int("f", s("0")), "0");
    assert_eq!(ps.find_one_point2f("p2", Point2 { x: s("0"), y: s("0") }), Point2 { x: s("1"), y: s("2") });
    assert_eq!(ps.find_one_point2f("v2", Point2 { x: s("0"), y: s("0") }), Point2 { x: s("0"), y: s("0") });
    assert_eq!(ps.find_one_vector2f("v2", Vector2 { x: s("0"), y: s("0") }), Vector2 { x: s("3"), y: s("4") });
    assert_eq!(
        ps.find_one_point3f("p3", Point3 { x: s("0"), y: s("0"), z: s("0") }),
        Point3 { x: s("1"), y: s("2"), z: s("3") }
    );
    assert_eq!(
        ps.find_one_vector3f("v3", Vector3 { x: s("0"), y: s("0"), z: s("0") }),
        Vector3 { x: s("4"), y: s("5"), z: s("6") }
    );
    assert_eq!(
        ps.find_one_normal3f("n", Normal3 { x: s("9"), y: s("9"), z: s("9") }),
        Normal3 { x: s("0"), y: s("0"), z: s("1") }
    );
    assert_eq!(
        ps.find_one_normal3f("missing", Normal3 { x: s("9"), y: s("9"), z: s("9") }),
        Normal3 { x: s("9"), y: s("9"), z: s("9") }
    );
    assert!(!ps.report_unused());
}

#[test]
fn find_one_spectrum_literals() {
    let mut ps: ParamSet = vec![
        ParamSetItem::new("rgb", &Value::RGB(ParamList(vec![s("0.1"), s("0.2"), s("0.3"), s("0.4")]))),
        ParamSetItem::new("short", &Value::RGB(ParamList(vec![s("0.1"), s("0.2")]))),
        ParamSetItem::new("sampled", &Value::Spectrum(ParamList(vec![s("400"), s("0.5"), s("500"), s("0.7")]))),
        ParamSetItem::new("f", &floats(&["1"])),
    ]
    .into();
    let d = vec![s("1")];
    assert_eq!(ps.find_one_spectrum("rgb", d.clone()), vec![s("0.1"), s("0.2"), s("0.3")]);
    assert_eq!(ps.find_one_spectrum("short", d.clone()), d);
    assert_eq!(ps.find_one_spectrum("sampled", d.clone()), vec![s("0.5")]);
    assert_eq!(ps.find_one_spectrum("f", d.clone()), d);
    assert_eq!(ps.find_one_spectrum("missing", d.clone()), d);
    assert!(!ps.report_unused());
}

#[test]
fn unused_names_lists_parameters_never_looked_up() {
    let mut ps: ParamSet = vec![
        ParamSetItem::new("a", &floats(&["1"])),
        ParamSetItem::new("b", &floats(&["2"])),
        ParamSetItem::new("c", &floats(&["3"])),
    ]
    .into();
    assert_eq!(ps.unused_names(), vec![s("a"), s("b"), s("c")]);
    ps.find("b");
    assert_eq!(ps.unused_names(), vec![s("a"), s("c")]);
    ps.add("a", floats(&["4"]));
    ps.find("a");
    ps.find("c");
    assert!(ps.unused_names().is_empty());
    assert!(!ps.report_unused());
}
