use pbrt::api::MockAPI;
use pbrt::paramset::{ParamList, Value};
use pbrt::parser::params::{add_param, lookup_type, ParamListItem, ParamType};
use pbrt::parser::scene::{parse, try_parse, Command};
use pbrt::parser::{create_from_string, dequote_string, is_quoted_string, Error};

#[test]
fn tokenizer() {
    let mut t = create_from_string(r#"Sampler "halton" "integer pixelsamples" 128"#.as_bytes());
    assert_eq!(Some(Ok("Sampler")), t.next());
    assert_eq!(Some(Ok(r#""halton""#)), t.next());
    assert_eq!(Some(Ok(r#""integer pixelsamples""#)), t.next());
    assert_eq!(Some(Ok("128")), t.next());
    assert_eq!(None, t.next());

    let mut t = create_from_string(r#"Sampler "128"#.as_bytes());
    assert_eq!(Some(Ok("Sampler")), t.next());
    assert_eq!(Some(Err(Error::EOF)), t.next());
}

#[test]
fn parser() {
    let _api = MockAPI::default();
    let t = create_from_string(r#"Sampler "halton" "integer pixelsamples" 128"#.as_bytes());
    let (_commands, res) = parse(t);
    assert!(res.is_ok(), "error from parse: {:?}", res.err().unwrap());
}

#[test]
fn tokenizer_brackets_comments_and_newlines() {
    let mut t = create_from_string(b"[1 2]# note\n\"a\nb\"");
    assert_eq!(Some(Ok("[")), t.next());
    assert_eq!(Some(Ok("1")), t.next());
    assert_eq!(Some(Ok("2")), t.next());
    assert_eq!(Some(Ok("]")), t.next());
    assert_eq!(Some(Ok("# note")), t.next());
    assert_eq!(Some(Err(Error::UnterminatedString)), t.next());
    assert_eq!(Some(Ok("b")), t.next());
    assert_eq!(Some(Err(Error::EOF)), t.next());
    assert_eq!(None, t.next());
}

#[test]
fn tokenizer_reports_invalid_utf8() {
    let mut t = create_from_string(b"ok \xff\xfe end");
    assert_eq!(Some(Ok("ok")), t.next());
    assert!(matches!(t.next(), Some(Err(Error::StrError(_)))));
    assert_eq!(Some(Ok("end")), t.next());
    assert_eq!(None, t.next());
}

#[test]
fn quoting() {
    assert!(is_quoted_string("\"abc\""));
    assert!(is_quoted_string("\"\""));
    assert!(!is_quoted_string("\""));
    assert!(!is_quoted_string("abc"));
    assert_eq!(dequote_string("\"abc\""), Ok("abc"));
    assert_eq!(dequote_string("abc"), Err(Error::Unquoted("abc".to_string())));
}

#[test]
fn lookup_type_splits_declarations() {
    assert_eq!(lookup_type("integer pixelsamples"), Some((ParamType::Int, "pixelsamples")));
    assert_eq!(lookup_type("  color\t Kd  "), Some((ParamType::RGB, "Kd")));
    assert_eq!(lookup_type("rgb Kd"), Some((ParamType::RGB, "Kd")));
    assert_eq!(lookup_type("float"), None);
    assert_eq!(lookup_type("float   "), None);
    assert_eq!(lookup_type("vector4 v"), None);
    assert_eq!(lookup_type(""), None);
}

fn item<'a>(name: &str, nums: &[&str], strs: Vec<&'a str>) -> ParamListItem<'a> {
    ParamListItem {
        name: name.to_string(),
        double_values: nums.iter().map(|s| s.to_string()).collect(),
        string_values: strs,
    }
}

fn s(v: &[&str]) -> ParamList<String> {
    ParamList(v.iter().map(|x| x.to_string()).collect())
}

#[test]
fn add_param_by_type() {
    let mut ps = pbrt::paramset::ParamSet::default();
    add_param(&mut ps, item("integer n", &["128"], vec![]));
    add_param(&mut ps, item("point3 p", &["1", "2", "3", "4", "5", "6", "7"], vec![]));
    add_param(&mut ps, item("rgb c", &["1", "2", "3", "4"], vec![]));
    add_param(&mut ps, item("xyz x", &["1", "2", "3"], vec![]));
    add_param(&mut ps, item("blackbody b", &["6500", "1", "2"], vec![]));
    add_param(&mut ps, item("bool on", &[], vec!["\"true\"", "true", "false"]));
    add_param(&mut ps, item("texture t", &[], vec!["\"wood\""]));
    add_param(&mut ps, item("texture two", &[], vec!["\"a\"", "\"b\""]));
    add_param(&mut ps, item("string f", &[], vec!["\"a.exr\""]));
    add_param(&mut ps, item("spectrum sf", &[], vec!["\"file.spd\""]));
    add_param(&mut ps, item("spectrum sv", &["300", "0.3", "400"], vec![]));
    add_param(&mut ps, item("float wrong", &[], vec!["\"x\""]));
    add_param(&mut ps, item("string none", &["1"], vec![]));
    add_param(&mut ps, item("point2 q", &["1", "2", "3"], vec![]));
    assert_eq!(ps.find("n"), Some(Value::Int(s(&["128"]))));
    assert_eq!(
        ps.find("p"),
        Some(Value::Point3f(ParamList(vec![
            pbrt::geometry::Point3 { x: "1".to_string(), y: "2".to_string(), z: "3".to_string() },
            pbrt::geometry::Point3 { x: "4".to_string(), y: "5".to_string(), z: "6".to_string() },
        ])))
    );
    assert_eq!(
        ps.find("q"),
        Some(Value::Point2f(ParamList(vec![pbrt::geometry::Point2 {
            x: "1".to_string(),
            y: "2".to_string()
        }])))
    );
    assert_eq!(ps.find("c"), Some(Value::RGB(s(&["1", "2", "3"]))));
    assert_eq!(ps.find("x"), Some(Value::RGB(s(&["1", "2", "3"]))));
    assert_eq!(ps.find("b"), Some(Value::Blackbody(s(&["6500", "1"]))));
    assert_eq!(ps.find("on"), Some(Value::Bool(ParamList(vec![false, true, false]))));
    assert_eq!(ps.find("t"), Some(Value::Texture(s(&["\"wood\""]))));
    assert_eq!(ps.find("two"), None);
    assert_eq!(ps.find("f"), Some(Value::String(s(&["\"a.exr\""]))));
    assert_eq!(ps.find("sf"), Some(Value::SpectrumFiles(s(&["\"file.spd\""]))));
    assert_eq!(ps.find("sv"), Some(Value::Spectrum(s(&["300", "0.3"]))));
    assert_eq!(ps.find("wrong"), None);
    assert_eq!(ps.find("none"), None);
    assert!(!ps.report_unused());
}

#[test]
fn parse_collects_commands() {
    let scene = br#"
# a comment
Film "image" "integer xresolution" [ 400 ] "string filename" "out.png"
Sampler "halton" "integer pixelsamples" 128
LookAt 0 1 2  3 4 5  0 0 1
Scale -1 1 1
AttributeBegin
AttributeEnd
Accelerator "bvh"
"#;
    let (commands, res) = parse(create_from_string(scene));
    assert!(res.is_ok());
    assert_eq!(commands.len(), 7);
    match &commands[0] {
        Command::Film { name, params } => {
            assert_eq!(name, "image");
            let mut params = params.clone();
            assert_eq!(params.find("xresolution"), Some(Value::Int(s(&["400"]))));
            assert_eq!(params.find_one_string("filename", String::new()), "\"out.png\"");
        }
        _ => panic!("expected Film"),
    }
    match &commands[2] {
        Command::LookAt { eye, look, up } => {
            assert_eq!(eye, &["0".to_string(), "1".to_string(), "2".to_string()]);
            assert_eq!(look, &["3".to_string(), "4".to_string(), "5".to_string()]);
            assert_eq!(up, &["0".to_string(), "0".to_string(), "1".to_string()]);
        }
        _ => panic!("expected LookAt"),
    }
    assert!(matches!(&commands[3], Command::Scale(v) if v[0] == "-1"));
    assert!(matches!(commands[4], Command::AttributeBegin));
    assert!(matches!(commands[5], Command::AttributeEnd));
    assert!(matches!(&commands[6], Command::Accelerator { name, .. } if name == "bvh"));
}

#[test]
fn parse_empty_and_comment_only() {
    let (commands, res) = parse(create_from_string(b""));
    assert!(commands.is_empty());
    assert_eq!(res, Ok(()));
    let (commands, res) = parse(create_from_string(b"  # only a comment\n\t\r\n"));
    assert!(commands.is_empty());
    assert_eq!(res, Ok(()));
}

#[test]
fn parse_errors() {
    let (c, res) = parse(create_from_string(b"Camera \"perspective\""));
    assert!(c.is_empty());
    assert_eq!(res, Err(Error::NotImplemented("Camera".to_string())));

    let (c, res) = parse(create_from_string(b"AttributeBegin Bogus"));
    assert_eq!(c.len(), 1);
    assert_eq!(res, Err(Error::Syntax("Bogus".to_string())));

    let (_, res) = parse(create_from_string(b"Scale 1 x 1"));
    assert_eq!(res, Err(Error::NumberErr("x".to_string())));

    let (_, res) = parse(create_from_string(b"LookAt 1 2 3"));
    assert_eq!(res, Err(Error::EOF));

    let (_, res) = parse(create_from_string(b"Film image"));
    assert_eq!(res, Err(Error::Unquoted("image".to_string())));

    let (_, res) = parse(create_from_string(b"Film \"image\" \"float a\" [ 1 \"b\" ]"));
    assert_eq!(res, Err(Error::MixedParameters));

    let (_, res) = parse(create_from_string(b"Film \"image\" \"float a\" [ 1 2"));
    assert_eq!(res, Err(Error::EOF));

    let (_, res) = parse(create_from_string(b"Film \"image\" \"string a\" \"b\nc\""));
    assert_eq!(res, Err(Error::UnterminatedString));

    let (_, res) = parse(create_from_string(b"Sampler"));
    assert_eq!(res, Err(Error::EOF));
}

#[test]
fn try_parse_reports_escaped_strings() {
    assert!(try_parse(create_from_string(b"Film \"a\\\"b\"")).is_none());
    assert!(try_parse(create_from_string(b"Film \"image\" \"string s\" \"x\\ty\"")).is_none());

    let (c, res) = try_parse(create_from_string(b"Film \"image\" AttributeBegin")).unwrap();
    assert_eq!(c.len(), 2);
    assert_eq!(res, Ok(()));

    let (c, res) = try_parse(create_from_string(b"AttributeBegin Bogus")).unwrap();
    assert_eq!(c.len(), 1);
    assert_eq!(res, Err(Error::Syntax("Bogus".to_string())));
}

#[test]
fn token_stream_stays_ended() {
    let mut t = create_from_string(b"a[b]\"c d\"#e f\r\ng  \t ");
    let expected = ["a", "[", "b", "]", "\"c d\"", "#e f", "g"];
    for e in expected.iter() {
        assert_eq!(Some(Ok(*e)), t.next());
    }
    assert_eq!(None, t.next());
    assert_eq!(None, t.next());
    assert_eq!(None, t.next());
}
