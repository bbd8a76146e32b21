use b3d2glb::cli::{color_parts, material_text, scan_args, ArgEnd, ArgItem, MaterialText};

fn args(v: &[&str]) -> Vec<String> {
    let mut out = vec!["b3d2glb".to_string()];
    out.extend(v.iter().map(|s| s.to_string()));
    out
}

#[test]
fn options_and_inputs() {
    let (items, end) = scan_args(&args(&["-o", "out", "--glb", "a.b3d", "-m", "0.0m0.9r", "-C", "1,0,0", "--context", "/g", "b.b3d"]));
    assert!(matches!(end, ArgEnd::Complete));
    assert_eq!(items.len(), 7);
    assert!(matches!(&items[0], ArgItem::Out(s) if s == "out"));
    assert!(matches!(&items[1], ArgItem::Glb));
    assert!(matches!(&items[2], ArgItem::Input(s) if s == "a.b3d"));
    assert!(matches!(&items[3], ArgItem::Material(s) if s == "0.0m0.9r"));
    assert!(matches!(&items[4], ArgItem::Color(s) if s == "1,0,0"));
    assert!(matches!(&items[5], ArgItem::Context(s) if s == "/g"));
    assert!(matches!(&items[6], ArgItem::Input(s) if s == "b.b3d"));
}

#[test]
fn missing_value() {
    let (items, end) = scan_args(&args(&["a.b3d", "-o"]));
    assert_eq!(items.len(), 1);
    assert!(matches!(end, ArgEnd::Error(m) if m == "-o/--out requires a value"));
    let (_, end) = scan_args(&args(&["--color"]));
    assert!(matches!(end, ArgEnd::Error(m) if m == "-C/--color requires a value"));
    let (_, end) = scan_args(&args(&["-m"]));
    assert!(matches!(end, ArgEnd::Error(m) if m == "-m/--material requires a value"));
    let (_, end) = scan_args(&args(&["-c"]));
    assert!(matches!(end, ArgEnd::Error(m) if m == "-c/--context requires a value"));
}

#[test]
fn unknown_option_stops() {
    let (items, end) = scan_args(&args(&["-b", "-x", "a.b3d"]));
    assert_eq!(items.len(), 1);
    assert!(matches!(end, ArgEnd::Error(m) if m == "unknown option: -x"));
}

#[test]
fn help_stops() {
    let (items, end) = scan_args(&args(&["a.b3d", "-?", "-x"]));
    assert_eq!(items.len(), 1);
    assert!(matches!(end, ArgEnd::Help));
    let (_, end) = scan_args(&args(&["--help"]));
    assert!(matches!(end, ArgEnd::Help));
}

#[test]
fn no_inputs() {
    let (items, end) = scan_args(&args(&["-b"]));
    assert_eq!(items.len(), 1);
    assert!(matches!(end, ArgEnd::Error(m) if m == "no input files or directories specified"));
    let (_, end) = scan_args(&args(&[]));
    assert!(matches!(end, ArgEnd::Error(m) if m == "no input files or directories specified"));
}

#[test]
fn value_may_look_like_an_option() {
    let (items, end) = scan_args(&args(&["-o", "-b", "x"]));
    assert!(matches!(end, ArgEnd::Complete));
    assert!(matches!(&items[0], ArgItem::Out(s) if s == "-b"));
    assert!(matches!(&items[1], ArgItem::Input(s) if s == "x"));
}

#[test]
fn material_forms() {
    assert_eq!(material_text("0.0m0.9r"), MaterialText::Suffixed("0.0".into(), "0.9".into()));
    assert_eq!(material_text("0.5, 0.3"), MaterialText::Comma("0.5".into(), " 0.3".into()));
    assert_eq!(material_text("1m2"), MaterialText::Invalid);
    assert_eq!(material_text("1m2,3"), MaterialText::Comma("1m2".into(), "3".into()));
    assert_eq!(material_text("mr"), MaterialText::Suffixed("".into(), "".into()));
    assert_eq!(material_text("m"), MaterialText::Invalid);
}

#[test]
fn color_pieces() {
    assert_eq!(color_parts("1,0.5,0"), Some(vec!["1".to_string(), "0.5".into(), "0".into()]));
    assert_eq!(color_parts("1, 2,3,4"), Some(vec!["1".to_string(), " 2".into(), "3".into(), "4".into()]));
    assert_eq!(color_parts("1,2"), None);
    assert_eq!(color_parts("1,2,3,4,5"), None);
    assert_eq!(color_parts(",,"), Some(vec![String::new(), String::new(), String::new()]));
}
