use rush::commands::{
    direntry_dict, process_dict, Cd, EntryRecord, Limit, Ls, ProcessRecord, Rev, RushStream,
    SortBy,
};
use rush::error::{ErrorKind, ShellError};
use rush::format::format_size;
use rush::paths::resolve;
use rush::utils::time_to_english;
use rush::value::{DataDict, Descriptor, Primitive, Timestamp, Value};
use rush::views::{render_value, TableView};

fn record(name: &str, size: u64) -> Value {
    let mut d = DataDict::default();
    d.insert("name".to_string(), Value::string(name.to_string()));
    d.insert("size".to_string(), Value::size(size));
    Value::object(d)
}

fn names(v: &Value) -> Vec<String> {
    match v {
        Value::List(l) => l
            .iter()
            .map(|x| x.get_data_from_key("name").format())
            .collect(),
        _ => panic!("not a list"),
    }
}

fn list_of(items: Vec<Value>) -> RushStream {
    RushStream::Internal(Value::list(items))
}

#[test]
fn size_formatting() {
    assert_eq!(format_size(512), "512 bytes");
    assert_eq!(format_size(0), "0 bytes");
    assert_eq!(format_size(1023), "1023 bytes");
    assert_eq!(format_size(1024), "1.00 KB");
    assert_eq!(format_size(2048), "2.00 KB");
    assert_eq!(format_size(1536), "1.50 KB");
    assert_eq!(format_size(1048576), "1.00 MB");
    assert_eq!(format_size(1073741824), "1.00 GB");
    assert_eq!(format_size(5 * 1073741824 + 536870912), "5.50 GB");
}

#[test]
fn primitive_formatting() {
    assert_eq!(Primitive::Integer(-42).format(), "-42");
    assert_eq!(Primitive::Integer(i64::MIN).format(), "-9223372036854775808");
    assert_eq!(Primitive::String("hi".to_string()).format(), "hi");
    assert_eq!(Primitive::Nothing.format(), "");
    assert_eq!(Primitive::Size(2048).format(), "2.00 KB");
    let t = Timestamp { secs: 1431648000, nanos: 5 };
    assert_eq!(Primitive::Time(t).format(), "2015-05-15");
    assert_eq!(Value::list(vec![]).format(), "");
}

#[test]
fn missing_field_is_empty_primitive() {
    let r = record("a", 1);
    let v = r.get_data_from_key("colour");
    assert!(matches!(v, Value::Primitive(Primitive::Nothing)));
    assert_eq!(v.format(), "");
    assert!(matches!(r.get_data_from_key("size"), Value::Primitive(Primitive::Size(1))));
}

#[test]
fn data_dict_insert_keeps_position() {
    let mut d = DataDict::default();
    d.insert("a".to_string(), Value::integer(1));
    d.insert("b".to_string(), Value::integer(2));
    d.insert("a".to_string(), Value::integer(3));
    let names: Vec<String> = d.data_descriptors().into_iter().map(|x| x.name).collect();
    assert_eq!(names, vec!["a", "b"]);
    assert!(matches!(d.get_data_from_key("a"), Value::Primitive(Primitive::Integer(3))));
    let desc = Descriptor::new("b".to_string());
    assert!(matches!(d.get_data(&desc), Value::Primitive(Primitive::Integer(2))));
    assert!(matches!(d.get_data_from_key("none"), Value::Primitive(Primitive::Nothing)));
}

#[test]
fn sortby_is_stable() {
    let items = vec![record("b", 2), record("a", 1), record("c", 2), record("d", 1), record("e", 0)];
    let out = SortBy.run(&vec![Value::string("size".to_string())], list_of(items)).expect("sorts");
    assert_eq!(names(&out), vec!["b", "c", "a", "d", "e"]);
}

#[test]
fn sortby_strings_and_missing_fields() {
    let mut no_name = DataDict::default();
    no_name.insert("size".to_string(), Value::size(9));
    let items = vec![record("pear", 1), record("apple", 1), Value::object(no_name), record("Zed", 1)];
    let out = SortBy.run(&vec![Value::string("name".to_string())], list_of(items)).expect("sorts");
    assert_eq!(names(&out), vec!["pear", "apple", "Zed", ""]);
}

#[test]
fn sortby_keeps_keys_of_different_kinds_in_order() {
    let mut a = DataDict::default();
    a.insert("name".to_string(), Value::string("a".to_string()));
    a.insert("k".to_string(), Value::integer(1));
    let mut b = DataDict::default();
    b.insert("name".to_string(), Value::string("b".to_string()));
    b.insert("k".to_string(), Value::string("x".to_string()));
    let items = vec![Value::object(a), Value::object(b)];
    let out = SortBy.run(&vec![Value::string("k".to_string())], list_of(items)).expect("sorts");
    assert_eq!(names(&out), vec!["a", "b"]);
}

#[test]
fn sortby_errors() {
    let e = SortBy.run(&vec![], list_of(vec![record("a", 1)])).unwrap_err();
    assert_eq!(e.kind, ErrorKind::Stage);
    let e = SortBy.run(&vec![Value::string("x".to_string())], RushStream::Empty).unwrap_err();
    assert_eq!(e.kind, ErrorKind::Stage);
    let e = SortBy
        .run(&vec![Value::string("x".to_string())], list_of(vec![Value::integer(1)]))
        .unwrap_err();
    assert_eq!(e.kind, ErrorKind::Stage);
    let e = SortBy.run(&vec![Value::string("x".to_string())], RushStream::External).unwrap_err();
    assert_eq!(e.title(), "external streams not supported yet");
}

#[test]
fn take_edges() {
    let three = || vec![record("a", 1), record("b", 2), record("c", 3)];
    let out = Limit.run(&vec![Value::integer(0)], list_of(three())).unwrap();
    assert!(names(&out).is_empty());
    let out = Limit.run(&vec![Value::integer(-4)], list_of(three())).unwrap();
    assert!(names(&out).is_empty());
    let out = Limit.run(&vec![Value::integer(2)], list_of(three())).unwrap();
    assert_eq!(names(&out), vec!["a", "b"]);
    let out = Limit.run(&vec![Value::integer(3)], list_of(three())).unwrap();
    assert_eq!(names(&out), vec!["a", "b", "c"]);
    let out = Limit.run(&vec![Value::integer(99)], list_of(three())).unwrap();
    assert_eq!(names(&out), vec!["a", "b", "c"]);
}

#[test]
fn take_errors() {
    let e = Limit.run(&vec![], list_of(vec![])).unwrap_err();
    assert_eq!(e.title(), "No limit number provided");
    let e = Limit.run(&vec![Value::string("x".to_string())], list_of(vec![])).unwrap_err();
    assert_eq!(e.title(), "Expected an integer");
    let e = Limit.run(&vec![Value::integer(1)], RushStream::Empty).unwrap_err();
    assert_eq!(e.kind, ErrorKind::Stage);
}

#[test]
fn rev_twice_is_identity() {
    let items = vec![record("a", 1), record("b", 2), record("c", 3)];
    let once = Rev.run(list_of(items)).unwrap();
    assert_eq!(names(&once), vec!["c", "b", "a"]);
    let twice = Rev.run(RushStream::Internal(once)).unwrap();
    assert_eq!(names(&twice), vec!["a", "b", "c"]);
    let empty = Rev.run(list_of(vec![])).unwrap();
    assert!(names(&empty).is_empty());
    assert!(Rev.run(RushStream::Empty).is_err());
}

#[test]
fn records_of_entries_and_processes() {
    let d = direntry_dict(EntryRecord {
        name: "f.txt".to_string(),
        size: 2048,
        modified: Timestamp { secs: 0, nanos: 0 },
    });
    let cols: Vec<String> = d.data_descriptors().into_iter().map(|x| x.name).collect();
    assert_eq!(cols, vec!["name", "size", "modified"]);
    assert_eq!(d.get_data_from_key("modified").format(), "1970-01-01");
    let p = process_dict(ProcessRecord { name: "init".to_string(), pid: 1, memory: 4096 });
    let cols: Vec<String> = p.data_descriptors().into_iter().map(|x| x.name).collect();
    assert_eq!(cols, vec!["name", "pid", "memory"]);
    assert_eq!(p.get_data_from_key("memory").format(), "4.00 KB");
    let listed = Ls.run(vec![
        EntryRecord { name: "x".to_string(), size: 1, modified: Timestamp { secs: 0, nanos: 0 } },
    ]);
    assert_eq!(names(&listed), vec!["x"]);
}

#[test]
fn path_resolution() {
    let cwd = "/work".to_string();
    let home = Some("/home/u".to_string());
    assert_eq!(resolve(&"src".to_string(), &cwd, home.clone()), "/work/src");
    assert_eq!(resolve(&"src".to_string(), &"/".to_string(), home.clone()), "/src");
    assert_eq!(resolve(&"/etc".to_string(), &cwd, home.clone()), "/etc");
    assert_eq!(resolve(&"~".to_string(), &cwd, home.clone()), "/home/u");
    assert_eq!(resolve(&"~/docs".to_string(), &cwd, home.clone()), "/home/u/docs");
    assert_eq!(resolve(&"~/docs".to_string(), &cwd, None), "~/docs");
    assert_eq!(resolve(&"~x".to_string(), &cwd, home), "/work/~x");
}

#[test]
fn cd_targets() {
    let cwd = "/work".to_string();
    let t = Cd.target(&vec![], &cwd, Some("/home/u".to_string())).unwrap();
    assert_eq!(t, "/home/u");
    let e = Cd.target(&vec![], &cwd, None).unwrap_err();
    assert_eq!(e.title(), "cd : Could not find home path");
    let t = Cd.target(&vec![Value::string("sub".to_string())], &cwd, None).unwrap();
    assert_eq!(t, "/work/sub");
    let e = Cd.run("/nope".to_string(), false).unwrap_err();
    assert_eq!(e.title(), "cd : no such directory");
    let v = Cd.run("/tmp".to_string(), true).unwrap();
    assert!(matches!(v, Value::Primitive(Primitive::String(s)) if s == "/tmp"));
    let t = Ls.target(&vec![], &cwd, None);
    assert_eq!(t, "/work");
}

#[test]
fn table_rendering() {
    let items = vec![record("a", 2048), record("b", 1)];
    let t = TableView::from_values(&items);
    assert_eq!(t.headers, vec!["name", "size"]);
    assert_eq!(t.records, vec![vec!["a", "2.00 KB"], vec!["b", "1 bytes"]]);
    let lines = render_value(&Value::list(items));
    assert_eq!(lines.len(), 1);
    assert!(lines[0].contains("name"));
    assert!(lines[0].contains("2.00 KB"));
    assert!(lines[0].contains('┌'));
    assert!(render_value(&Value::integer(3)).is_empty());
    assert!(TableView::from_values(&vec![]).headers.is_empty());
}

#[test]
fn english_ages() {
    assert_eq!(time_to_english(5), "5 secs ago");
    assert_eq!(time_to_english(60), "min ago");
    assert_eq!(time_to_english(600), "10 mins ago");
    assert_eq!(time_to_english(3000), "an hr ago");
    assert_eq!(time_to_english(7200), "2 hrs ago");
    assert_eq!(time_to_english(30 * 3600), "a day ago");
    assert_eq!(time_to_english(3 * 86400), "3 days ago");
    assert_eq!(time_to_english(40 * 86400), "a month ago");
    assert_eq!(time_to_english(100 * 86400), "3 months ago");
    assert_eq!(time_to_english(400 * 86400), "one year ago");
    assert_eq!(time_to_english(800 * 86400), "2 years ago");
}

#[test]
fn shell_error_title() {
    let e = ShellError::new("boom".to_string());
    assert_eq!(e.title(), "boom");
    assert_eq!(e.kind, ErrorKind::Stage);
}
