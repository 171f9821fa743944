use amodinfo::error::ParseError;
use amodinfo::json::Json;
use amodinfo::modinfo::ModuleInfo;
use amodinfo::record::{decode, decode_json, DecodeError};

const MODULE_INFO_LITE: &str = "{
  \"idmap2\": { \"class\": [\"EXECUTABLES\"], \"path\": [\"frameworks/base/cmds/idmap2\"], \"tags\": [\"optional\"], \"installed\": [\"out/target/product/generic/system/bin/idmap2\"], \"module_name\": \"idmap2\", \"dependencies\": [\"libbase\", \"libidmap2\"], \"shared_libs\": [\"libbase\", \"libcutils\"], \"system_shared_libs\": [\"libc\", \"libm\", \"libdl\"], \"supported_variants\": [\"DEVICE\"], \"is_unit_test\": \"\" },
  \"libandroidfw\": { \"class\": [\"SHARED_LIBRARIES\"], \"path\": [\"frameworks/base/libs/androidfw\"], \"installed\": [], \"module_name\": \"libandroidfw\", \"static_libs\": [\"libziparchive\"] },
  \"libziparchive\": { \"class\": [\"STATIC_LIBRARIES\"], \"path\": [\"system/libziparchive\"], \"installed\": [], \"module_name\": \"libziparchive\", \"dependencies\": null },
  \"zxing-core\": { \"class\": [\"JAVA_LIBRARIES\"], \"path\": [\"external/zxing\"], \"installed\": [\"out/target/common/obj/JAVA_LIBRARIES/zxing-core_intermediates/javalib.jar\"], \"module_name\": \"zxing-core\", \"srcs\": [] }
}
";

fn parse_err(data: &str) -> ParseError {
    match ModuleInfo::try_from(data) {
        Ok(_) => panic!("document accepted"),
        Err(e) => e,
    }
}

#[test]
fn test_try_from() {
    // entirely wrong input
    assert!(ModuleInfo::try_from("").is_err());
    assert!(ModuleInfo::try_from("foo").is_err());
    assert!(ModuleInfo::try_from("{").is_err());

    // corrupt input
    assert!(ModuleInfo::try_from("{\n foo\": { ... }\n}\n").is_err());
    assert!(ModuleInfo::try_from("{\n \"foo: { ... }\n}\n").is_err());
    assert!(ModuleInfo::try_from("{\n \"foo\": ... }\n}\n").is_err());
    assert!(ModuleInfo::try_from("{\n \"foo\": { ... \n}\n").is_err());

    // correct input
    let modinfo = ModuleInfo::try_from(MODULE_INFO_LITE).unwrap();
    assert_eq!(modinfo.module_names().len(), 4);
}

#[test]
fn test_module_names() {
    let modinfo = ModuleInfo::try_from(MODULE_INFO_LITE).unwrap();
    let names = modinfo.module_names();
    assert_eq!(names.len(), 4);
    let mut sorted = names.clone();
    sorted.sort();
    assert_eq!(names, sorted);
    assert!(names.contains(&"zxing-core"));
}

#[test]
fn test_find() {
    let modinfo = ModuleInfo::try_from(MODULE_INFO_LITE).unwrap();
    let module = modinfo.find("zxing-core").unwrap().unwrap();
    assert_eq!(module.name, "zxing-core");
    assert_eq!(module.path, ["external/zxing"]);

    let module = modinfo.find("does-not-exist");
    assert!(module.is_none());
}

#[test]
fn names_in_document_order() {
    let modinfo = ModuleInfo::try_from(MODULE_INFO_LITE).unwrap();
    assert_eq!(
        modinfo.module_names(),
        vec!["idmap2", "libandroidfw", "libziparchive", "zxing-core"]
    );
}

#[test]
fn find_absent_iff_not_listed() {
    let modinfo = ModuleInfo::try_from(MODULE_INFO_LITE).unwrap();
    for name in modinfo.module_names() {
        assert!(modinfo.find(name).is_some());
    }
    for name in ["", "idmap", "idmap22", "Idmap2", "zxing-cor", "zzz", "a"] {
        assert!(modinfo.find(name).is_none());
    }
}

#[test]
fn find_twice_gives_same_record() {
    let modinfo = ModuleInfo::try_from(MODULE_INFO_LITE).unwrap();
    let a = modinfo.find("idmap2").unwrap().unwrap();
    let b = modinfo.find("idmap2").unwrap().unwrap();
    assert_eq!(a, b);
    assert!(modinfo.find("nope").is_none() && modinfo.find("nope").is_none());
}

#[test]
fn found_record_carries_its_name() {
    let modinfo = ModuleInfo::try_from(MODULE_INFO_LITE).unwrap();
    for name in modinfo.module_names() {
        assert_eq!(modinfo.find(name).unwrap().unwrap().name, name);
    }
}

#[test]
fn record_fields_decoded() {
    let modinfo = ModuleInfo::try_from(MODULE_INFO_LITE).unwrap();
    let m = modinfo.find("idmap2").unwrap().unwrap();
    assert_eq!(m.class, ["EXECUTABLES"]);
    assert_eq!(m.path, ["frameworks/base/cmds/idmap2"]);
    assert_eq!(m.installed, ["out/target/product/generic/system/bin/idmap2"]);
    assert_eq!(m.dependencies, ["libbase", "libidmap2"]);
    assert_eq!(m.shared_libs, ["libbase", "libcutils"]);
    assert_eq!(m.system_shared_libs, ["libc", "libm", "libdl"]);
    assert_eq!(m.supported_variants, ["DEVICE"]);
    assert!(m.static_libs.is_empty());

    let m = modinfo.find("libandroidfw").unwrap().unwrap();
    assert_eq!(m.static_libs, ["libziparchive"]);
    assert!(m.dependencies.is_empty());

    // null in an optional list reads as empty
    let m = modinfo.find("libziparchive").unwrap().unwrap();
    assert!(m.dependencies.is_empty());
}

#[test]
fn closing_brace_without_final_line_feed() {
    let modinfo = ModuleInfo::try_from("{\n  \"foo\": { }\n}").unwrap();
    assert_eq!(modinfo.module_names(), vec!["foo"]);
    let modinfo = ModuleInfo::try_from("{\n}").unwrap();
    assert!(modinfo.module_names().is_empty());
}

#[test]
fn parse_error_text() {
    let e = parse_err("{\n  \"b\": { },\n  \"a\": { }\n}\n");
    assert_eq!(e.to_string(), "3: module-json: names out of order");
    let e = ParseError { lineno: 1207, message: "m".to_string() };
    assert_eq!(e.to_string(), "1207: m");
    let e = ParseError { lineno: 0, message: String::new() };
    assert_eq!(e.to_string(), "0: ");
}

#[test]
fn payload_may_span_lines() {
    let doc = "{\n  \"a\": { \"module_name\": \"a\",\n    \"path\": [\"p\"], \"class\": [] },\n  \"b\": { }\n}\n";
    let modinfo = ModuleInfo::try_from(doc).unwrap();
    assert_eq!(modinfo.module_names(), vec!["a", "b"]);
    assert_eq!(modinfo.find("a").unwrap().unwrap().path, ["p"]);
}

#[test]
fn empty_document() {
    let modinfo = ModuleInfo::try_from("{\n}\n").unwrap();
    assert!(modinfo.module_names().is_empty());
    assert!(modinfo.find("foo").is_none());
    assert!(modinfo.find("").is_none());
}

#[test]
fn malformed_documents_rejected() {
    let e = parse_err("");
    assert_eq!(e.lineno, 1);
    assert_eq!(e.message, "unexpected start of module-info.json");

    let e = parse_err("  \"foo\": { }\n}\n");
    assert_eq!(e.lineno, 1);
    assert_eq!(e.message, "unexpected start of module-info.json");

    let e = parse_err("{\n  \"foo\": { }\n}x");
    assert_eq!(e.lineno, 3);
    assert_eq!(e.message, "unexpected end of module-info.json");

    // the closing brace must stand on its own line
    let e = parse_err("{\n  \"foo\": { }}\n");
    assert_eq!(e.lineno, 2);
    assert_eq!(e.message, "unexpected end of module-info.json");

    // a name without its closing quote, on line 3
    let e = parse_err("{\n  \"a\": { },\n  \"b: { }\n}\n");
    assert_eq!(e.lineno, 3);
    assert_eq!(e.message, "module-json: name element not terminated");

    // the same, with a later entry whose quote would otherwise close it
    let e = parse_err("{\n  \"a: { },\n  \"b\": { }\n}\n");
    assert_eq!(e.lineno, 2);
    assert_eq!(e.message, "module-json: name element not terminated");

    // a payload without its closing brace
    let e = parse_err("{\n  \"foo\": { \"x\": [] \n}\n");
    assert_eq!(e.lineno, 2);
    assert_eq!(e.message, "module-json: corrupt data");
}

#[test]
fn unsorted_names_rejected() {
    let e = parse_err("{\n  \"b\": { },\n  \"a\": { }\n}\n");
    assert_eq!(e.lineno, 3);
    assert_eq!(e.message, "module-json: names out of order");
}

#[test]
fn duplicate_names_find_first() {
    let doc = "{\n  \"a\": { \"module_name\": \"a\", \"path\": [\"one\"], \"class\": [] },\n  \"a\": { \"module_name\": \"a\", \"path\": [\"two\"], \"class\": [] }\n}\n";
    let modinfo = ModuleInfo::try_from(doc).unwrap();
    assert_eq!(modinfo.module_names(), vec!["a", "a"]);
    assert_eq!(modinfo.find("a").unwrap().unwrap().path, ["one"]);
}

#[test]
fn concrete_foo_scenario() {
    let doc = "{\n  \"foo\": { \"module_name\": \"foo\", \"path\": [\"p\"], \"installed\": [], \"class\": [\"c\"] }\n}\n";
    let modinfo = ModuleInfo::try_from(doc).unwrap();
    assert_eq!(modinfo.module_names(), vec!["foo"]);
    let m = modinfo.find("foo").unwrap().unwrap();
    assert_eq!(m.name, "foo");
    assert_eq!(m.path, ["p"]);
    assert_eq!(m.class, ["c"]);
    assert!(m.installed.is_empty());
    assert!(modinfo.find("bar").is_none());
}

#[test]
fn non_ascii_names() {
    let doc = "{\n  \"caf\u{e9}\": { \"module_name\": \"caf\u{e9}\", \"path\": [\"\u{fc}\"], \"class\": [] },\n  \"z\": { \"module_name\": \"z\", \"path\": [], \"class\": [] }\n}\n";
    let modinfo = ModuleInfo::try_from(doc).unwrap();
    assert_eq!(modinfo.module_names(), vec!["caf\u{e9}", "z"]);
    assert_eq!(modinfo.find("caf\u{e9}").unwrap().unwrap().path, ["\u{fc}"]);
}

#[test]
fn decode_errors() {
    assert!(matches!(decode("{ not json"), Err(DecodeError::Syntax(_))));
    assert!(matches!(decode("[1, 2]"), Err(DecodeError::NotAnObject)));
    match decode("{ \"path\": [], \"class\": [] }") {
        Err(DecodeError::MissingField(k)) => assert_eq!(k, "module_name"),
        _ => panic!("expected a missing field"),
    }
    match decode("{ \"module_name\": \"m\", \"class\": [] }") {
        Err(DecodeError::MissingField(k)) => assert_eq!(k, "path"),
        _ => panic!("expected a missing field"),
    }
    match decode("{ \"module_name\": 3, \"path\": [], \"class\": [] }") {
        Err(DecodeError::BadField(k)) => assert_eq!(k, "module_name"),
        _ => panic!("expected a bad field"),
    }
    match decode("{ \"module_name\": \"m\", \"path\": [1], \"class\": [] }") {
        Err(DecodeError::BadField(k)) => assert_eq!(k, "path"),
        _ => panic!("expected a bad field"),
    }
    match decode("{ \"module_name\": \"m\", \"path\": null, \"class\": [] }") {
        Err(DecodeError::BadField(k)) => assert_eq!(k, "path"),
        _ => panic!("expected a bad field"),
    }
    match decode("{ \"module_name\": \"m\", \"path\": [], \"class\": [], \"shared_libs\": \"x\" }") {
        Err(DecodeError::BadField(k)) => assert_eq!(k, "shared_libs"),
        _ => panic!("expected a bad field"),
    }
}

#[test]
fn decode_reads_escapes_and_ignores_unknown_members() {
    let m = decode("{ \"module_name\": \"a\\\"b\", \"path\": [\"x\\u0041\"], \"class\": [], \"extra\": {\"k\": 1.5} }").unwrap();
    assert_eq!(m.name, "a\"b");
    assert_eq!(m.path, ["xA"]);
}

#[test]
fn decode_json_on_values() {
    let j = Json::Object(vec![
        ("module_name".to_string(), Json::Str("m".to_string())),
        ("path".to_string(), Json::Array(vec![Json::Str("p".to_string())])),
        ("class".to_string(), Json::Array(vec![])),
        ("installed".to_string(), Json::Null),
    ]);
    let m = decode_json(&j).unwrap();
    assert_eq!(m.name, "m");
    assert_eq!(m.path, ["p"]);
    assert!(m.installed.is_empty());
    assert!(matches!(decode_json(&Json::Number("1".to_string())), Err(DecodeError::NotAnObject)));
}

#[test]
fn decode_failure_leaves_index_usable() {
    let doc = "{\n  \"a\": { \"module_name\": \"a\" },\n  \"b\": { \"module_name\": \"b\", \"path\": [], \"class\": [] }\n}\n";
    let modinfo = ModuleInfo::try_from(doc).unwrap();
    assert!(matches!(modinfo.find("a"), Some(Err(DecodeError::MissingField(_)))));
    assert_eq!(modinfo.find("b").unwrap().unwrap().name, "b");
}
