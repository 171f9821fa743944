use amodinfo::blueprint::find_module_source;
use amodinfo::error::CLIError;

const BLUEPRINT: &str = "// Copyright header

cc_defaults {
    name: \"idmap2_defaults\",
    cflags: [\"-Wall\"],
}

cc_library {
    name: \"libidmap2\",
    defaults: [\"idmap2_defaults\"],
    srcs: [\"libidmap2/Idmap.cpp\"],
}

cc_binary {
    name: \"idmap2\",
    defaults: [\"idmap2_defaults\"],
    srcs: [\"idmap2/Main.cpp\"],
    target: {
        android: {
            shared_libs: [\"libbase\"],
        },
    },

}

cc_test {
    name: \"idmap2_tests\",
}
";

#[test]
fn test_find_module_source() {
    assert!(find_module_source("", "").unwrap().is_none());
    assert!(find_module_source(BLUEPRINT, "none").unwrap().is_none());
    let source = find_module_source(BLUEPRINT, "idmap2").unwrap().unwrap();
    assert!(source.starts_with("cc_binary {\n    name: \"idmap2\",\n"));
    assert!(source.ends_with("},\n\n}"));
}

#[test]
fn locate_first_block_and_whole_text() {
    let source = find_module_source(BLUEPRINT, "libidmap2").unwrap().unwrap();
    assert_eq!(
        source,
        "cc_library {\n    name: \"libidmap2\",\n    defaults: [\"idmap2_defaults\"],\n    srcs: [\"libidmap2/Idmap.cpp\"],\n}"
    );
    let source = find_module_source(BLUEPRINT, "idmap2_tests").unwrap().unwrap();
    assert_eq!(source, "cc_test {\n    name: \"idmap2_tests\",\n}");
}

#[test]
fn locate_concrete_scenario() {
    let doc = "cc_binary {\n    name: \"idmap2\",\n    srcs: [\"a.cpp\"],\n}\n";
    let source = find_module_source(doc, "idmap2").unwrap().unwrap();
    assert_eq!(source, "cc_binary {\n    name: \"idmap2\",\n    srcs: [\"a.cpp\"],\n}");
    assert!(find_module_source(doc, "absent").unwrap().is_none());
}

#[test]
fn locate_takes_name_literally() {
    let doc = "cc_binary {\n    name: \"axb\",\n}\n";
    assert!(find_module_source(doc, "a.b").unwrap().is_none());
    assert!(find_module_source(doc, "a(").unwrap().is_none());
    assert!(find_module_source(doc, "axb").unwrap().is_some());
}

#[test]
fn locate_needs_block_closed_at_column_zero() {
    let doc = "cc_binary {\n    name: \"x\",\n    }\n";
    assert!(find_module_source(doc, "x").unwrap().is_none());
}

#[test]
fn cli_error_text() {
    let e = CLIError("bad argument".to_string());
    assert_eq!(e.to_string(), "bad argument");
}
