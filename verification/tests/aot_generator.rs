use makepad_platform::jit::TargetOs;
use makepad_platform::aot_generator::{
    collect, dump_dir, embedded_source_path, generate, needs_write, shader_hash, source_has_entry,
    strip_no_mangle, DumpEntry, DumpedShader, EMPTY_TABLE,
};

fn entry(name: &str, source: Option<&str>) -> DumpEntry {
    DumpEntry {
        name: name.to_string(),
        source: source.map(|s| s.to_string()),
    }
}

fn hashes(shaders: &Vec<DumpedShader>) -> Vec<u64> {
    shaders.iter().map(|s| s.hash).collect()
}

const SOURCE: &str = "use core::f32;\n#[no_mangle]\npub extern \"C\" fn makepad_headless_vertex(a: usize) {}\n    #[no_mangle]\r\npub extern \"C\" fn makepad_headless_fragment(a: usize) {}\n";

#[test]
fn a_directory_name_gives_the_hash() {
    assert_eq!(shader_hash("shader_00000000000000ff"), Some(255));
    assert_eq!(shader_hash("shader_FFFFFFFFFFFFFFFF"), Some(u64::MAX));
    assert_eq!(shader_hash("shader_+a"), Some(10));
    assert_eq!(shader_hash("shader_0"), Some(0));
}

#[test]
fn other_directories_are_passed_over() {
    assert_eq!(shader_hash("shader_"), None);
    assert_eq!(shader_hash("shader_+"), None);
    assert_eq!(shader_hash("shader_xyz"), None);
    assert_eq!(shader_hash("shader_-1"), None);
    assert_eq!(shader_hash("shader_10000000000000000"), None);
    assert_eq!(shader_hash("Shader_1"), None);
    assert_eq!(shader_hash(""), None);
}

#[test]
fn a_filed_name_is_read_back() {
    let hash: u64 = 0x0123_4567_89ab_cdef;
    assert_eq!(shader_hash(&format!("shader_{hash:016x}")), Some(hash));
}

#[test]
fn the_attribute_is_taken_out_by_the_line() {
    assert_eq!(
        strip_no_mangle(SOURCE),
        "use core::f32;\npub extern \"C\" fn makepad_headless_vertex(a: usize) {}\npub extern \"C\" fn makepad_headless_fragment(a: usize) {}"
    );
    assert_eq!(strip_no_mangle("let s = \"#[no_mangle]\";\n"), "let s = \"#[no_mangle]\";");
}

#[test]
fn lines_are_those_of_the_standard_library() {
    for source in ["", "\n", "a", "a\n", "a\r\n", "a\r", "a\n\nb\n", "\r\n\r\n", "a\r\r\nb"] {
        let want = source
            .lines()
            .filter(|line| line.trim() != "#[no_mangle]")
            .collect::<Vec<_>>()
            .join("\n");
        assert_eq!(strip_no_mangle(source), want);
    }
}

#[test]
fn shaders_come_by_their_hashes() {
    let dump = vec![
        entry("shader_0b", Some("b")),
        entry("notes", Some("n")),
        entry("shader_0a", Some("a")),
        entry("shader_0c", None),
        entry("shader_zz", Some("z")),
    ];
    let shaders = collect(&dump);
    assert_eq!(hashes(&shaders), vec![10, 11]);
    assert_eq!(shaders[0].source, "a");
    assert_eq!(shaders[1].source, "b");
}

#[test]
fn the_listing_order_does_not_matter() {
    let one = collect(&vec![
        entry("shader_3", Some("c")),
        entry("shader_1", Some("a")),
        entry("shader_2", Some("b")),
    ]);
    let other = collect(&vec![
        entry("shader_2", Some("b")),
        entry("shader_3", Some("c")),
        entry("shader_1", Some("a")),
    ]);
    assert_eq!(hashes(&one), vec![1, 2, 3]);
    assert_eq!(generate("/out", &one, TargetOs::Unix), generate("/out", &other, TargetOs::Unix));
}

#[test]
fn the_same_hash_twice_keeps_its_order() {
    let shaders = collect(&vec![
        entry("shader_1", Some("first")),
        entry("shader_01", Some("second")),
    ]);
    assert_eq!(hashes(&shaders), vec![1, 1]);
    assert_eq!(shaders[0].source, "first");
}

#[test]
fn only_entries_that_are_there_are_listed() {
    assert!(source_has_entry(SOURCE, "makepad_headless_vertex"));
    assert!(!source_has_entry(SOURCE, "makepad_headless_vert"));
    assert!(!source_has_entry(SOURCE, "makepad_headless_fill_rcx"));
}

#[test]
fn the_table_is_written_out() {
    let shaders = vec![DumpedShader {
        hash: 0xab,
        source: SOURCE.to_string(),
    }];
    let module = "shader_00000000000000ab";
    let want = format!(
        "// GENERADO por platform/build.rs \u{2014} no editar a mano.\n\
         #[path = r#\"/out/headless_aot_shaders/{module}.rs\"#]\nmod {module};\n\
         fn resolve_{module}(name: &str) -> Option<*const ()> {{\n    Some(match name {{\n        \
         \"makepad_headless_vertex\" => {module}::makepad_headless_vertex as *const (),\n        \
         \"makepad_headless_fragment\" => {module}::makepad_headless_fragment as *const (),\n        \
         _ => return None,\n    }})\n}}\n\
         pub static AOT_SHADERS: &[AotShader] = &[\n    \
         AotShader {{ source_hash: 0x00000000000000abu64, resolve: resolve_{module} }},\n];\n"
    );
    assert_eq!(generate("/out/headless_aot_shaders", &shaders, TargetOs::Unix), want);
}

#[test]
fn without_a_dump_the_table_is_empty() {
    assert_eq!(EMPTY_TABLE, "pub static AOT_SHADERS: &[AotShader] = &[];\n");
    assert_eq!(dump_dir(None), None);
    assert_eq!(dump_dir(Some(" \t")), None);
    assert_eq!(dump_dir(Some(" /dump")), Some(" /dump".to_string()));
}

#[test]
fn sources_are_written_only_if_they_change() {
    assert!(needs_write(None, "a"));
    assert!(needs_write(Some("b"), "a"));
    assert!(!needs_write(Some("a"), "a"));
    assert_eq!(
        embedded_source_path("/out", 1, TargetOs::Unix),
        "/out/shader_0000000000000001.rs"
    );
}
