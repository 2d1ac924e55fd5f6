use makepad_platform::aot::{
    embedded_count, embedded_shaders, entry_name, is_valid_table, knows_entry, lookup, AotShader,
    EntryPoint, ENTRY_COUNT,
};

fn entry(name: &str, address: usize) -> EntryPoint {
    EntryPoint { name: name.to_string(), address }
}

fn shader(source_hash: u64, base: usize) -> AotShader {
    AotShader {
        source_hash,
        entries: vec![
            entry("makepad_headless_shader_version", base),
            entry("makepad_headless_vertex", base + 1),
            entry("makepad_headless_fragment", base + 2),
            entry("makepad_headless_fill_rcx", base + 3),
        ],
    }
}

fn table() -> Vec<AotShader> {
    vec![shader(0x10, 1000), shader(0x20, 2000), shader(0xffff_ffff_ffff_ffff, 3000)]
}

/// The table can always be asked, even where nothing is embedded: the program then goes
/// on without it.
#[test]
fn lookup_on_empty_or_populated_table_never_panics() {
    let embedded = embedded_shaders();
    assert!(
        lookup(&embedded, 0xdead_beef_dead_beef).is_none() || embedded_count(&embedded) > 0
    );
    let table = table();
    assert!(lookup(&table, 0xdead_beef_dead_beef).is_none() || embedded_count(&table) > 0);
}

/// No two shaders have the same hash: the first would be found for both.
#[test]
fn embedded_hashes_are_unique() {
    for shaders in [embedded_shaders(), table()] {
        let mut seen: Vec<u64> = shaders.iter().map(|s| s.source_hash).collect();
        let total = seen.len();
        seen.sort_unstable();
        seen.dedup();
        assert_eq!(seen.len(), total);
    }
}

/// Every shader has the three entries that it is of no use without.
#[test]
fn embedded_shaders_expose_mandatory_entry_points() {
    for shaders in [embedded_shaders(), table()] {
        for shader in &shaders {
            for name in [
                "makepad_headless_shader_version",
                "makepad_headless_vertex",
                "makepad_headless_fragment",
            ] {
                assert!(shader.resolve(name).is_some());
            }
        }
    }
}

/// A name that does not exist resolves to nothing.
#[test]
fn unknown_symbol_resolves_to_none() {
    for shaders in [embedded_shaders(), table()] {
        for shader in &shaders {
            assert!(shader.resolve("makepad_headless_no_existe").is_none());
        }
    }
}

#[test]
fn a_shader_is_found_by_its_hash() {
    let table = table();
    assert_eq!(embedded_count(&table), 3);
    let found = lookup(&table, 0x20).unwrap();
    assert_eq!(found.source_hash, 0x20);
    assert_eq!(found.resolve("makepad_headless_vertex"), Some(2001));
    assert_eq!(found.resolve("makepad_headless_fill_rcx"), Some(2003));
    assert_eq!(lookup(&table, 0xffff_ffff_ffff_ffff).unwrap().resolve("makepad_headless_fragment"), Some(3002));
    assert!(lookup(&table, 0).is_none());
    assert_eq!(embedded_count(&embedded_shaders()), 0);
}

#[test]
fn the_first_of_two_shaders_with_one_hash_is_found() {
    let twice = vec![shader(7, 100), shader(7, 200)];
    assert_eq!(lookup(&twice, 7).unwrap().resolve("makepad_headless_vertex"), Some(101));
    assert!(!is_valid_table(&twice));
    assert!(is_valid_table(&table()));
    assert!(is_valid_table(&embedded_shaders()));
}

#[test]
fn a_shader_without_a_mandatory_entry_is_of_no_use() {
    for missing in 0..3 {
        let mut s = shader(1, 10);
        s.entries.remove(missing);
        assert!(!s.is_usable());
        assert!(!is_valid_table(&vec![s]));
    }
    let mut s = shader(1, 10);
    s.entries.remove(3);
    assert!(s.is_usable());
}

/// In a valid table no name resolves but those that are known.
#[test]
fn a_valid_table_has_no_unknown_names() {
    assert_eq!(ENTRY_COUNT, 11);
    assert_eq!(entry_name(0), "makepad_headless_shader_version");
    assert_eq!(entry_name(10), "makepad_headless_fragment");
    for i in 0..ENTRY_COUNT {
        assert!(knows_entry(entry_name(i)));
    }
    assert!(!knows_entry("makepad_headless_no_existe"));
    let mut s = shader(1, 10);
    assert!(s.is_well_named());
    s.entries.push(entry("makepad_headless_no_existe", 99));
    assert!(s.is_usable() && !s.is_well_named());
    assert!(!is_valid_table(&vec![s]));
}
