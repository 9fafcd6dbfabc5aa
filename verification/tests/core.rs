use skyforge::paths::{get_common, get_partional, get_regional, get_zonal};
use skyforge::pattern::Pattern;
use skyforge::specs::{compile, filter_specs, get_specs, CompileError, FileEntry, FileTable, Specification};

fn entry(path: &str, text: &str) -> FileEntry {
    FileEntry { path: path.as_bytes().to_vec(), text: Some(text.as_bytes().to_vec()) }
}

fn bytes(s: &str) -> Vec<u8> {
    s.as_bytes().to_vec()
}

fn value_of<'a>(spec: &'a Specification, key: &str) -> Option<&'a serde_json::Value> {
    let k = key.as_bytes();
    spec.compiled.iter().find(|p| p.0 == k).map(|p| &p.1)
}

#[test]
fn layer_and_hostname_derivation() {
    let spec = Specification {
        partitional: vec![],
        regional: vec![],
        common: vec![],
        zonal: vec![],
        device: bytes("spec/site12/host-a.yaml"),
        compiled: vec![],
    };
    assert_eq!(spec.get_layer(), bytes("site"));
    assert_eq!(spec.get_hostname(), bytes("host-a.yaml"));
}

#[test]
fn zonal_with_zone_prefix() {
    let z = get_zonal(&bytes("spec/site1/z1-host.yaml"));
    assert_eq!(z, bytes("spec/site1/z1.common.yaml"));
}

#[test]
fn zonal_without_dash_equals_common() {
    let p = bytes("spec/site1/host.yaml");
    assert_eq!(get_zonal(&p), get_common(&p));
    assert_eq!(get_zonal(&p), bytes("spec/site1/common.yaml"));
}

#[test]
fn regional_from_directory_name() {
    let r = get_regional(&bytes("spec/site1/host.yaml"));
    assert_eq!(r, bytes("spec/common/si.yaml"));
}

#[test]
fn partition_fallback_default() {
    let root = bytes("./spec");
    assert_eq!(get_partional(&root, None, None), bytes("./spec/common/default.yaml"));
    let c = bytes("settings:\n  region: us\n");
    let g = bytes("other: text\n");
    assert_eq!(get_partional(&root, Some(&c), Some(&g)), bytes("./spec/common/default.yaml"));
}

#[test]
fn partition_found_in_common_first() {
    let root = bytes("spec");
    let c = bytes("x: y\npartition: alpha\n");
    let g = bytes("partition: beta\n");
    assert_eq!(get_partional(&root, Some(&c), Some(&g)), bytes("spec/common/alpha.yaml"));
    assert_eq!(get_partional(&root, None, Some(&g)), bytes("spec/common/beta.yaml"));
}

#[test]
fn partition_value_is_trimmed_and_stops_at_terminators() {
    let root = bytes("spec");
    let c = bytes("partition: gamma  \nrest: x\n");
    assert_eq!(get_partional(&root, Some(&c), None), bytes("spec/common/gamma.yaml"));
    let d = bytes("partition: de$fg\n");
    assert_eq!(get_partional(&root, Some(&d), None), bytes("spec/common/de.yaml"));
}

#[test]
fn discovery_excludes_common_files() {
    let table = FileTable {
        files: vec![
            entry("spec/site1/common.yaml", "a: {b: 1}"),
            entry("spec/site1/host1.yaml", "a: {b: 2}"),
            entry("spec/site1/z1.common.yaml", "a: {b: 3}"),
            entry("spec/common/si.yaml", "a: {b: 4}"),
            entry("spec/site1/notes.txt", "x"),
        ],
    };
    let found = get_specs(&bytes("spec"), &table);
    assert_eq!(found, vec![bytes("spec/site1/host1.yaml")]);
    let pattern = Pattern::new(&bytes("common")).unwrap();
    let kept = filter_specs(&pattern, found);
    assert!(kept.is_empty());
}

#[test]
fn discovery_requires_the_dot_yaml_suffix() {
    let table = FileTable {
        files: vec![
            entry("spec/site1/fooyaml", "a: {b: 1}"),
            entry("spec/site1/host1.yaml", "a: {b: 2}"),
        ],
    };
    let found = get_specs(&bytes("spec"), &table);
    assert_eq!(found, vec![bytes("spec/site1/host1.yaml")]);
}

#[test]
fn filter_keeps_matching_basenames() {
    let pattern = Pattern::new(&bytes("host1")).unwrap();
    let list = vec![bytes("spec/site1/host1.yaml"), bytes("spec/site1/host2.yaml")];
    let kept = filter_specs(&pattern, list);
    assert_eq!(kept, vec![bytes("spec/site1/host1.yaml")]);
}

#[test]
fn invalid_pattern_is_rejected() {
    assert!(Pattern::new(&bytes("[")).is_none());
}

#[test]
fn precedence_device_over_all() {
    let table = FileTable {
        files: vec![
            entry("p.yaml", "s: {k: partitional, a: partitional}"),
            entry("r.yaml", "s: {k: regional, b: regional}"),
            entry("c.yaml", "s: {k: common, c: common}"),
            entry("z.yaml", "s: {k: zonal, d: zonal}"),
            entry("d.yaml", "s: {k: device}"),
        ],
    };
    let spec = Specification::build(
        &bytes("p.yaml"),
        &bytes("r.yaml"),
        &bytes("c.yaml"),
        &bytes("z.yaml"),
        &bytes("d.yaml"),
        &table,
    )
    .unwrap();
    assert_eq!(value_of(&spec, "k"), Some(&serde_json::Value::String("device".into())));
    assert_eq!(value_of(&spec, "a"), Some(&serde_json::Value::String("partitional".into())));
    assert_eq!(value_of(&spec, "b"), Some(&serde_json::Value::String("regional".into())));
    assert_eq!(value_of(&spec, "c"), Some(&serde_json::Value::String("common".into())));
    assert_eq!(value_of(&spec, "d"), Some(&serde_json::Value::String("zonal".into())));
}

#[test]
fn precedence_each_adjacent_pair() {
    let cases = [
        ("r.yaml", "regional", "p.yaml", "partitional"),
        ("c.yaml", "common", "r.yaml", "regional"),
        ("z.yaml", "zonal", "c.yaml", "common"),
        ("d.yaml", "device", "z.yaml", "zonal"),
    ];
    for (hi, hi_val, lo, lo_val) in cases {
        let table = FileTable {
            files: vec![
                entry(hi, &format!("s: {{k: {}}}", hi_val)),
                entry(lo, &format!("s: {{k: {}}}", lo_val)),
            ],
        };
        let spec = Specification::build(
            &bytes("p.yaml"),
            &bytes("r.yaml"),
            &bytes("c.yaml"),
            &bytes("z.yaml"),
            &bytes("d.yaml"),
            &table,
        )
        .unwrap();
        assert_eq!(
            value_of(&spec, "k"),
            Some(&serde_json::Value::String(hi_val.into())),
            "{} should win over {}",
            hi,
            lo
        );
    }
}

#[test]
fn missing_layers_are_tolerated() {
    let all = [
        ("p.yaml", "s: {p: 1}"),
        ("r.yaml", "s: {r: 2}"),
        ("c.yaml", "s: {c: 3}"),
        ("z.yaml", "s: {z: 4}"),
        ("d.yaml", "s: {d: 5}"),
    ];
    for missing in 0..4 {
        let files = all
            .iter()
            .enumerate()
            .filter(|(i, _)| *i != missing)
            .map(|(_, (p, t))| entry(p, t))
            .collect();
        let table = FileTable { files };
        let spec = Specification::build(
            &bytes("p.yaml"),
            &bytes("r.yaml"),
            &bytes("c.yaml"),
            &bytes("z.yaml"),
            &bytes("d.yaml"),
            &table,
        )
        .unwrap();
        let missing_key = ["p", "r", "c", "z"][missing];
        assert!(value_of(&spec, missing_key).is_none());
        assert_eq!(value_of(&spec, "d"), Some(&serde_json::Value::Number(5.into())));
    }
}

#[test]
fn unreadable_file_is_fatal() {
    let table = FileTable {
        files: vec![
            FileEntry { path: bytes("c.yaml"), text: None },
            entry("d.yaml", "s: {d: 5}"),
        ],
    };
    let r = Specification::build(
        &bytes("p.yaml"),
        &bytes("r.yaml"),
        &bytes("c.yaml"),
        &bytes("z.yaml"),
        &bytes("d.yaml"),
        &table,
    );
    match r {
        Err(CompileError::Read(p)) => assert_eq!(p, bytes("c.yaml")),
        _ => panic!("expected a read error for c.yaml"),
    }
}

#[test]
fn unreadable_device_file_fails_the_run() {
    let table = FileTable {
        files: vec![FileEntry { path: bytes("spec/site1/host1.yaml"), text: None }],
    };
    let pattern = Pattern::new(&bytes("host1")).unwrap();
    match compile(&pattern, &bytes("spec"), &table) {
        Err(CompileError::Read(p)) => assert_eq!(p, bytes("spec/site1/host1.yaml")),
        _ => panic!("expected a read error for the device file"),
    }
}

#[test]
fn non_mapping_layers_are_skipped_silently() {
    let table = FileTable {
        files: vec![
            entry("c.yaml", "- just\n- a\n- list\n"),
            entry("z.yaml", "plain scalar"),
            entry("d.yaml", "s: {k: device}\nscalar_section: 7\n"),
        ],
    };
    let spec = Specification::build(
        &bytes("p.yaml"),
        &bytes("r.yaml"),
        &bytes("c.yaml"),
        &bytes("z.yaml"),
        &bytes("d.yaml"),
        &table,
    )
    .unwrap();
    assert_eq!(value_of(&spec, "k"), Some(&serde_json::Value::String("device".into())));
    assert_eq!(spec.compiled.len(), 1);
}

#[test]
fn parse_error_names_the_file() {
    let table = FileTable {
        files: vec![entry("c.yaml", "k: [unclosed"), entry("d.yaml", "s: {k: device}")],
    };
    let r = Specification::build(
        &bytes("p.yaml"),
        &bytes("r.yaml"),
        &bytes("c.yaml"),
        &bytes("z.yaml"),
        &bytes("d.yaml"),
        &table,
    );
    match r {
        Err(CompileError::Parse(p)) => assert_eq!(p, bytes("c.yaml")),
        _ => panic!("expected a parse error for c.yaml"),
    }
}

#[test]
fn end_to_end_two_layer_merge() {
    let table = FileTable {
        files: vec![
            entry("spec/site1/common.yaml", "settings:\n  region: us\n"),
            entry("spec/site1/host1.yaml", "settings:\n  name: host1\n"),
        ],
    };
    let pattern = Pattern::new(&bytes("host1")).unwrap();
    let specs = compile(&pattern, &bytes("spec"), &table).unwrap();
    assert_eq!(specs.len(), 1);
    let spec = &specs[0];
    assert_eq!(spec.device, bytes("spec/site1/host1.yaml"));
    assert_eq!(spec.common, bytes("spec/site1/common.yaml"));
    assert_eq!(spec.zonal, bytes("spec/site1/common.yaml"));
    assert_eq!(spec.regional, bytes("spec/common/si.yaml"));
    assert_eq!(spec.partitional, bytes("spec/common/default.yaml"));
    assert_eq!(spec.compiled.len(), 2);
    assert_eq!(value_of(spec, "region"), Some(&serde_json::Value::String("us".into())));
    assert_eq!(value_of(spec, "name"), Some(&serde_json::Value::String("host1".into())));
}

#[test]
fn compile_fails_fast_on_bad_device() {
    let table = FileTable {
        files: vec![
            entry("spec/site1/host1.yaml", "k: [unclosed"),
            entry("spec/site1/host2.yaml", "settings:\n  name: host2\n"),
        ],
    };
    let pattern = Pattern::new(&bytes("host")).unwrap();
    match compile(&pattern, &bytes("spec"), &table) {
        Err(CompileError::Parse(p)) => assert_eq!(p, bytes("spec/site1/host1.yaml")),
        _ => panic!("expected the run to fail on host1"),
    }
}

#[test]
fn short_directory_name_is_an_error() {
    let table = FileTable { files: vec![entry("a/h.yaml", "s: {k: 1}")] };
    let pattern = Pattern::new(&bytes("h")).unwrap();
    match compile(&pattern, &bytes("a"), &table) {
        Err(CompileError::ShortDirName(p)) => assert_eq!(p, bytes("a/h.yaml")),
        _ => panic!("expected a short-directory-name error"),
    }
}
