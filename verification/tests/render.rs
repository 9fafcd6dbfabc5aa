use skyforge::cli::{Args, EnvVars};
use skyforge::log::LogLevel;
use skyforge::pattern::Pattern;
use skyforge::specs::{compile, FileEntry, FileTable};
use skyforge::tmpls::{process_templates, RenderError};

fn file(path: &str, text: &str) -> FileEntry {
    FileEntry { path: path.as_bytes().to_vec(), text: Some(text.as_bytes().to_vec()) }
}

fn to_bytes(s: &str) -> Vec<u8> {
    s.as_bytes().to_vec()
}

fn spec_table() -> FileTable {
    FileTable {
        files: vec![
            file("spec/site1/common.yaml", "settings:\n  region: us\n"),
            file("spec/site1/host1.yaml", "settings:\n  name: host1\n  hostname: host1\n"),
        ],
    }
}

fn one_spec(table: &FileTable) -> skyforge::specs::Specification {
    let pattern = Pattern::new(&to_bytes("host1")).unwrap();
    let mut specs = compile(&pattern, &to_bytes("spec"), table).unwrap();
    assert_eq!(specs.len(), 1);
    specs.remove(0)
}

#[test]
fn templates_render_in_manifest_order() {
    let spec = one_spec(&spec_table());
    let tmpl = FileTable {
        files: vec![
            file("tmpl/site/structure.yaml", "files:\n  - base\n  - extra\n"),
            file("tmpl/site/base.tmpl", "host {{ name }} in {{ region }}"),
            file("tmpl/site/extra.tmpl", "plain"),
        ],
    };
    let rc = process_templates(&spec, &to_bytes("tmpl"), &tmpl).unwrap();
    assert_eq!(rc.hostname, to_bytes("host1"));
    assert_eq!(rc.configs.len(), 2);
    assert_eq!(rc.configs[0].0, to_bytes("base"));
    assert_eq!(rc.configs[0].1, to_bytes("host host1 in us"));
    assert_eq!(rc.configs[1].0, to_bytes("extra"));
    assert_eq!(rc.configs[1].1, to_bytes("plain"));
}

#[test]
fn hostname_defaults_without_key() {
    let table = FileTable {
        files: vec![file("spec/site1/host1.yaml", "settings:\n  name: host1\n")],
    };
    let spec = one_spec(&table);
    let tmpl = FileTable {
        files: vec![
            file("tmpl/site/structure.yaml", "files:\n  - base\n"),
            file("tmpl/site/base.tmpl", "x"),
        ],
    };
    let rc = process_templates(&spec, &to_bytes("tmpl"), &tmpl).unwrap();
    assert_eq!(rc.hostname, to_bytes("default_hostname"));
}

#[test]
fn missing_manifest_fails_the_device() {
    let spec = one_spec(&spec_table());
    let tmpl = FileTable { files: vec![] };
    match process_templates(&spec, &to_bytes("tmpl"), &tmpl) {
        Err(RenderError::MissingManifest(p)) => {
            assert_eq!(p, to_bytes("tmpl/site/structure.yaml"))
        },
        _ => panic!("expected a missing-manifest error"),
    }
}

#[test]
fn manifest_without_files_list_fails() {
    let spec = one_spec(&spec_table());
    let tmpl = FileTable {
        files: vec![file("tmpl/site/structure.yaml", "templates:\n  - base\n")],
    };
    match process_templates(&spec, &to_bytes("tmpl"), &tmpl) {
        Err(RenderError::BadManifest(p)) => assert_eq!(p, to_bytes("tmpl/site/structure.yaml")),
        _ => panic!("expected a bad-manifest error"),
    }
}

#[test]
fn missing_template_file_fails() {
    let spec = one_spec(&spec_table());
    let tmpl = FileTable {
        files: vec![file("tmpl/site/structure.yaml", "files:\n  - base\n")],
    };
    match process_templates(&spec, &to_bytes("tmpl"), &tmpl) {
        Err(RenderError::MissingTemplate(p)) => assert_eq!(p, to_bytes("tmpl/site/base.tmpl")),
        _ => panic!("expected a missing-template error"),
    }
}

#[test]
fn undefined_variable_fails_rendering() {
    let spec = one_spec(&spec_table());
    let tmpl = FileTable {
        files: vec![
            file("tmpl/site/structure.yaml", "files:\n  - base\n"),
            file("tmpl/site/base.tmpl", "{{ no_such_variable }}"),
        ],
    };
    match process_templates(&spec, &to_bytes("tmpl"), &tmpl) {
        Err(RenderError::Render(n)) => assert_eq!(n, to_bytes("base")),
        _ => panic!("expected a render error"),
    }
}

#[test]
fn reserialized_spec_keeps_the_context_keys() {
    let spec = one_spec(&spec_table());
    let tmpl = FileTable {
        files: vec![
            file("tmpl/site/structure.yaml", "files:\n  - base\n"),
            file("tmpl/site/base.tmpl", "host {{ name }}"),
        ],
    };
    let rc = process_templates(&spec, &to_bytes("tmpl"), &tmpl).unwrap();
    let context_keys: Vec<String> = spec
        .compiled
        .iter()
        .map(|p| String::from_utf8(p.0.clone()).unwrap())
        .collect();
    let mut map = serde_json::Map::new();
    for pair in &rc.spec {
        map.insert(String::from_utf8(pair.0.clone()).unwrap(), pair.1.clone());
    }
    let mut wrapper = serde_json::Map::new();
    wrapper.insert("data".to_string(), serde_json::Value::Object(map));
    let dump = serde_yml::to_string(&serde_json::Value::Object(wrapper)).unwrap();
    let back: serde_json::Value = serde_yml::from_str(&dump).unwrap();
    let mut round_tripped: Vec<String> = back["data"]
        .as_object()
        .unwrap()
        .keys()
        .cloned()
        .collect();
    let mut expected = context_keys.clone();
    round_tripped.sort();
    expected.sort();
    assert_eq!(round_tripped, expected);
}

#[test]
fn log_level_thresholds() {
    assert_eq!(LogLevel::Debug.value(), 0);
    assert_eq!(LogLevel::Verbose.value(), 30);
    assert_eq!(LogLevel::Info.value(), 60);
    assert_eq!(LogLevel::Warning.value(), 90);
    assert_eq!(LogLevel::Critical.value(), 120);
    assert_eq!(LogLevel::Off.value(), 255);
}

#[test]
fn args_carry_the_run_configuration() {
    let args = Args {
        devices: Pattern::new(&to_bytes("host.*")).unwrap(),
        loglevel: LogLevel::Info,
        env: EnvVars {
            spec_path: "./spec".to_string(),
            tmpl_path: "./tmpl".to_string(),
            out_path: "./out".to_string(),
            log_path: "./log".to_string(),
        },
    };
    assert_eq!(args.env.spec_path, "./spec");
    assert_eq!(args.loglevel.value(), 60);
}
