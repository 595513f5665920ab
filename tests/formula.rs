use indexmap::IndexMap;
use warpforge::error::RunError;
use warpforge::formula::{
    exit_status, script_dir_exists, script_dir_failure, script_entry_failure, Executor, Formula,
};
use warpforge::lowering::{lower_input, lower_inputs, Lowered, MountKind, MountSpec};
use warpforge::model::{
    Action, ActionExecute, ActionScript, FormulaAndContext, FormulaCapsule, FormulaContext,
    FormulaContextCapsule, FormulaInput, Image, Mount, SandboxPort, WareID,
};

const WARE: &str = "tar:4z9DCTxoKkStqXQRwtf9nimpfQQ36dbndDsAPCQgECfbXt3edanUrsVKCjE9TkX2v9";

fn port(s: &str) -> SandboxPort {
    SandboxPort(s.to_string())
}

fn causeless_msg(e: RunError) -> String {
    match e {
        RunError::SystemSetupCauseless { msg } => msg,
        other => panic!("unexpected error {:?}", other),
    }
}

fn executor() -> Formula {
    Formula {
        executor: Executor {
            ersatz_dir: "/tmp/ersatz".to_string(),
            log_file: "/tmp/log".to_string(),
        },
    }
}

fn formula_with(inputs: Vec<(SandboxPort, FormulaInput)>, action: Action) -> FormulaAndContext {
    FormulaAndContext {
        formula: FormulaCapsule::V1(warpforge::model::Formula {
            image: Image {
                reference: "docker.io/busybox:latest".to_string(),
                readonly: true,
            },
            inputs,
            action,
            outputs: vec![],
        }),
        context: FormulaContextCapsule::V1(FormulaContext { warehouses: vec![] }),
    }
}

#[test]
fn mount_text_round_trip() {
    let cases = [
        ("ro:/host/readonly/path", Mount::ReadOnly("/host/readonly/path".to_string())),
        ("rw:/host/readwrite/path", Mount::ReadWrite("/host/readwrite/path".to_string())),
        ("overlay:/host/overlay/path", Mount::Overlay("/host/overlay/path".to_string())),
    ];
    for (text, mount) in cases {
        assert_eq!(Mount::from_text(text), Some(mount.clone()));
        assert_eq!(mount.to_text(), text);
    }
    assert_eq!(Mount::from_text("bind:/x"), None);
    assert_eq!(Mount::from_text("ro"), None);
    assert_eq!(Mount::from_text("ro:a:b"), Some(Mount::ReadOnly("a:b".to_string())));
}

#[test]
fn input_text_round_trip() {
    let ware = format!("ware:{}", WARE);
    assert_eq!(
        FormulaInput::from_text(&ware),
        Some(FormulaInput::Ware(WareID(WARE.to_string())))
    );
    assert_eq!(FormulaInput::Ware(WareID(WARE.to_string())).to_text(), ware);
    let m = FormulaInput::Mount(Mount::ReadOnly("/host/readonly/path".to_string()));
    assert_eq!(m.to_text(), "mount:ro:/host/readonly/path");
    assert_eq!(FormulaInput::from_text("mount:ro:/host/readonly/path"), Some(m));
    assert_eq!(
        FormulaInput::from_text("literal:hello world"),
        Some(FormulaInput::Literal("hello world".to_string()))
    );
    assert_eq!(FormulaInput::from_text("mount:nope:/x"), None);
    assert_eq!(FormulaInput::from_text("other:x"), None);
}

#[test]
fn environment_port_takes_literal() {
    match lower_input(&port("$FOO"), &FormulaInput::Literal("bar".to_string())) {
        Ok(Lowered::Env { name, value }) => {
            assert_eq!(name, "FOO");
            assert_eq!(value, "bar");
        }
        _ => panic!("expected an environment variable"),
    }
}

#[test]
fn environment_port_errors() {
    let e = lower_input(&port("$"), &FormulaInput::Literal("x".to_string())).err().unwrap();
    assert_eq!(causeless_msg(e), "environment variable with empty name");
    let e = lower_input(&port("$X"), &FormulaInput::Mount(Mount::ReadOnly("/h".to_string())))
        .err()
        .unwrap();
    assert_eq!(causeless_msg(e), "value of environment variable 'X' has to be literal");
}

#[test]
fn mount_port_lowering() {
    match lower_input(&port("/a"), &FormulaInput::Mount(Mount::ReadOnly("/h".to_string()))) {
        Ok(Lowered::Mount { target, spec }) => {
            assert_eq!(target, "/a");
            assert_eq!(spec, MountSpec::new_bind("/h", "/a", true));
        }
        _ => panic!("expected a mount"),
    }
    match lower_input(&port("/b"), &FormulaInput::Mount(Mount::ReadWrite("/w".to_string()))) {
        Ok(Lowered::Mount { spec, .. }) => {
            assert!(!spec.readonly);
            assert_eq!(spec.kind, MountKind::Bind);
            assert_eq!(spec.host_source, "/w");
        }
        _ => panic!("expected a mount"),
    }
    let e = lower_input(&port("/c"), &FormulaInput::Literal("x".to_string())).err().unwrap();
    assert_eq!(
        causeless_msg(e),
        "formula input '/c': 'literal' not supported, use 'ware' or 'mount'"
    );
    let e = lower_input(&port("/d"), &FormulaInput::Mount(Mount::Overlay("/o".to_string())));
    assert!(matches!(e, Err(RunError::Unimplemented { .. })));
    let e = lower_input(&port("/e"), &FormulaInput::Ware(WareID(WARE.to_string())));
    assert!(matches!(e, Err(RunError::Unimplemented { .. })));
}

#[test]
fn invalid_ports() {
    for p in ["foo", "", "é/x"] {
        let e = lower_input(&port(p), &FormulaInput::Literal("x".to_string())).err().unwrap();
        assert_eq!(causeless_msg(e), format!("invalid formula input '{}'", p));
    }
}

#[test]
fn inputs_lower_in_order_and_first_error_wins() {
    let inputs = vec![
        (port("/b"), FormulaInput::Mount(Mount::ReadOnly("/hb".to_string()))),
        (port("$Z"), FormulaInput::Literal("1".to_string())),
        (port("/a"), FormulaInput::Mount(Mount::ReadWrite("/ha".to_string()))),
        (port("$A"), FormulaInput::Literal("2".to_string())),
    ];
    let (mounts, env) = lower_inputs(&inputs).unwrap();
    let keys: Vec<&str> = mounts.keys().map(|k| k.as_str()).collect();
    assert_eq!(keys, vec!["/b", "/a"]);
    let env: Vec<(&str, &str)> = env.iter().map(|(k, v)| (k.as_str(), v.as_str())).collect();
    assert_eq!(env, vec![("Z", "1"), ("A", "2")]);

    let bad = vec![
        (port("/b"), FormulaInput::Mount(Mount::ReadOnly("/hb".to_string()))),
        (port("x"), FormulaInput::Literal("1".to_string())),
        (port("$"), FormulaInput::Literal("2".to_string())),
    ];
    assert_eq!(causeless_msg(lower_inputs(&bad).err().unwrap()), "invalid formula input 'x'");
}

#[test]
fn script_action_lowering() {
    let script = ActionScript {
        interpreter: "/bin/sh".to_string(),
        contents: vec!["echo a".to_string(), "echo b".to_string()],
        network: None,
    };
    let mut mounts = IndexMap::new();
    let (command, files) = executor().setup_script(&script, &mut mounts);
    assert_eq!(command, vec!["/bin/sh", "/.warpforge.container/script/run"]);
    assert_eq!(files.dir, "/tmp/ersatz/script");
    assert_eq!(files.run_path, "/tmp/ersatz/script/run");
    assert_eq!(
        files.run_contents,
        ". /.warpforge.container/script/entry-0\n. /.warpforge.container/script/entry-1\n"
    );
    assert_eq!(
        files.entries,
        vec![
            ("/tmp/ersatz/script/entry-0".to_string(), "echo a\n".to_string()),
            ("/tmp/ersatz/script/entry-1".to_string(), "echo b\n".to_string()),
        ]
    );
    assert_eq!(mounts.len(), 1);
    let (key, spec) = mounts.get_index(0).unwrap();
    assert_eq!(key, "/.warpforge.container/script");
    assert_eq!(
        *spec,
        MountSpec::new_bind("/tmp/ersatz/script", "/.warpforge.container/script", true)
    );
}

#[test]
fn script_entries_count_past_ten() {
    let script = ActionScript {
        interpreter: "/bin/bash".to_string(),
        contents: (0..12).map(|i| format!("echo {}", i)).collect(),
        network: Some(true),
    };
    let mut mounts = IndexMap::new();
    let (_, files) = executor().setup_script(&script, &mut mounts);
    assert_eq!(files.entries[11].0, "/tmp/ersatz/script/entry-11");
    assert_eq!(files.entries[11].1, "echo 11\n");
    assert!(files.run_contents.ends_with(". /.warpforge.container/script/entry-11\n"));
}

#[test]
fn duplicate_script_dir_error() {
    let e = script_dir_exists();
    assert_eq!(
        causeless_msg(e),
        "script directory already existed when trying to setup script"
    );
    assert!(matches!(script_dir_failure(true, "denied"), RunError::SystemSetupError { .. }));
    assert!(matches!(script_dir_failure(false, "disk"), RunError::SystemRuntimeError { .. }));
}

#[test]
fn prepare_exec_formula() {
    let fac = formula_with(
        vec![
            (port("/some/ro/path"), FormulaInput::Mount(Mount::ReadOnly("/host/ro".to_string()))),
            (port("$HOME"), FormulaInput::Literal("/root".to_string())),
        ],
        Action::Execute(ActionExecute {
            command: vec!["/bin/sh".to_string(), "-c".to_string(), "echo hello".to_string()],
            network: None,
        }),
    );
    let p = executor().prepare(&fac, "/usr/bin/runc", "abc").unwrap();
    assert_eq!(p.params.ident, "warpforge-abc");
    assert_eq!(p.params.runtime, "/usr/bin/runc");
    assert_eq!(p.bundle_path, "/tmp/ersatz/warpforge-abc");
    assert_eq!(p.params.root_path, "/tmp/ersatz/warpforge-abc/rootfs");
    assert_eq!(p.params.command, vec!["/bin/sh", "-c", "echo hello"]);
    assert_eq!(p.params.environment.get("HOME").map(String::as_str), Some("/root"));
    assert_eq!(p.params.environment.len(), 1);
    assert_eq!(p.params.mounts.len(), 1);
    assert!(p.script.is_none());
    assert_eq!(p.image.reference, "docker.io/busybox:latest");
}

#[test]
fn prepare_echo_and_script() {
    let fac = formula_with(vec![], Action::Echo);
    let p = executor().prepare(&fac, "runc", "x").unwrap();
    assert_eq!(p.params.command, vec!["echo", "what is the \"Echo\" Action for?"]);
    let fac = formula_with(
        vec![],
        Action::Script(ActionScript {
            interpreter: "/bin/sh".to_string(),
            contents: vec!["true".to_string()],
            network: None,
        }),
    );
    let p = executor().prepare(&fac, "runc", "x").unwrap();
    assert_eq!(p.params.command, vec!["/bin/sh", "/.warpforge.container/script/run"]);
    assert_eq!(p.script.unwrap().entries.len(), 1);
}

#[test]
fn prepare_fails_on_ware_input() {
    let fac = formula_with(
        vec![(port("/"), FormulaInput::Ware(WareID(WARE.to_string())))],
        Action::Echo,
    );
    assert!(matches!(executor().prepare(&fac, "runc", "x"), Err(RunError::Unimplemented { .. })));
}

#[test]
fn plan_names_container_randomly() {
    let fac = formula_with(vec![], Action::Echo);
    let p = executor().plan(&fac, "runc").unwrap();
    let ident = p.params.ident;
    assert_eq!(ident.len(), 26);
    assert!(ident.starts_with("warpforge-"));
    assert!(ident[10..].chars().all(|c| c.is_ascii_alphanumeric()));
}

#[test]
fn non_zero_exit() {
    assert!(exit_status(Some(0)).is_ok());
    for (code, text) in [(Some(7), "7"), (Some(-3), "-3"), (Some(255), "255"), (None, "None")] {
        match exit_status(code) {
            Err(RunError::SystemRuntimeError { msg, cause }) => {
                assert_eq!(msg, "container terminated non-zero exit code");
                assert_eq!(cause, text);
            }
            _ => panic!("expected a runtime error"),
        }
    }
}

#[test]
fn script_mount_replaces_user_mount_in_place() {
    let fac = formula_with(
        vec![
            (port("/a"), FormulaInput::Mount(Mount::ReadOnly("/x".to_string()))),
            (
                port("/.warpforge.container/script"),
                FormulaInput::Mount(Mount::ReadWrite("/y".to_string())),
            ),
            (port("/c"), FormulaInput::Mount(Mount::ReadOnly("/z".to_string()))),
        ],
        Action::Script(ActionScript {
            interpreter: "/bin/sh".to_string(),
            contents: vec![],
            network: None,
        }),
    );
    let p = executor().prepare(&fac, "runc", "x").unwrap();
    let keys: Vec<&str> = p.params.mounts.keys().map(|k| k.as_str()).collect();
    assert_eq!(keys, vec!["/a", "/.warpforge.container/script", "/c"]);
    let (_, spec) = p.params.mounts.get_index(1).unwrap();
    assert_eq!(spec.host_source, "/tmp/ersatz/script");
    assert!(spec.readonly);
    assert_eq!(p.script.unwrap().run_contents, "");
}

#[test]
fn repeated_environment_name_keeps_first_place() {
    let inputs = vec![
        (port("$A"), FormulaInput::Literal("1".to_string())),
        (port("$B"), FormulaInput::Literal("2".to_string())),
        (port("$A"), FormulaInput::Literal("3".to_string())),
    ];
    let (_, env) = lower_inputs(&inputs).unwrap();
    let env: Vec<(&str, &str)> = env.iter().map(|(k, v)| (k.as_str(), v.as_str())).collect();
    assert_eq!(env, vec![("A", "3"), ("B", "2")]);
}

#[test]
fn outputs_mount_is_read_write() {
    let fac = formula_with(vec![], Action::Echo);
    let mut p = executor().prepare(&fac, "runc", "x").unwrap();
    p.params.mount_outputs("/tmp/plot/a/outputs");
    let spec = p.params.mounts.get("/outputs").unwrap();
    assert_eq!(*spec, MountSpec::new_bind("/tmp/plot/a/outputs", "/outputs", false));
}

#[test]
fn script_entry_error_names_entry() {
    match script_entry_failure(12, "disk full") {
        RunError::Catchall { msg, cause } => {
            assert_eq!(msg, "failed during formula execution: couldn't create script entry number 12");
            assert_eq!(cause, "disk full");
        }
        _ => panic!("expected a catchall error"),
    }
    let e = RunError::SystemRuntimeError { msg: "m".to_string(), cause: "c".to_string() };
    assert_eq!(e.render(), "m: c");
}
