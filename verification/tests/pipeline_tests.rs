use snare::errors::RegistryError;
use snare::script::{AppendScript, RefuseScript, Registry};

fn appender(label: &str) -> AppendScript {
    AppendScript { label: label.to_string() }
}

#[test]
fn apply_chains_in_insertion_order() {
    let mut reg: Registry<AppendScript> = Registry::new();
    reg.add_script(appender("first"), "-a".to_string());
    reg.add_script(appender("second"), "-b".to_string());
    assert_eq!(reg.apply("req".to_string()).unwrap(), "req-a-b");
}

#[test]
fn apply_on_empty_registry_is_identity() {
    let reg: Registry<AppendScript> = Registry::new();
    assert_eq!(reg.apply("untouched".to_string()).unwrap(), "untouched");
}

#[test]
fn disabled_script_equals_removed_script() {
    // One registry with the middle entry disabled...
    let mut with_disabled: Registry<AppendScript> = Registry::new();
    with_disabled.add_script(appender("a"), "1".to_string());
    with_disabled.add_script(appender("b"), "2".to_string());
    with_disabled.add_script(appender("c"), "3".to_string());
    with_disabled
        .update_script("b", "2".to_string(), false)
        .unwrap();
    // ...and an otherwise identical one without that entry at all.
    let mut without: Registry<AppendScript> = Registry::new();
    without.add_script(appender("a"), "1".to_string());
    without.add_script(appender("c"), "3".to_string());
    let raw = "GET / HTTP/1.1".to_string();
    assert_eq!(
        with_disabled.apply(raw.clone()).unwrap(),
        without.apply(raw).unwrap()
    );
}

#[test]
fn pipeline_is_sequential() {
    let mut both: Registry<AppendScript> = Registry::new();
    both.add_script(appender("a"), "-x".to_string());
    both.add_script(appender("b"), "-y".to_string());
    let mut only_a: Registry<AppendScript> = Registry::new();
    only_a.add_script(appender("a"), "-x".to_string());
    let mut only_b: Registry<AppendScript> = Registry::new();
    only_b.add_script(appender("b"), "-y".to_string());
    let raw = "seed".to_string();
    let composed = only_b.apply(only_a.apply(raw.clone()).unwrap()).unwrap();
    assert_eq!(both.apply(raw).unwrap(), composed);
}

#[test]
fn update_unregistered_fails_and_inserts_nothing() {
    let mut reg: Registry<AppendScript> = Registry::new();
    let r = reg.update_script("ghost", "args".to_string(), true);
    assert_eq!(r, Err(RegistryError::NotRegistered));
    assert!(!reg.has_script("ghost"));
}

#[test]
fn add_script_overwrites_by_name() {
    let mut reg: Registry<AppendScript> = Registry::new();
    reg.add_script(appender("a"), "-old".to_string());
    reg.add_script(appender("a"), "-new".to_string());
    assert_eq!(reg.apply("r".to_string()).unwrap(), "r-new");
}

#[test]
fn add_script_reenables_disabled_entry() {
    let mut reg: Registry<AppendScript> = Registry::new();
    reg.add_script(appender("a"), "-x".to_string());
    reg.update_script("a", "-x".to_string(), false).unwrap();
    reg.add_script(appender("a"), "-x".to_string());
    assert_eq!(reg.apply("r".to_string()).unwrap(), "r-x");
}

#[test]
fn remove_script_reports_presence() {
    let mut reg: Registry<AppendScript> = Registry::new();
    reg.add_script(appender("a"), "".to_string());
    assert!(reg.remove_script("a"));
    assert!(!reg.remove_script("a"));
    assert!(!reg.has_script("a"));
}

#[test]
fn run_script_applies_exactly_one() {
    let mut reg: Registry<AppendScript> = Registry::new();
    reg.add_script(appender("a"), "-x".to_string());
    reg.add_script(appender("b"), "-y".to_string());
    assert_eq!(reg.run_script("b", "r".to_string()).unwrap(), "r-y");
}

#[test]
fn run_script_disabled_yields_empty() {
    let mut reg: Registry<AppendScript> = Registry::new();
    reg.add_script(appender("a"), "-x".to_string());
    reg.update_script("a", "-x".to_string(), false).unwrap();
    assert_eq!(reg.run_script("a", "r".to_string()).unwrap(), "");
}

#[test]
fn run_script_unregistered_fails() {
    let reg: Registry<AppendScript> = Registry::new();
    assert_eq!(
        reg.run_script("nope", "r".to_string()),
        Err(RegistryError::NotRegistered)
    );
}

#[test]
fn run_script_failure_names_script() {
    let mut reg: Registry<RefuseScript> = Registry::new();
    reg.add_script(RefuseScript { label: "guard".to_string() }, "".to_string());
    match reg.run_script("guard", "r".to_string()) {
        Err(RegistryError::ScriptFailed { name, .. }) => assert_eq!(name, "guard"),
        other => panic!("expected a script failure, got {:?}", other),
    }
}

#[test]
fn apply_aborts_on_first_failure() {
    let mut reg: Registry<RefuseScript> = Registry::new();
    reg.add_script(RefuseScript { label: "strict".to_string() }, "".to_string());
    let err = reg.apply("r".to_string()).unwrap_err();
    assert_eq!(err.script, "strict");
}
