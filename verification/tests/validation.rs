use horust::error::ValidationError;
use horust::formats::Service;
use horust::validate::validate;
use horust::Horust;

fn named(name: &str) -> Service {
    Service::with_name_and_command(name.to_string(), "/bin/true".to_string())
}

#[test]
fn accepts_a_plain_pair_with_dependency() {
    let a = named("a");
    let mut b = named("b");
    b.start_after = vec!["a".to_string()];
    let out = validate(vec![a, b]).expect("valid set");
    assert_eq!(out.len(), 2);
    assert_eq!(out[0].name, "a");
    assert_eq!(out[1].name, "b");
}

#[test]
fn rejects_empty_name() {
    let mut a = named("a");
    a.name = String::new();
    assert_eq!(validate(vec![a]), Err(ValidationError::EmptyName));
}

#[test]
fn rejects_duplicate_names() {
    let r = validate(vec![named("a"), named("a")]);
    assert_eq!(r, Err(ValidationError::DuplicateName("a".to_string())));
}

#[test]
fn rejects_unknown_signal() {
    let mut a = named("a");
    a.termination.signal = "NOPE".to_string();
    assert_eq!(
        validate(vec![a]),
        Err(ValidationError::UnknownSignal("NOPE".to_string()))
    );
}

#[test]
fn rejects_missing_dependency() {
    let mut a = named("a");
    a.start_after = vec!["ghost".to_string()];
    assert_eq!(
        validate(vec![a]),
        Err(ValidationError::UnknownDependency("ghost".to_string()))
    );
}

#[test]
fn rejects_two_cycle() {
    let mut a = named("a");
    a.start_after = vec!["b".to_string()];
    let mut b = named("b");
    b.start_after = vec!["a".to_string()];
    assert_eq!(validate(vec![a, b]), Err(ValidationError::Cycle));
}

#[test]
fn rejects_self_dependency() {
    let mut a = named("a");
    a.start_after = vec!["a".to_string()];
    assert_eq!(validate(vec![a]), Err(ValidationError::Cycle));
}

#[test]
fn accepts_a_chain_and_diamond() {
    let a = named("a");
    let mut b = named("b");
    b.start_after = vec!["a".to_string()];
    let mut c = named("c");
    c.start_after = vec!["a".to_string()];
    let mut d = named("d");
    d.start_after = vec!["b".to_string(), "c".to_string()];
    assert!(validate(vec![a, b, c, d]).is_ok());
}

#[test]
fn from_command_is_a_valid_singleton() {
    let h = Horust::from_command("/bin/sleep 5".to_string());
    assert_eq!(h.services.len(), 1);
    assert_eq!(h.services[0].name, "/bin/sleep 5");
    assert_eq!(h.services[0].command, "/bin/sleep 5");
    assert!(h.services[0].start_after.is_empty());
    assert!(validate(h.services.clone()).is_ok());
}
