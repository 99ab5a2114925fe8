use cargo_audit_build::cargo::find_build_rs;
use cargo_audit_build::codec::render_ledger;
use cargo_audit_build::digest::hook_digest;
use cargo_audit_build::review::{hooks_of, Action, Audit, AuditError, Hook, Input};
use cargo_audit_build::{BuildTrustStore, Metadata, PackageMetadata, PackageTarget};

const HOOK: &[u8] = b"fn main() {}\n";

fn hook(pkg: &str, path: &str) -> Hook {
    Hook { pkg_id: pkg.to_string(), path: path.to_string() }
}

fn target(kinds: &[&str], src: &str) -> PackageTarget {
    PackageTarget { kind: kinds.iter().map(|k| k.to_string()).collect(), src_path: src.to_string() }
}

fn package(name: &str, version: &str, targets: Vec<PackageTarget>) -> PackageMetadata {
    PackageMetadata { name: name.to_string(), version: version.to_string(), targets }
}

fn sorted_associates(l: &BuildTrustStore, d: &str) -> Vec<String> {
    let mut v = l.record(d).expect("record").associates.clone();
    v.sort();
    v
}

#[test]
fn fresh_archive_one_hook_trusted() {
    let (mut audit, a) = Audit::new(BuildTrustStore::new(), vec![hook("pkg@1.0", "/src/build.rs")]);
    assert_eq!(a, Action::Read { path: "/src/build.rs".to_string() });
    let d = hook_digest(HOOK);
    assert_eq!(audit.step(Input::Digest(d.clone())), Action::Edit { path: "/src/build.rs".to_string() });
    assert_eq!(
        audit.step(Input::EditorExited(Some(0))),
        Action::Ask { message: "Do you trust the build.rs file in pkg@1.0? [y/N] ".to_string() }
    );
    assert_eq!(
        audit.step(Input::Decision(true)),
        Action::Archive {
            source: "/src/build.rs".to_string(),
            snapshot: "pkg@1.0".to_string(),
            message: "audit-build: add build.rs for pkg@1.0".to_string(),
        }
    );
    assert_eq!(audit.step(Input::Archived), Action::Save);
    assert_eq!(audit.step(Input::Saved), Action::Finish);
    assert_eq!(audit.ledger.entries.len(), 1);
    assert!(audit.ledger.is_trusted(&d));
    assert_eq!(sorted_associates(&audit.ledger, &d), vec!["pkg@1.0".to_string()]);
    assert_eq!(
        render_ledger(&audit.ledger),
        format!("{{\"{}\":[true,[\"pkg@1.0\"]]}}", d)
    );
}

#[test]
fn shared_hook_reviewed_once() {
    let hooks = vec![hook("a@1.0", "/a/build.rs"), hook("b@2.0", "/b/build.rs")];
    let (mut audit, _) = Audit::new(BuildTrustStore::new(), hooks);
    let d = hook_digest(HOOK);
    assert!(matches!(audit.step(Input::Digest(d.clone())), Action::Edit { .. }));
    assert!(matches!(audit.step(Input::EditorExited(Some(0))), Action::Ask { .. }));
    assert!(matches!(audit.step(Input::Decision(true)), Action::Archive { .. }));
    assert_eq!(audit.step(Input::Archived), Action::Read { path: "/b/build.rs".to_string() });
    // the second package, same bytes: no editor, no question
    assert_eq!(audit.step(Input::Digest(hook_digest(HOOK))), Action::Save);
    assert_eq!(
        sorted_associates(&audit.ledger, &d),
        vec!["a@1.0".to_string(), "b@2.0".to_string()]
    );
    assert!(audit.ledger.is_trusted(&d));
}

#[test]
fn editor_failure_aborts_without_save() {
    let (mut audit, _) = Audit::new(BuildTrustStore::new(), vec![hook("pkg@1.0", "/p/build.rs")]);
    let d = hook_digest(HOOK);
    assert!(matches!(audit.step(Input::Digest(d.clone())), Action::Edit { .. }));
    assert_eq!(
        audit.step(Input::EditorExited(Some(1))),
        Action::Fail(AuditError::EditorFailed(Some(1)))
    );
    assert!(!audit.changed);
    assert!(audit.ledger.record(&d).is_none());
    assert_eq!(audit.step(Input::Archived), Action::Fail(AuditError::OutOfOrder));
}

#[test]
fn editor_killed_by_signal_aborts() {
    let (mut audit, _) = Audit::new(BuildTrustStore::new(), vec![hook("p@1", "/p")]);
    audit.step(Input::Digest(hook_digest(HOOK)));
    assert_eq!(audit.step(Input::EditorExited(None)), Action::Fail(AuditError::EditorFailed(None)));
}

#[test]
fn no_change_means_no_save() {
    let d = hook_digest(HOOK);
    let mut ledger = BuildTrustStore::new();
    ledger.set_trust(&d, true, "a@1.0");
    let (mut audit, _) = Audit::new(ledger, vec![hook("a@1.0", "/a/build.rs")]);
    assert_eq!(audit.step(Input::Digest(d.clone())), Action::Finish);
    assert!(!audit.changed);
}

#[test]
fn no_hooks_means_finish_at_once() {
    let (audit, a) = Audit::new(BuildTrustStore::new(), Vec::new());
    assert_eq!(a, Action::Finish);
    assert!(!audit.changed);
}

#[test]
fn untrusted_review_of_new_digest_changes_nothing() {
    let (mut audit, _) = Audit::new(BuildTrustStore::new(), vec![hook("p@1", "/p")]);
    let d = hook_digest(HOOK);
    audit.step(Input::Digest(d.clone()));
    audit.step(Input::EditorExited(Some(0)));
    assert!(matches!(audit.step(Input::Decision(false)), Action::Archive { .. }));
    // the flag stays at its default, so the run ends without a save
    assert_eq!(audit.step(Input::Archived), Action::Finish);
    assert!(!audit.ledger.is_trusted(&d));
    assert_eq!(sorted_associates(&audit.ledger, &d), vec!["p@1".to_string()]);
}

#[test]
fn new_association_alone_triggers_save() {
    let d = hook_digest(HOOK);
    let mut ledger = BuildTrustStore::new();
    ledger.set_trust(&d, true, "a@1.0");
    let (mut audit, _) = Audit::new(ledger, vec![hook("c@3.0", "/c/build.rs")]);
    assert_eq!(audit.step(Input::Digest(d.clone())), Action::Save);
    assert!(audit.changed);
}

#[test]
fn out_of_order_input_aborts() {
    let (mut audit, _) = Audit::new(BuildTrustStore::new(), vec![hook("p@1", "/p")]);
    assert_eq!(audit.step(Input::Decision(true)), Action::Fail(AuditError::OutOfOrder));
}

#[test]
fn build_packages_are_found_in_order() {
    let meta = Metadata {
        packages: vec![
            package("a", "1.0.0", vec![target(&["lib"], "/a/lib.rs"), target(&["custom-build"], "/a/build.rs")]),
            package("b", "0.1.0", vec![target(&["lib"], "/b/lib.rs")]),
            package("c", "2.0.0", vec![target(&["custom-build"], "/c/build.rs"), target(&["custom-build"], "/c/other.rs")]),
        ],
    };
    let found = find_build_rs(&meta);
    assert_eq!(found.len(), 2);
    assert_eq!(found[0].name, "a");
    assert_eq!(found[1].name, "c");
    assert_eq!(found[1].build_script(), "/c/build.rs");
    assert_eq!(found[0].package_id(), "a@1.0.0");
    let hooks = hooks_of(&meta);
    assert_eq!(hooks.len(), 2);
    assert_eq!(hooks[0].pkg_id, "a@1.0.0");
    assert_eq!(hooks[0].path, "/a/build.rs");
    assert_eq!(hooks[1].pkg_id, "c@2.0.0");
    assert_eq!(hooks[1].path, "/c/build.rs");
}

#[test]
fn target_kinds() {
    assert!(target(&["lib", "custom-build"], "x").is_custom_build());
    assert!(!target(&["custom_build", "bin"], "x").is_custom_build());
}

#[test]
fn file_contents_are_filed_under_their_digest() {
    let hooks = vec![hook("a@1.0", "/a/build.rs"), hook("b@2.0", "/b/build.rs")];
    let (mut audit, _) = Audit::new(BuildTrustStore::new(), hooks);
    assert!(matches!(audit.step_contents(HOOK), Action::Edit { .. }));
    audit.step(Input::EditorExited(Some(0)));
    audit.step(Input::Decision(true));
    audit.step(Input::Archived);
    assert_eq!(audit.step_contents(HOOK), Action::Save);
    let d = "536e506bb90914c243a12b397b9a998f85ae2cbd9ba02dfd03a9e155ca5ca0f4";
    assert!(audit.ledger.is_trusted(d));
    assert_eq!(sorted_associates(&audit.ledger, d), vec!["a@1.0".to_string(), "b@2.0".to_string()]);
}

#[test]
fn corrupt_ledger_starts_no_run() {
    assert!(Audit::load("{\"d\":[true,", vec![hook("a@1.0", "/a/build.rs")]).is_err());
    assert!(Audit::load("not json", Vec::new()).is_err());
}

#[test]
fn valid_ledger_starts_run() {
    let (audit, first) = Audit::load("{}\n", vec![hook("a@1.0", "/a/build.rs")]).ok().expect("loads");
    assert_eq!(first, Action::Read { path: "/a/build.rs".to_string() });
    assert!(audit.ledger.entries.is_empty());
}
