use shortlink::service::{RejectReason, Service, SubmitOutcome};
use shortlink::store::{Mapping, Store};

fn row(name: &str, target: &str, active: bool) -> Mapping {
    Mapping { name: name.to_string(), target: target.to_string(), active }
}

fn service_with(rows: Vec<Mapping>, secret: Option<&str>, default_target: &str) -> Service {
    let mut store = Store::new();
    for r in rows {
        store.put_row(r);
    }
    Service::startup(store, secret.map(|s| s.to_string()), default_target.to_string())
}

#[test]
fn startup_populates_active_rows() {
    let svc = service_with(
        vec![row("a", "https://one.example", true), row("b", "https://two.example", true)],
        Some("s3cr3t"),
        "https://default.example",
    );
    assert_eq!(svc.resolve(&"a".to_string()), "https://one.example");
    assert_eq!(svc.resolve(&"b".to_string()), "https://two.example");
}

#[test]
fn inactive_rows_resolve_to_default() {
    let svc = service_with(
        vec![row("old", "https://gone.example", false), row("live", "https://live.example", true)],
        Some("s3cr3t"),
        "https://default.example",
    );
    assert_eq!(svc.resolve(&"old".to_string()), "https://default.example");
    assert_eq!(svc.resolve(&"live".to_string()), "https://live.example");
}

#[test]
fn missing_name_resolves_to_default() {
    let svc = service_with(vec![], Some("s3cr3t"), "https://default.example");
    assert_eq!(svc.resolve(&"nothing".to_string()), "https://default.example");
}

#[test]
fn write_through_is_immediately_visible() {
    let mut svc = service_with(vec![], Some("s3cr3t"), "https://default.example");
    let out = svc.submit(
        &"fresh".to_string(),
        &"https://fresh.example".to_string(),
        &"s3cr3t".to_string(),
    );
    assert_eq!(out, SubmitOutcome::Accepted);
    assert_eq!(svc.resolve(&"fresh".to_string()), "https://fresh.example");
}

#[test]
fn invalid_credential_changes_nothing() {
    let mut svc = service_with(
        vec![row("keep", "https://keep.example", true)],
        Some("s3cr3t"),
        "https://default.example",
    );
    let out = svc.submit(
        &"keep".to_string(),
        &"https://evil.example".to_string(),
        &"wrong".to_string(),
    );
    assert_eq!(out, SubmitOutcome::Rejected(RejectReason::Unauthorized));
    assert_eq!(svc.resolve(&"keep".to_string()), "https://keep.example");

    let out2 = svc.submit(
        &"new".to_string(),
        &"https://new.example".to_string(),
        &"wrong".to_string(),
    );
    assert_eq!(out2, SubmitOutcome::Rejected(RejectReason::Unauthorized));
    assert_eq!(svc.resolve(&"new".to_string()), "https://default.example");

    let listing = svc.list();
    assert_eq!(listing.len(), 1);
    assert_eq!(listing[0].name, "keep");
    assert_eq!(listing[0].target, "https://keep.example");
    assert!(listing[0].active);
}

#[test]
fn no_configured_secret_rejects_every_credential() {
    let mut svc = service_with(vec![], None, "https://default.example");
    let out = svc.submit(
        &"x".to_string(),
        &"https://x.example".to_string(),
        &"".to_string(),
    );
    assert_eq!(out, SubmitOutcome::Rejected(RejectReason::Unauthorized));
    assert_eq!(svc.resolve(&"x".to_string()), "https://default.example");
}

#[test]
fn submit_is_idempotent() {
    let mut once = service_with(vec![], Some("s3cr3t"), "https://default.example");
    let mut twice = service_with(vec![], Some("s3cr3t"), "https://default.example");

    let name = "again".to_string();
    let target = "https://again.example".to_string();
    let cred = "s3cr3t".to_string();

    assert_eq!(once.submit(&name, &target, &cred), SubmitOutcome::Accepted);
    assert_eq!(twice.submit(&name, &target, &cred), SubmitOutcome::Accepted);
    assert_eq!(twice.submit(&name, &target, &cred), SubmitOutcome::Accepted);

    assert_eq!(once.resolve(&name), twice.resolve(&name));
    let l1 = once.list();
    let l2 = twice.list();
    assert_eq!(l1.len(), l2.len());
    assert_eq!(l1[0].name, l2[0].name);
    assert_eq!(l1[0].target, l2[0].target);
    assert_eq!(l1[0].active, l2[0].active);
}

#[test]
fn listing_shows_inactive_rows_that_resolve_hides() {
    let svc = service_with(
        vec![row("ghost", "https://ghost.example", false)],
        Some("s3cr3t"),
        "https://default.example",
    );
    let listing = svc.list();
    assert_eq!(listing.len(), 1);
    assert_eq!(listing[0].name, "ghost");
    assert_eq!(listing[0].target, "https://ghost.example");
    assert!(!listing[0].active);
    assert_eq!(svc.resolve(&"ghost".to_string()), "https://default.example");
}

#[test]
fn submit_reactivates_a_deactivated_name() {
    let mut svc = service_with(
        vec![row("back", "https://old.example", false)],
        Some("s3cr3t"),
        "https://default.example",
    );
    assert_eq!(svc.resolve(&"back".to_string()), "https://default.example");
    let out = svc.submit(
        &"back".to_string(),
        &"https://new.example".to_string(),
        &"s3cr3t".to_string(),
    );
    assert_eq!(out, SubmitOutcome::Accepted);
    assert_eq!(svc.resolve(&"back".to_string()), "https://new.example");
    let listing = svc.list();
    assert_eq!(listing.len(), 1);
    assert!(listing[0].active);
}

#[test]
fn empty_store_lists_nothing() {
    let svc = service_with(vec![], Some("s3cr3t"), "https://default.example");
    assert_eq!(svc.list().len(), 0);
}

#[test]
fn scenario_promo() {
    let mut svc = service_with(
        vec![row("promo", "https://a.example", true)],
        Some("s3cr3t"),
        "https://default.example",
    );
    assert_eq!(svc.resolve(&"promo".to_string()), "https://a.example");
    let out = svc.submit(
        &"promo".to_string(),
        &"https://b.example".to_string(),
        &"s3cr3t".to_string(),
    );
    assert_eq!(out, SubmitOutcome::Accepted);
    assert_eq!(svc.resolve(&"promo".to_string()), "https://b.example");
    assert_eq!(svc.resolve(&"missing".to_string()), "https://default.example");
}
