use moq_core::registry::{status_code, ApiError, Origin, Registry};

fn origin(url: &str) -> Origin {
    Origin {
        url: url.to_string(),
    }
}

#[test]
fn exclusivity_first_writer_wins() {
    let mut reg = Registry::new();
    let ns = "a/b".to_string();
    assert!(reg.set(&ns, origin("https://relay-1.example")).is_ok());
    assert_eq!(
        reg.set(&ns, origin("https://relay-2.example")),
        Err(ApiError::Duplicate)
    );
    let stored = reg.get(&ns).unwrap();
    assert_eq!(stored.url, "https://relay-1.example");
}

#[test]
fn lifecycle_set_get_delete() {
    let mut reg = Registry::new();
    let ns = "a/b".to_string();
    assert!(reg.set(&ns, origin("https://relay-1.example")).is_ok());
    assert_eq!(reg.get(&ns).unwrap().url, "https://relay-1.example");
    assert!(reg.delete(&ns).is_ok());
    assert_eq!(reg.get(&ns).unwrap_err(), ApiError::NotFound);
    assert_eq!(reg.delete(&ns), Err(ApiError::NotFound));
}

#[test]
fn heartbeat_patch_semantics() {
    let mut reg = Registry::new();
    let ns = "a/b".to_string();
    assert!(reg.set(&ns, origin("https://relay-1.example")).is_ok());
    // Refresh with the same origin succeeds and changes nothing.
    assert!(reg.patch(&ns, origin("https://relay-1.example")).is_ok());
    assert_eq!(reg.get(&ns).unwrap().url, "https://relay-1.example");
    // A conflicting origin is refused and the stored value stays.
    assert_eq!(
        reg.patch(&ns, origin("https://relay-2.example")),
        Err(ApiError::Duplicate)
    );
    assert_eq!(reg.get(&ns).unwrap().url, "https://relay-1.example");
    // A namespace never claimed cannot be refreshed.
    assert_eq!(
        reg.patch(&"never/seen".to_string(), origin("https://relay-1.example")),
        Err(ApiError::NotFound)
    );
}

#[test]
fn claims_race_resolves_to_one_winner() {
    // Sequentialized arrivals of racing claims: exactly one succeeds.
    let mut reg = Registry::new();
    let ns = "x".to_string();
    let mut outcomes = Vec::new();
    for i in 0..5 {
        outcomes.push(reg.set(&ns, origin(&format!("https://relay-{i}.example"))));
    }
    assert!(outcomes[0].is_ok());
    for o in &outcomes[1..] {
        assert_eq!(*o, Err(ApiError::Duplicate));
    }
    assert_eq!(reg.get(&ns).unwrap().url, "https://relay-0.example");
}

#[test]
fn status_codes_for_errors() {
    assert_eq!(status_code(&ApiError::NotFound), 404);
    assert_eq!(status_code(&ApiError::Duplicate), 409);
}

#[test]
fn end_to_end_origin_scenario() {
    // The HTTP sequence against /origin/studio/room1, at the registry level:
    // each response status comes from the operation's outcome.
    let mut reg = Registry::new();
    let ns = "studio/room1".to_string();
    let body = origin("https://relay-a.example");
    let other = origin("https://relay-b.example");

    // POST with the first body: success.
    assert!(reg.set(&ns, body).is_ok());
    // GET returns that body.
    assert_eq!(reg.get(&ns).unwrap().url, "https://relay-a.example");
    // POST with a different node: 409.
    let e = reg
        .set(&ns, Origin { url: other.url.clone() })
        .unwrap_err();
    assert_eq!(status_code(&e), 409);
    // PATCH with the original body: success.
    assert!(reg.patch(&ns, origin("https://relay-a.example")).is_ok());
    // PATCH with a different node: 409.
    let e = reg.patch(&ns, other).unwrap_err();
    assert_eq!(status_code(&e), 409);
    // DELETE: success.
    assert!(reg.delete(&ns).is_ok());
    // Subsequent GET: 404.
    let e = reg.get(&ns).unwrap_err();
    assert_eq!(status_code(&e), 404);
}
