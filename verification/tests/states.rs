use three_rings::states::{classify, describe, ApiError, BadgeVariant, Failure, ServerFnError, Tone};

#[test]
fn a_stale_cursor_is_the_requests_fault_and_offers_no_retry() {
    let (failure, message) = classify("validation: invalid cursor");
    assert_eq!(failure, Failure::Request);
    assert_eq!(message, "invalid cursor");
    assert!(!failure.retryable());
}

#[test]
fn a_refused_op_is_also_the_requests_fault() {
    for raw in ["conflict: the Inbox cannot be moved", "forbidden: not yours"] {
        let (failure, _) = classify(raw);
        assert_eq!(failure, Failure::Request, "{raw}");
        assert!(!failure.retryable(), "{raw}");
    }
}

#[test]
fn a_dead_link_is_missing_and_its_detail_is_a_bare_noun() {
    let (failure, message) = classify("not found: collection");
    assert_eq!(failure, Failure::Missing);
    assert_eq!(message, "collection");
    assert!(!failure.retryable());
}

#[test]
fn every_class_has_its_own_slug() {
    let slugs = [
        Failure::Missing,
        Failure::Request,
        Failure::Session,
        Failure::Transport,
    ]
    .map(Failure::slug);
    assert_eq!(slugs, ["missing", "request", "session", "transport"]);
}

#[test]
fn an_expired_session_is_its_own_arm() {
    let (failure, message) = classify("unauthorized: invalid token");
    assert_eq!(failure, Failure::Session);
    assert_eq!(message, "invalid token");
    assert!(!failure.retryable());
}

#[test]
fn upstream_and_anything_unrecognized_are_retryable() {
    let (failure, message) = classify("upstream: database unavailable");
    assert_eq!(failure, Failure::Transport);
    assert_eq!(message, "database unavailable");
    assert!(failure.retryable());

    let (failure, message) = classify("error reaching server");
    assert_eq!(failure, Failure::Transport);
    assert_eq!(message, "error reaching server");
}

#[test]
fn describe_reads_a_server_fn_error() {
    let e = ServerFnError::ServerError("upstream: neon said no".into());
    assert_eq!(
        describe(&e),
        (Failure::Transport, "neon said no".to_string())
    );
}

#[test]
fn describe_classifies_a_typed_api_error_by_variant_not_by_string() {
    let cases = [
        (
            ApiError::NotFound("collection".into()),
            Failure::Missing,
            "collection",
        ),
        (
            ApiError::Unauthorized("invalid token".into()),
            Failure::Session,
            "invalid token",
        ),
        (
            ApiError::Forbidden("not yours".into()),
            Failure::Request,
            "not yours",
        ),
        (
            ApiError::Conflict("the Inbox cannot be moved".into()),
            Failure::Request,
            "the Inbox cannot be moved",
        ),
        (
            ApiError::Validation("invalid cursor".into()),
            Failure::Request,
            "invalid cursor",
        ),
        (
            ApiError::Upstream("neon unreachable".into()),
            Failure::Transport,
            "neon unreachable",
        ),
    ];
    for (api_err, want_failure, want_message) in cases {
        let e = ServerFnError::WrappedServerError(api_err.clone());
        assert_eq!(
            describe(&e),
            (want_failure, want_message.to_string()),
            "{api_err:?}"
        );
    }
}

#[test]
fn each_tone_keeps_its_own_token_family() {
    assert!(Tone::Resolved.variant() == BadgeVariant::Success);
    assert!(Tone::Partial.variant() == BadgeVariant::Warning);
    assert!(Tone::Stale.variant() == BadgeVariant::Info);
    let slugs = [Tone::Resolved, Tone::Partial, Tone::Stale].map(Tone::slug);
    assert_eq!(slugs, ["resolved", "partial", "stale"]);
}

#[test]
fn a_bad_cursor_is_the_requests_fault_by_variant() {
    let e = ServerFnError::WrappedServerError(ApiError::BadCursor("stale page".into()));
    assert_eq!(describe(&e), (Failure::Request, "stale page".to_string()));
}

#[test]
fn any_other_failure_text_is_classified_by_its_prefix() {
    let e = ServerFnError::Other("not found: deck".into());
    assert_eq!(describe(&e), (Failure::Missing, "deck".to_string()));
    let e = ServerFnError::Other("fetch failed".into());
    assert_eq!(describe(&e), (Failure::Transport, "fetch failed".to_string()));
}

#[test]
fn a_prefix_without_its_space_is_not_recognized() {
    let (failure, message) = classify("not found:collection");
    assert_eq!(failure, Failure::Transport);
    assert_eq!(message, "not found:collection");
}
