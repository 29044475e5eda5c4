use wallctl::api::ApiEnvelope;

#[test]
fn failure_envelope_contains_full_error_chain() {
    let error = anyhow::Error::msg("inner").context("outer");
    let envelope: ApiEnvelope<()> = ApiEnvelope::failure(&error);

    assert!(!envelope.ok);
    assert_eq!(envelope.error.unwrap().message, "outer: inner");
}

#[test]
fn success_envelope_carries_data() {
    let envelope = ApiEnvelope::success(7u32);
    assert!(envelope.ok);
    assert_eq!(envelope.data, Some(7));
    assert!(envelope.error.is_none());
}

#[test]
fn failure_message_joins_every_cause() {
    let envelope: ApiEnvelope<()> = ApiEnvelope::failure_from_chain(&[
        "a".to_string(),
        "b".to_string(),
        "c".to_string(),
    ]);
    assert_eq!(envelope.error.unwrap().message, "a: b: c");
    let single: ApiEnvelope<()> = ApiEnvelope::failure(&anyhow::Error::msg("only"));
    assert_eq!(single.error.unwrap().message, "only");
}
