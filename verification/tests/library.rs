use trade_secrets::controller::{
    error_policy, next_wake, on_patch_result, reconcile, Ctx, PatchPlan, ReconcilerAction,
    ReconcilerError, SecretRole,
};
use trade_secrets::crd::{
    check_crd_status, expected_crd_version, CrdSummary, DefinitionError, PatchCopyItem,
    PatchStrategy, TradeSecretSpec,
};
use trade_secrets::diff::compute_updates;
use trade_secrets::duration::Duration;
use trade_secrets::patch::{base64, render_merge_patch};
use trade_secrets::secret_data::SecretData;

fn data(entries: &[(&str, &[u8])]) -> SecretData {
    let mut d = SecretData::new();
    for (k, v) in entries {
        d.set(k.to_string(), v.to_vec());
    }
    d
}

fn chars_to_string(chars: Vec<char>) -> String {
    chars.into_iter().collect()
}

fn mapping(pairs: &[(&str, &str)]) -> Vec<PatchCopyItem> {
    pairs
        .iter()
        .map(|(s, d)| PatchCopyItem {
            source: s.to_string(),
            destination: d.to_string(),
        })
        .collect()
}

fn rule(items: Vec<PatchCopyItem>) -> TradeSecretSpec {
    TradeSecretSpec {
        source: "source-secret".to_string(),
        destination: "destination-secret".to_string(),
        strategy: PatchStrategy::Copy { items },
    }
}

fn five_minutes() -> Ctx {
    Ctx::new(Duration::from_secs(300))
}

#[test]
fn secret_data_set_and_get() {
    let mut d = SecretData::new();
    assert!(d.is_empty());
    d.set("alpha".to_string(), b"one".to_vec());
    d.set("beta".to_string(), b"two".to_vec());
    assert_eq!(d.get(&"alpha".to_string()), Some(&b"one".to_vec()));
    assert_eq!(d.get(&"beta".to_string()), Some(&b"two".to_vec()));
    assert_eq!(d.get(&"gamma".to_string()), None);
    d.set("alpha".to_string(), b"three".to_vec());
    assert_eq!(d.get(&"alpha".to_string()), Some(&b"three".to_vec()));
    assert_eq!(d.len(), 2);
    assert!(!d.is_empty());
}

#[test]
fn diff_copies_missing_destination_field() {
    let items = mapping(&[("token", "apiToken")]);
    let src = data(&[("token", b"abc")]);
    let dst = data(&[]);
    let updates = compute_updates(&items, &src, &dst).unwrap();
    assert_eq!(updates.len(), 1);
    assert_eq!(updates.get(&"apiToken".to_string()), Some(&b"abc".to_vec()));
}

#[test]
fn diff_skips_agreeing_destination_field() {
    let items = mapping(&[("token", "apiToken")]);
    let src = data(&[("token", b"abc")]);
    let dst = data(&[("apiToken", b"abc")]);
    let updates = compute_updates(&items, &src, &dst).unwrap();
    assert!(updates.is_empty());
}

#[test]
fn diff_replaces_differing_destination_field() {
    let items = mapping(&[("token", "apiToken")]);
    let src = data(&[("token", b"new")]);
    let dst = data(&[("apiToken", b"old")]);
    let updates = compute_updates(&items, &src, &dst).unwrap();
    assert_eq!(updates.get(&"apiToken".to_string()), Some(&b"new".to_vec()));
}

#[test]
fn diff_fails_fast_on_missing_source_field() {
    let items = mapping(&[("tokn", "apiToken")]);
    let src = data(&[("token", b"abc")]);
    let dst = data(&[]);
    let r = compute_updates(&items, &src, &dst);
    assert_eq!(r.unwrap_err(), ReconcilerError::SourceFieldMissing("tokn".to_string()));
}

#[test]
fn diff_reports_first_missing_source_field() {
    let items = mapping(&[("a", "x"), ("missing1", "y"), ("missing2", "z")]);
    let src = data(&[("a", b"1")]);
    let dst = data(&[]);
    let r = compute_updates(&items, &src, &dst);
    assert_eq!(
        r.unwrap_err(),
        ReconcilerError::SourceFieldMissing("missing1".to_string())
    );
}

#[test]
fn diff_last_mapping_wins_on_duplicate_destination() {
    let items = mapping(&[("a", "x"), ("b", "x")]);
    let src = data(&[("a", b"1"), ("b", b"2")]);
    let dst = data(&[]);
    let updates = compute_updates(&items, &src, &dst).unwrap();
    assert_eq!(updates.len(), 1);
    assert_eq!(updates.get(&"x".to_string()), Some(&b"2".to_vec()));
}

#[test]
fn diff_is_deterministic() {
    let items = mapping(&[("a", "x"), ("b", "y")]);
    let src = data(&[("a", b"1"), ("b", b"2")]);
    let dst = data(&[("x", b"0")]);
    let first = compute_updates(&items, &src, &dst).unwrap();
    let second = compute_updates(&items, &src, &dst).unwrap();
    assert_eq!(first.len(), second.len());
    assert_eq!(first.get(&"x".to_string()), second.get(&"x".to_string()));
    assert_eq!(first.get(&"y".to_string()), second.get(&"y".to_string()));
}

#[test]
fn diff_reapplied_is_empty() {
    let items = mapping(&[("a", "x"), ("b", "y"), ("c", "z")]);
    let src = data(&[("a", b"1"), ("b", b"2"), ("c", b"3")]);
    let mut dst = data(&[("x", b"1"), ("y", b"stale")]);
    let updates = compute_updates(&items, &src, &dst).unwrap();
    assert!(!updates.is_empty());
    dst.merge_from(&updates);
    let again = compute_updates(&items, &src, &dst).unwrap();
    assert!(again.is_empty());
}

#[test]
fn reconcile_issues_patch_for_missing_destination_field() {
    let items = mapping(&[("token", "apiToken")]);
    let src = data(&[("token", b"abc")]);
    let dst = data(&[]);
    let ctx = five_minutes();
    let outcome = reconcile(&rule(items), Some(&src), Some(&dst), &ctx).unwrap();
    assert_eq!(outcome.action.requeue_after, Some(Duration::from_secs(300)));
    match outcome.plan {
        PatchPlan::Apply { document, updates } => {
            assert_eq!(
                chars_to_string(document),
                "{\"data\":{\"apiToken\":\"YWJj\"}}"
            );
            assert_eq!(updates.get(&"apiToken".to_string()), Some(&b"abc".to_vec()));
        }
        PatchPlan::NoChange => panic!("expected a patch"),
    }
}

#[test]
fn reconcile_no_patch_when_destination_agrees() {
    let items = mapping(&[("token", "apiToken")]);
    let src = data(&[("token", b"abc")]);
    let dst = data(&[("apiToken", b"abc")]);
    let ctx = five_minutes();
    let outcome = reconcile(&rule(items), Some(&src), Some(&dst), &ctx).unwrap();
    assert!(matches!(outcome.plan, PatchPlan::NoChange));
    assert_eq!(outcome.action.requeue_after, Some(Duration::from_secs(300)));
}

#[test]
fn reconcile_fails_on_missing_source_field_without_patch() {
    let items = mapping(&[("tokn", "apiToken")]);
    let src = data(&[("token", b"abc")]);
    let dst = data(&[]);
    let ctx = five_minutes();
    let r = reconcile(&rule(items), Some(&src), Some(&dst), &ctx);
    assert_eq!(r.unwrap_err(), ReconcilerError::SourceFieldMissing("tokn".to_string()));
}

#[test]
fn reconcile_reports_missing_source_secret() {
    let items = mapping(&[("token", "apiToken")]);
    let dst = data(&[]);
    let ctx = five_minutes();
    let r = reconcile(&rule(items), None, Some(&dst), &ctx);
    assert_eq!(r.unwrap_err(), ReconcilerError::SecretNotFound(SecretRole::Source));
}

#[test]
fn reconcile_reports_missing_destination_secret() {
    let items = mapping(&[("token", "apiToken")]);
    let src = data(&[("token", b"abc")]);
    let ctx = five_minutes();
    let r = reconcile(&rule(items), Some(&src), None, &ctx);
    assert_eq!(r.unwrap_err(), ReconcilerError::SecretNotFound(SecretRole::Destination));
}

#[test]
fn error_policy_requeues_every_error() {
    let ctx = five_minutes();
    let errors = vec![
        ReconcilerError::SecretNotFound(SecretRole::Source),
        ReconcilerError::SecretNotFound(SecretRole::Destination),
        ReconcilerError::SourceFieldMissing("token".to_string()),
        ReconcilerError::Unknown,
    ];
    for e in &errors {
        let action = error_policy(e, &ctx);
        assert_eq!(action.requeue_after, Some(Duration::from_secs(300)));
    }
}

#[test]
fn next_wake_is_now_plus_interval() {
    let ctx = five_minutes();
    let action = ReconcilerAction {
        requeue_after: Some(ctx.requeue_time),
    };
    assert_eq!(next_wake(&action, 1000), Some(1300));
    let none = ReconcilerAction { requeue_after: None };
    assert_eq!(next_wake(&none, 1000), None);
}

#[test]
fn patch_result_failure_is_unknown() {
    let ctx = five_minutes();
    assert_eq!(on_patch_result(false, &ctx).unwrap_err(), ReconcilerError::Unknown);
    let action = on_patch_result(true, &ctx).unwrap();
    assert_eq!(action.requeue_after, Some(Duration::from_secs(300)));
}

#[test]
fn base64_known_vectors() {
    assert_eq!(chars_to_string(base64(&b"".to_vec())), "");
    assert_eq!(chars_to_string(base64(&b"a".to_vec())), "YQ==");
    assert_eq!(chars_to_string(base64(&b"ab".to_vec())), "YWI=");
    assert_eq!(chars_to_string(base64(&b"abc".to_vec())), "YWJj");
    assert_eq!(chars_to_string(base64(&b"abcd".to_vec())), "YWJjZA==");
    assert_eq!(chars_to_string(base64(&vec![0u8, 255u8, 254u8])), "AP/+");
}

#[test]
fn render_empty_update_set() {
    let updates = data(&[]);
    assert_eq!(chars_to_string(render_merge_patch(&updates)), "{\"data\":{}}");
}

#[test]
fn render_two_entries_in_order() {
    let updates = data(&[("first", b"a"), ("second", b"bc")]);
    assert_eq!(
        chars_to_string(render_merge_patch(&updates)),
        "{\"data\":{\"first\":\"YQ==\",\"second\":\"YmM=\"}}"
    );
}

#[test]
fn render_escapes_key_characters() {
    let updates = data(&[("a\"b\\c\nd", b"v")]);
    assert_eq!(
        chars_to_string(render_merge_patch(&updates)),
        "{\"data\":{\"a\\\"b\\\\c\\u000ad\":\"dg==\"}}"
    );
}

#[test]
fn duration_parses_unit_forms() {
    assert_eq!(Duration::from_str("5m").unwrap().as_secs(), 300);
    assert_eq!(Duration::from_str("30").unwrap().as_secs(), 30);
    assert_eq!(Duration::from_str("45s").unwrap().as_secs(), 45);
    assert_eq!(Duration::from_str("2h").unwrap().as_secs(), 7200);
    assert_eq!(Duration::from_str("0").unwrap().as_secs(), 0);
}

#[test]
fn duration_rejects_malformed_strings() {
    assert!(Duration::from_str("5x").is_err());
    assert!(Duration::from_str("").is_err());
    assert!(Duration::from_str("m").is_err());
    assert!(Duration::from_str("5m5").is_err());
    assert!(Duration::from_str("-5").is_err());
    assert!(Duration::from_str("5 m").is_err());
}

#[test]
fn duration_rejects_overflowing_counts() {
    assert!(Duration::from_str("99999999999999999999999").is_err());
    assert!(Duration::from_str("18446744073709551615").is_ok());
    assert!(Duration::from_str("18446744073709551616").is_err());
    assert!(Duration::from_str("18446744073709551615h").is_err());
}

#[test]
fn crd_check_accepts_expected_version() {
    let fetched = Some(CrdSummary {
        versions: Some(vec![expected_crd_version().to_string()]),
    });
    assert_eq!(check_crd_status(&fetched), Ok(()));
}

#[test]
fn crd_check_rejects_missing_definition() {
    assert_eq!(check_crd_status(&None), Err(DefinitionError::CrdNotFound));
}

#[test]
fn crd_check_rejects_missing_version_list() {
    let fetched = Some(CrdSummary { versions: None });
    assert_eq!(check_crd_status(&fetched), Err(DefinitionError::MissingVersions));
}

#[test]
fn crd_check_rejects_several_versions() {
    let fetched = Some(CrdSummary {
        versions: Some(vec!["v1alpha1".to_string(), "v1beta1".to_string()]),
    });
    assert_eq!(
        check_crd_status(&fetched),
        Err(DefinitionError::UnexpectedVersionCount)
    );
    let empty = Some(CrdSummary {
        versions: Some(vec![]),
    });
    assert_eq!(
        check_crd_status(&empty),
        Err(DefinitionError::UnexpectedVersionCount)
    );
}

#[test]
fn crd_check_rejects_wrong_version() {
    let fetched = Some(CrdSummary {
        versions: Some(vec!["v1beta1".to_string()]),
    });
    assert_eq!(check_crd_status(&fetched), Err(DefinitionError::WrongVersion));
}
