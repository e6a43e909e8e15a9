use dataset_refresher::credentials::{acquisition_form, lookup_secret, TOKEN_ENDPOINT};
use dataset_refresher::dispatch::{
    classify_response, collect_outcomes, dispatch, refresh_url, DispatchError, DispatchMode, RefreshOutcome,
};
use dataset_refresher::registry::{GuidEntry, ResourceRegistry};
use dataset_refresher::token::TokenResponse;

fn entry(id: u32, guids: &[&str]) -> GuidEntry {
    GuidEntry { id, guid: guids.iter().map(|g| g.to_string()).collect() }
}

fn bearer() -> TokenResponse {
    TokenResponse {
        token_type: "Bearer".to_string(),
        expires_on: "2000".to_string(),
        access_token: "secret-credential".to_string(),
    }
}

fn sample() -> ResourceRegistry {
    ResourceRegistry::from_entries(&vec![entry(1, &["a", "b"]), entry(2, &["c"])])
}

#[test]
fn refresh_url_embeds_resource() {
    assert_eq!(refresh_url("abc-123"), "https://api.powerbi.com/v1.0/myorg/datasets/abc-123/refreshes");
}

#[test]
fn unknown_group_is_not_found() {
    let r = dispatch(DispatchMode::SingleGroup(7), &sample(), &bearer());
    assert!(matches!(r, Err(DispatchError::NotFound(7))));
}

#[test]
fn single_group_plans_its_members() {
    let calls = dispatch(DispatchMode::SingleGroup(1), &sample(), &bearer()).ok().unwrap();
    let ids: Vec<&str> = calls.iter().map(|c| c.resource_id.as_str()).collect();
    assert_eq!(ids, vec!["a", "b"]);
    assert!(calls.iter().all(|c| c.group_key == 1 && c.bearer == "secret-credential"));
    assert_eq!(calls[1].url, "https://api.powerbi.com/v1.0/myorg/datasets/b/refreshes");
}

#[test]
fn all_groups_one_call_per_resource() {
    let calls = dispatch(DispatchMode::AllGroups, &sample(), &bearer()).ok().unwrap();
    assert_eq!(calls.len(), 3);
    let mut targets: Vec<(u32, String)> = calls.iter().map(|c| (c.group_key, c.resource_id.clone())).collect();
    targets.sort();
    assert_eq!(targets, vec![(1, "a".to_string()), (1, "b".to_string()), (2, "c".to_string())]);
    let answers = vec![Some(500), Some(202), None];
    let reports = collect_outcomes(&calls, &answers);
    assert_eq!(reports.len(), 3);
    assert!(matches!(reports[0].outcome, RefreshOutcome::Failure(Some(500))));
    assert!(matches!(reports[1].outcome, RefreshOutcome::Success(202)));
    assert!(matches!(reports[2].outcome, RefreshOutcome::Failure(None)));
    for (call, report) in calls.iter().zip(reports.iter()) {
        assert_eq!(call.group_key, report.group_key);
        assert_eq!(call.resource_id, report.resource_id);
    }
}

#[test]
fn failure_on_one_call_keeps_the_others() {
    let calls = dispatch(DispatchMode::AllGroups, &sample(), &bearer()).ok().unwrap();
    let all_fail = collect_outcomes(&calls, &vec![None, None, None]);
    let all_pass = collect_outcomes(&calls, &vec![Some(200), Some(200), Some(200)]);
    assert_eq!(all_fail.len(), 3);
    for ((f, p), c) in all_fail.iter().zip(all_pass.iter()).zip(calls.iter()) {
        assert_eq!(f.resource_id, c.resource_id);
        assert_eq!(p.resource_id, c.resource_id);
        assert!(matches!(f.outcome, RefreshOutcome::Failure(None)));
        assert!(matches!(p.outcome, RefreshOutcome::Success(200)));
    }
}

#[test]
fn empty_group_plans_nothing() {
    let registry = ResourceRegistry::from_entries(&vec![entry(3, &[])]);
    let calls = dispatch(DispatchMode::SingleGroup(3), &registry, &bearer()).ok().unwrap();
    assert!(calls.is_empty());
    let none = dispatch(DispatchMode::AllGroups, &ResourceRegistry::from_entries(&vec![]), &bearer()).ok().unwrap();
    assert!(none.is_empty());
}

#[test]
fn later_entry_replaces_earlier_one() {
    let registry = ResourceRegistry::from_entries(&vec![entry(1, &["a"]), entry(2, &["c"]), entry(1, &["x", "y"])]);
    assert_eq!(registry.len(), 2);
    let members = registry.find(1).unwrap();
    assert_eq!(members, &vec!["x".to_string(), "y".to_string()]);
    assert!(registry.find(9).is_none());
}

#[test]
fn status_classes() {
    assert!(matches!(classify_response(Some(200)), RefreshOutcome::Success(200)));
    assert!(matches!(classify_response(Some(299)), RefreshOutcome::Success(299)));
    assert!(matches!(classify_response(Some(199)), RefreshOutcome::Failure(Some(199))));
    assert!(matches!(classify_response(Some(300)), RefreshOutcome::Failure(Some(300))));
    assert!(matches!(classify_response(Some(404)), RefreshOutcome::Failure(Some(404))));
    assert!(matches!(classify_response(None), RefreshOutcome::Failure(None)));
}

#[test]
fn form_reads_the_five_secrets() {
    let secrets = vec![
        ("username".to_string(), "ana".to_string()),
        ("client_id".to_string(), "cid".to_string()),
        ("other".to_string(), "ignored".to_string()),
        ("grant_type".to_string(), "password".to_string()),
    ];
    let form = acquisition_form(&secrets);
    let names: Vec<&str> = form.iter().map(|f| f.0.as_str()).collect();
    assert_eq!(names, vec!["client_id", "grant_type", "resource", "username", "password"]);
    assert_eq!(form[0].1.as_deref(), Some("cid"));
    assert_eq!(form[1].1.as_deref(), Some("password"));
    assert_eq!(form[2].1, None);
    assert_eq!(form[3].1.as_deref(), Some("ana"));
    assert_eq!(form[4].1, None);
    assert_eq!(TOKEN_ENDPOINT, "https://login.windows.net/common/oauth2/token");
}

#[test]
fn later_secret_wins() {
    let secrets = vec![("k".to_string(), "1".to_string()), ("k".to_string(), "2".to_string())];
    assert_eq!(lookup_secret(&secrets, "k"), Some("2".to_string()));
    assert_eq!(lookup_secret(&secrets, "missing"), None);
}
