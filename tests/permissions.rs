use forge_scan::pattern::{find_regex_for_endpoint, pattern_accepts};
use forge_scan::permissions::{
    check_url_for_permissions, get_request_type, get_scopes, ingest, merge, Endpoint,
    PermissionData, PermissionTable, PermissionType, RequestDetails, RequestType, SwaggerResponse,
};

fn strings(v: &[&str]) -> Vec<String> {
    v.iter().map(|s| s.to_string()).collect()
}

fn details(groups: &[&[&str]]) -> RequestDetails {
    RequestDetails {
        permission: groups.iter().map(|g| PermissionData { scopes: strings(g) }).collect(),
    }
}

fn endpoint_with_get(scopes: &[&str]) -> Endpoint {
    Endpoint { get: Some(details(&[scopes])), put: None, patch: None, post: None, delete: None }
}

fn table(rows: &[(&str, RequestType, &[&str])]) -> PermissionTable {
    let mut t = PermissionTable::new();
    for (template, method, scopes) in rows {
        t.insert(&template.to_string(), *method, &strings(scopes));
    }
    t
}

fn sorted(mut v: Vec<String>) -> Vec<String> {
    v.sort();
    v.dedup();
    v
}

#[test]
fn pattern_of_template() {
    assert_eq!(find_regex_for_endpoint("/rest/api/{id}/issue"), "/rest/api/.*/issue\\#");
    assert_eq!(find_regex_for_endpoint("/a/{x}/{y}"), "/a/.*/.*\\#");
    assert_eq!(find_regex_for_endpoint("/plain"), "/plain\\#");
    assert_eq!(find_regex_for_endpoint("/open{x"), "/open\\{x\\#");
    assert_eq!(find_regex_for_endpoint("/a-b"), "/a\\-b\\#");
    assert_eq!(find_regex_for_endpoint(""), "\\#");
}

#[test]
fn pattern_matches_concrete_path() {
    let p = find_regex_for_endpoint("/rest/api/{id}/issue");
    assert!(pattern_accepts(&p, "/rest/api/123/issue"));
}

#[test]
fn delimiter_rejects_longer_path() {
    let p = find_regex_for_endpoint("/rest/api/{id}/issue");
    assert!(!pattern_accepts(&p, "/rest/api/123/issue-extra"));
}

#[test]
fn missing_delimiter_would_match_longer_path() {
    let p = find_regex_for_endpoint("/rest/api/{id}/issue");
    let undelimited = p.strip_suffix("\\#").unwrap();
    assert_eq!(undelimited, "/rest/api/.*/issue");
    let re = regex::Regex::new(undelimited).unwrap();
    assert!(re.is_match("/rest/api/123/issue-extra"));
}

#[test]
fn delimiter_regression_longer_path_with_shared_prefix() {
    let p = find_regex_for_endpoint("/rest/api/{id}/issue");
    assert!(!pattern_accepts(&p, "/rest/api/123/issue/extra"));
    assert!(!pattern_accepts(&p, "/rest/api/123/issuemetadata"));
    assert!(pattern_accepts(&p, "/rest/api/123/456/issue"));
}

#[test]
fn shorter_template_needs_path_end() {
    let p = find_regex_for_endpoint("/issue");
    assert!(pattern_accepts(&p, "/issue"));
    assert!(!pattern_accepts(&p, "/issue-metadata"));
    assert!(!pattern_accepts(&p, "/issues"));
    assert!(pattern_accepts(&p, "https://example.test/issue"));
}

#[test]
fn special_characters_stay_literal() {
    let p = find_regex_for_endpoint("/rest/api/3/field.search");
    assert_eq!(p, "/rest/api/3/field\\.search\\#");
    assert!(pattern_accepts(&p, "/rest/api/3/field.search"));
    assert!(!pattern_accepts(&p, "/rest/api/3/fieldXsearch"));
    let q = find_regex_for_endpoint("/x/.*(a|b)+");
    assert!(pattern_accepts(&q, "/x/.*(a|b)+"));
    assert!(!pattern_accepts(&q, "/x/anything"));
}

#[test]
fn expression_that_does_not_compile_matches_nothing() {
    assert!(!pattern_accepts("(", "("));
    assert!(pattern_accepts("/a/.*/b#", "/a/x/b"));
    assert!(!pattern_accepts("/a/.*/b#", "/a/x/c"));
}

#[test]
fn lookup_prefers_longest_pattern() {
    let t = table(&[
        ("/rest/api/{id}", RequestType::Get, &["read:short"]),
        ("/rest/api/{id}/comment", RequestType::Get, &["read:comment"]),
    ]);
    let r = check_url_for_permissions(&t, RequestType::Get, "/rest/api/5/comment");
    assert_eq!(r, strings(&["read:comment"]));
    let r = check_url_for_permissions(&t, RequestType::Get, "/rest/api/5");
    assert_eq!(r, strings(&["read:short"]));
}

#[test]
fn lookup_filters_by_method() {
    let t = table(&[
        ("/rest/api/{id}/comment", RequestType::Post, &["write:comment"]),
        ("/rest/api/{id}", RequestType::Get, &["read:short"]),
    ]);
    let r = check_url_for_permissions(&t, RequestType::Get, "/rest/api/5/comment");
    assert_eq!(r, strings(&["read:short"]));
    let r = check_url_for_permissions(&t, RequestType::Delete, "/rest/api/5/comment");
    assert!(r.is_empty());
}

#[test]
fn lookup_without_match_is_empty() {
    let t = table(&[("/rest/api/issue", RequestType::Get, &["read"])]);
    assert!(check_url_for_permissions(&t, RequestType::Get, "/wiki/page").is_empty());
    assert!(check_url_for_permissions(&PermissionTable::new(), RequestType::Get, "/x").is_empty());
}

#[test]
fn merge_unions_scopes_of_same_key() {
    let a = table(&[("/x", RequestType::Get, &["a"]), ("/y", RequestType::Put, &["p"])]);
    let b = table(&[("/x", RequestType::Get, &["b"]), ("/z", RequestType::Get, &["z"])]);
    let m = merge(&a, &b);
    assert_eq!(m.entries.len(), 3);
    let x = check_url_for_permissions(&m, RequestType::Get, "/x");
    assert_eq!(sorted(x), strings(&["a", "b"]));
    assert_eq!(check_url_for_permissions(&m, RequestType::Put, "/y"), strings(&["p"]));
    assert_eq!(check_url_for_permissions(&m, RequestType::Get, "/z"), strings(&["z"]));
}

#[test]
fn insert_keeps_empty_scope_set_distinct_from_absence() {
    let t = table(&[("/x", RequestType::Get, &[])]);
    assert_eq!(t.entries.len(), 1);
    assert!(t.entries[0].scopes.is_empty());
    assert_eq!(t.entries[0].pattern, "/x\\#");
}

#[test]
fn ingest_unreachable_source_is_empty() {
    let t = ingest(&None);
    assert!(t.entries.is_empty());
}

#[test]
fn ingest_document_builds_entries() {
    let doc = SwaggerResponse {
        paths: vec![
            ("/rest/api/{id}".to_string(), endpoint_with_get(&["read:a", "read:b"])),
            (
                "/rest/api/{id}/comment".to_string(),
                Endpoint {
                    get: None,
                    put: None,
                    patch: None,
                    post: Some(details(&[&["write:c"], &["write:d"]])),
                    delete: Some(details(&[])),
                },
            ),
        ],
    };
    let t = ingest(&Some(doc));
    assert_eq!(t.entries.len(), 3);
    assert_eq!(
        check_url_for_permissions(&t, RequestType::Get, "/rest/api/7"),
        strings(&["read:a", "read:b"])
    );
    assert_eq!(
        check_url_for_permissions(&t, RequestType::Post, "/rest/api/7/comment"),
        strings(&["write:c", "write:d"])
    );
    assert!(check_url_for_permissions(&t, RequestType::Delete, "/rest/api/7/comment").is_empty());
}

#[test]
fn get_scopes_flattens_entries() {
    let d = details(&[&["a", "b"], &[], &["c"]]);
    assert_eq!(get_scopes(&d), strings(&["a", "b", "c"]));
}

#[test]
fn get_request_type_lists_methods_in_order() {
    let e = Endpoint {
        get: Some(details(&[&["g"]])),
        put: None,
        patch: Some(details(&[&["p"]])),
        post: None,
        delete: Some(details(&[&["d"]])),
    };
    let r = get_request_type(&e, "/k");
    let methods: Vec<RequestType> = r.iter().map(|t| t.1).collect();
    assert_eq!(methods, vec![RequestType::Delete, RequestType::Patch, RequestType::Get]);
    assert!(r.iter().all(|t| t.0 == "/k"));
    assert_eq!(r[2].2, strings(&["g"]));
}

#[test]
fn get_scopes_drops_repeated_scopes() {
    let d = details(&[&["read:jira-work", "write:jira-work"], &["write:jira-work", "manage:jira-project"]]);
    assert_eq!(get_scopes(&d), strings(&["read:jira-work", "write:jira-work", "manage:jira-project"]));
    let e = details(&[&["a"], &["a"]]);
    assert_eq!(get_scopes(&e), strings(&["a"]));
}

#[test]
fn merge_keeps_each_scope_once() {
    let a = table(&[("/x", RequestType::Get, &["a", "b"])]);
    let b = table(&[("/x", RequestType::Get, &["b", "a", "c"])]);
    let m = merge(&a, &b);
    assert_eq!(check_url_for_permissions(&m, RequestType::Get, "/x"), strings(&["a", "b", "c"]));
}

#[test]
fn permission_types_differ() {
    assert_ne!(PermissionType::Classic, PermissionType::Granular);
}

#[test]
fn ingest_unions_colliding_keys_of_one_document() {
    let doc = SwaggerResponse {
        paths: vec![
            ("/x".to_string(), endpoint_with_get(&["a", "b"])),
            ("/x".to_string(), endpoint_with_get(&["b", "c"])),
        ],
    };
    let t = ingest(&Some(doc));
    assert_eq!(t.entries.len(), 1);
    assert_eq!(check_url_for_permissions(&t, RequestType::Get, "/x"), strings(&["a", "b", "c"]));
}
