use serde_json::Value;
use things_cloud::account::{Account, AccountApiResponse, Error, Status, UNAUTHORIZED};

fn response(status: Status, issues: Vec<Value>) -> AccountApiResponse {
    AccountApiResponse {
        status,
        sla_version: "5".to_string(),
        email: "someone@example.com".to_string(),
        history_key: "abc-123".to_string(),
        maildrop_email: "add-to-things@example.com".to_string(),
        issues,
    }
}

#[test]
fn the_server_refuses_wrong_credentials() {
    assert_eq!(UNAUTHORIZED, 401);
    assert!(matches!(Account::check_status(401), Err(Error::InvalidCredentials)));
    assert!(matches!(Account::check_status(200), Ok(())));
    assert!(matches!(Account::check_status(400), Ok(())));
    assert!(matches!(Account::check_status(403), Ok(())));
    assert!(matches!(Account::check_status(0), Ok(())));
}

#[test]
fn an_active_account_without_issues_logs_in() {
    match Account::from_response(response(Status::Active, vec![])) {
        Ok(account) => {
            assert_eq!(account.email, "someone@example.com");
            assert_eq!(account.history_key, "abc-123");
            assert_eq!(account.maildrop_email, "add-to-things@example.com");
        }
        Err(error) => panic!("{error:?}"),
    }
}

#[test]
fn issues_fail_the_login_whatever_the_status() {
    let issues = vec![Value::String("payment".to_string()), Value::Bool(true)];
    match Account::from_response(response(Status::Active, issues.clone())) {
        Err(Error::AccountHasIssues(found)) => assert_eq!(found, issues),
        other => panic!("{other:?}"),
    }
    match Account::from_response(response(Status::Other("x".to_string()), issues.clone())) {
        Err(Error::AccountHasIssues(found)) => assert_eq!(found, issues),
        other => panic!("{other:?}"),
    }
}

#[test]
fn an_unknown_status_fails_the_login() {
    let status = Status::Other("SYAccountStatusSuspended".to_string());
    match Account::from_response(response(status, vec![])) {
        Err(Error::UnknownAccountStatus(name)) => assert_eq!(name, "SYAccountStatusSuspended"),
        other => panic!("{other:?}"),
    }
}

#[test]
fn the_password_goes_into_the_authorization_header() {
    match Account::authorization("secret") {
        Ok(value) => assert_eq!(value, "Password secret"),
        Err(error) => panic!("{error:?}"),
    }
    match Account::authorization("") {
        Ok(value) => assert_eq!(value, "Password "),
        Err(error) => panic!("{error:?}"),
    }
    match Account::authorization("a b\tc~") {
        Ok(value) => assert_eq!(value, "Password a b\tc~"),
        Err(error) => panic!("{error:?}"),
    }
    match Account::authorization("p\u{e4}ss\u{20ac}") {
        Ok(value) => assert_eq!(value, "Password p\u{e4}ss\u{20ac}"),
        Err(error) => panic!("{error:?}"),
    }
}

#[test]
fn a_password_that_no_header_can_hold_is_refused() {
    assert!(matches!(Account::authorization("two\nlines"), Err(Error::InvalidCredentials)));
    assert!(matches!(Account::authorization("bell\u{7}"), Err(Error::InvalidCredentials)));
    assert!(matches!(Account::authorization("\u{7f}"), Err(Error::InvalidCredentials)));
    assert!(matches!(Account::authorization("\u{1f}"), Err(Error::InvalidCredentials)));
    assert!(matches!(Account::authorization("nul\u{0}"), Err(Error::InvalidCredentials)));
}

#[test]
fn the_login_request_names_the_email() {
    assert_eq!(
        Account::login_url("someone@example.com"),
        "https://cloud.culturedcode.com/version/1/account/someone@example.com"
    );
}
