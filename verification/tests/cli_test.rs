use agent_terminal::cli::{auth_request, remote_request, wait_timeout_secs, RemoteAction, TestAction};
use agent_terminal::protocol::Request;

#[test]
fn remote_actions_become_requests() {
    match remote_request(RemoteAction::Write { data: "ls\n".to_string() }) {
        Request::WriteInput { data } => assert_eq!(data, "ls\n"),
        other => panic!("unexpected {:?}", other),
    }
    assert!(matches!(remote_request(RemoteAction::Dump), Request::GetOutput));
    match auth_request("tok") {
        Request::Authenticate { token } => assert_eq!(token, "tok"),
        other => panic!("unexpected {:?}", other),
    }
}

#[test]
fn wait_for_defaults_to_five_seconds() {
    assert_eq!(wait_timeout_secs(None), 5);
    assert_eq!(wait_timeout_secs(Some(30)), 30);
    let a = TestAction::WaitFor { pattern: "$".to_string(), timeout: None };
    match a {
        TestAction::WaitFor { timeout, .. } => assert_eq!(wait_timeout_secs(timeout), 5),
        _ => unreachable!(),
    }
}
