use xnode_demo::broker::{BrokerError, BrokerStep, SessionBroker};

#[test]
fn successful_run_logs_out_once_and_returns_action_result() {
    let mut b: SessionBroker<String> = SessionBroker::new();
    assert_eq!(b.next_step(), BrokerStep::DoLogin);
    b.login_result(true);
    assert_eq!(b.next_step(), BrokerStep::RunAction);
    b.action_result(Ok("body".to_string()));
    assert_eq!(b.next_step(), BrokerStep::DoLogout);
    b.logout_attempted(true);
    assert_eq!(b.next_step(), BrokerStep::Done);
    assert_eq!(b.take_result(), Ok("body".to_string()));
}

#[test]
fn logout_failure_never_overrides_the_action_result() {
    let mut b: SessionBroker<u32> = SessionBroker::new();
    b.login_result(true);
    b.action_result(Ok(7));
    b.logout_attempted(false);
    assert_eq!(b.take_result(), Ok(7));
}

#[test]
fn action_error_still_logs_out_and_is_returned() {
    let mut b: SessionBroker<u32> = SessionBroker::new();
    b.login_result(true);
    b.action_result(Err(BrokerError::NetworkError));
    assert_eq!(b.next_step(), BrokerStep::DoLogout);
    b.logout_attempted(true);
    assert_eq!(b.take_result(), Err(BrokerError::NetworkError));
}

#[test]
fn failed_login_skips_action_and_logout() {
    let mut b: SessionBroker<u32> = SessionBroker::new();
    b.login_result(false);
    assert_eq!(b.next_step(), BrokerStep::Done);
    assert_eq!(b.take_result(), Err(BrokerError::AuthenticationFailed));
}
