use dynamic_domain_set::backend::DynamicDomainSetBackend;
use dynamic_domain_set::error::DnsError;
use dynamic_domain_set::fixtures::test_config;
use dynamic_domain_set::requests::{
    AppendStep, Operation, ReplyOutcome, SendOutcome, WorkerExit,
};
use dynamic_domain_set::rules::{DynamicDomainMutation, DynamicDomainRuleKind};

fn backend() -> DynamicDomainSetBackend {
    DynamicDomainSetBackend::new("learned".to_string(), test_config("unused".to_string()))
}

fn started() -> DynamicDomainSetBackend {
    let mut backend = backend();
    backend
        .start(Ok("domain:a.example\n".to_string()))
        .expect("start");
    backend
}

fn error<T>(result: Result<T, DnsError>) -> String {
    match result {
        Ok(_) => panic!("an error was expected"),
        Err(err) => err.message(),
    }
}

fn one(rule: &str) -> Vec<String> {
    vec![rule.to_string()]
}

#[test]
fn nothing_can_be_sent_before_the_start() {
    let mut backend = backend();
    let expected = "dynamic_domain_set 'learned' worker is not initialized";
    assert_eq!(backend.tag(), "learned");
    assert_eq!(error(backend.sender()), expected);
    assert_eq!(
        error(backend.remove_rules_sync(one("a.example"), DynamicDomainRuleKind::Full)),
        expected
    );
    match backend.begin_append(one("a.example"), DynamicDomainRuleKind::Full) {
        AppendStep::Answered(answer) => assert_eq!(error(answer), expected),
        AppendStep::Enqueue(_) => panic!("there is no worker"),
    }
    assert_eq!(backend.list_rules(0, 10).total, 0);
    assert!(backend.list_rules(0, 10).rules.is_empty());
    assert_eq!(error(backend.shutdown(None)), expected);
    assert_eq!(
        error(backend.shutdown(Some(WorkerExit::Failed("task panicked".to_string())))),
        expected
    );
    backend.start(Ok(String::new())).expect("start");
    match backend.begin_append(one("a.example"), DynamicDomainRuleKind::Full) {
        AppendStep::Enqueue(staged) => assert_eq!(staged.rules, vec!["full:a.example"]),
        AppendStep::Answered(_) => panic!("the rule is new"),
    }
    assert!(started().sender().is_ok());
}

#[test]
fn invalid_rules_are_refused_with_their_position() {
    let mut backend = started();
    let raw = vec!["b.example".to_string(), "c .example".to_string()];
    match backend.begin_append(raw.clone(), DynamicDomainRuleKind::Full) {
        AppendStep::Answered(answer) => {
            assert_eq!(error(answer), "append[1]: invalid rule 'c .example'")
        }
        AppendStep::Enqueue(_) => panic!("not a rule"),
    }
    assert_eq!(
        error(backend.remove_rules_sync(raw, DynamicDomainRuleKind::Full)),
        "remove[1]: invalid rule 'c .example'"
    );
    assert_eq!(backend.list_rules(0, 10).rules, vec!["domain:a.example"]);
}

#[test]
fn refused_append_is_rolled_back() {
    let mut backend = started();
    let raw = vec![
        "b.example".to_string(),
        "a.example".to_string(),
        "B.example".to_string(),
    ];
    let staged = match backend.begin_append(raw, DynamicDomainRuleKind::Domain) {
        AppendStep::Enqueue(staged) => staged,
        AppendStep::Answered(_) => panic!("there is a new rule"),
    };
    assert_eq!(staged.rules, vec!["domain:b.example"]);
    assert_eq!(backend.list_rules(0, 10).total, 2);
    assert_eq!(
        error(backend.append_rules_async(staged, Err("no available capacity".to_string()))),
        "dynamic_domain_set 'learned' append queue failed: no available capacity"
    );
    assert_eq!(backend.list_rules(0, 10).rules, vec!["domain:a.example"]);
}

#[test]
fn accepted_append_is_counted() {
    let mut backend = started();
    let staged = match backend.begin_append(one("b.example"), DynamicDomainRuleKind::Full) {
        AppendStep::Enqueue(staged) => staged,
        AppendStep::Answered(_) => panic!("there is a new rule"),
    };
    let answer = backend.append_rules_async(staged, Ok(())).expect("append");
    assert_eq!(answer, DynamicDomainMutation { added: 1, removed: 0, total: 2 });
    match backend.begin_append(one("full:B.example."), DynamicDomainRuleKind::Domain) {
        AppendStep::Answered(Ok(answer)) => {
            assert_eq!(answer, DynamicDomainMutation { added: 0, removed: 0, total: 2 })
        }
        _ => panic!("the rule is staged already"),
    }
}

#[test]
fn waiting_append_reports_each_failure() {
    let mut backend = started();
    for (outcome, expected) in [
        (
            SendOutcome::Closed("channel closed".to_string()),
            "dynamic_domain_set 'learned' append queue closed: channel closed",
        ),
        (
            SendOutcome::TimedOut,
            "dynamic_domain_set 'learned' append timed out enqueueing work",
        ),
    ] {
        let staged = match backend.begin_append(one("b.example"), DynamicDomainRuleKind::Full) {
            AppendStep::Enqueue(staged) => staged,
            AppendStep::Answered(_) => panic!("there is a new rule"),
        };
        assert_eq!(error(backend.append_rules_sync(&staged, outcome)), expected);
        assert_eq!(backend.list_rules(0, 10).rules, vec!["domain:a.example"]);
    }
    let staged = match backend.begin_append(one("b.example"), DynamicDomainRuleKind::Full) {
        AppendStep::Enqueue(staged) => staged,
        AppendStep::Answered(_) => panic!("there is a new rule"),
    };
    assert!(backend.append_rules_sync(&staged, SendOutcome::Sent).is_ok());
    assert_eq!(backend.list_rules(0, 10).total, 2);
    let answer = DynamicDomainMutation { added: 1, removed: 0, total: 2 };
    assert_eq!(
        backend.append_reply(ReplyOutcome::Answered(Ok(answer))).expect("answer"),
        answer
    );
    assert_eq!(
        error(backend.append_reply(ReplyOutcome::Dropped)),
        "dynamic_domain_set 'learned' append worker dropped reply"
    );
    assert_eq!(
        error(backend.append_reply(ReplyOutcome::TimedOut)),
        "dynamic_domain_set 'learned' append timed out waiting for flush"
    );
    assert_eq!(backend.list_rules(0, 10).total, 2);
}

#[test]
fn requests_report_each_failure() {
    let backend = started();
    for (operation, name) in [
        (Operation::Remove, "remove"),
        (Operation::Clear, "clear"),
        (Operation::Reload, "reload"),
    ] {
        assert!(backend.request_sent(operation, Ok(())).is_ok());
        assert_eq!(
            error(backend.request_sent(operation, Err("channel closed".to_string()))),
            format!("dynamic_domain_set 'learned' {name} queue closed: channel closed")
        );
        assert_eq!(
            error(backend.request_reply(operation, None)),
            format!("dynamic_domain_set 'learned' {name} worker dropped reply")
        );
    }
    let answer = DynamicDomainMutation { added: 0, removed: 1, total: 0 };
    assert_eq!(
        backend
            .request_reply(Operation::Remove, Some(Ok(answer)))
            .expect("answer"),
        answer
    );
}

#[test]
fn shutdown_reports_a_failed_worker() {
    let backend = started();
    assert!(backend.shutdown(None).is_ok());
    assert!(backend.shutdown(Some(WorkerExit::Finished)).is_ok());
    assert!(backend.shutdown(Some(WorkerExit::Cancelled)).is_ok());
    match backend.shutdown(Some(WorkerExit::Failed("task panicked".to_string()))) {
        Err(DnsError::Runtime(text)) => {
            assert_eq!(text, "dynamic_domain_set worker failed: task panicked")
        }
        _ => panic!("an error was expected"),
    }
}

#[test]
fn flush_interval_is_never_zero() {
    assert_eq!(started().flush_interval_ms(), 10);
    let mut config = test_config("unused".to_string());
    config.flush_interval_ms = 0;
    assert_eq!(
        DynamicDomainSetBackend::new("learned".to_string(), config).flush_interval_ms(),
        1
    );
}

#[test]
fn pages_cover_the_list() {
    let mut backend = backend();
    backend
        .start(Ok("a\nb\nc\nd\ne\n".to_string()))
        .expect("start");
    let mut seen: Vec<String> = Vec::new();
    let mut cursor = Some(0);
    let mut pages = 0;
    while let Some(at) = cursor {
        let page = backend.list_rules(at, 2);
        assert_eq!(page.total, 5);
        seen.extend(page.rules);
        cursor = page.next_cursor;
        pages += 1;
    }
    assert_eq!(pages, 3);
    assert_eq!(seen, vec!["domain:a", "domain:b", "domain:c", "domain:d", "domain:e"]);
    let behind = backend.list_rules(9, 2);
    assert!(behind.rules.is_empty());
    assert!(behind.next_cursor.is_none());
    let empty = backend.list_rules(1, 0);
    assert!(empty.rules.is_empty());
    assert_eq!(empty.next_cursor, Some(1));
    assert_eq!(backend.list_rules(1, usize::MAX).rules.len(), 4);
}
