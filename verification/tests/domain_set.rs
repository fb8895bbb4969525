use dynamic_domain_set::backend::DynamicDomainSetBackend;
use dynamic_domain_set::error::DnsError;
use dynamic_domain_set::fixtures::{test_config, test_name, test_question};
use dynamic_domain_set::matcher::DomainRuleMatcher;
use dynamic_domain_set::requests::AppendStep;
use dynamic_domain_set::rules::{canonicalize_rule, DynamicDomainMutation, DynamicDomainRuleKind};
use dynamic_domain_set::snapshot::DynamicDomainSetSnapshot;
use dynamic_domain_set::storage::parse_rule_file;
use dynamic_domain_set::worker::{Progress, Step, Worker, WorkerCommand, WorkerEvent};

/// A worker on a rule file in memory.
struct Service {
    backend: DynamicDomainSetBackend,
    worker: Worker<u32>,
    file: Option<String>,
    /// Whether writing to the file fails.
    broken: bool,
    stopped: bool,
    told: Vec<u32>,
    failures: Vec<String>,
}

type Answer = Result<DynamicDomainMutation, DnsError>;

fn mutation(added: usize, removed: usize, total: usize) -> DynamicDomainMutation {
    DynamicDomainMutation { added, removed, total }
}

fn message(answer: &Answer) -> String {
    match answer {
        Ok(_) => panic!("an error was expected"),
        Err(err) => err.message(),
    }
}

impl Service {
    fn start(file: Option<&str>) -> Service {
        let backend =
            DynamicDomainSetBackend::new("learned".to_string(), test_config("rules.txt".to_string()));
        let mut service = Service {
            backend,
            worker: Worker::new(),
            file: file.map(|text| text.to_string()),
            broken: false,
            stopped: false,
            told: Vec::new(),
            failures: Vec::new(),
        };
        let bootstrap = service
            .backend
            .bootstrap_file_if_needed(service.file.is_some())
            .expect("bootstrap");
        if let Some(contents) = bootstrap {
            service.file = Some(contents);
        }
        let contents = service.read();
        service.backend.start(contents).expect("backend should start");
        service
    }

    fn read(&self) -> Result<String, DnsError> {
        match &self.file {
            Some(text) => Ok(text.clone()),
            None => Err(DnsError::Io("no such file".to_string())),
        }
    }

    fn write(&mut self, contents: String) -> Result<(), DnsError> {
        if self.broken {
            return Err(DnsError::Io("disk full".to_string()));
        }
        self.file = Some(contents);
        Ok(())
    }

    fn report(&mut self, progress: Progress<u32>, answers: &mut Vec<(u32, Answer)>) -> Step<u32> {
        self.failures.extend(progress.failure);
        for reply in progress.replies {
            answers.push((reply.wait, reply.result));
        }
        progress.step
    }

    fn event(&mut self, event: WorkerEvent<u32>) -> Vec<(u32, Answer)> {
        let mut answers = Vec::new();
        let progress = self.worker.receive(&mut self.backend, event);
        let mut step = self.report(progress, &mut answers);
        loop {
            step = match step {
                Step::Wait => return answers,
                Step::Stop { done } => {
                    self.stopped = true;
                    self.told.extend(done);
                    return answers;
                }
                Step::Append { flush, next } => {
                    let text = self.file.clone().unwrap_or_default() + &flush.contents;
                    let written = self.write(text);
                    let progress = self.worker.appended(&mut self.backend, flush, written, next);
                    self.report(progress, &mut answers)
                }
                Step::Rewrite { contents, rewrite, wait } => {
                    let written = self.write(contents);
                    let reply = self.worker.rewritten(&mut self.backend, rewrite, wait, written);
                    answers.push((reply.wait, reply.result));
                    Step::Wait
                }
                Step::Read { wait } => {
                    let contents = self.read();
                    let reply = self.worker.reloaded(&mut self.backend, wait, contents);
                    answers.push((reply.wait, reply.result));
                    Step::Wait
                }
            };
        }
    }

    fn command(&mut self, command: WorkerCommand<u32>) -> Answer {
        let mut answers = self.event(WorkerEvent::Command(command));
        let (wait, answer) = answers.pop().expect("an answer");
        assert_eq!(wait, 7);
        answer
    }

    fn append(&mut self, rule: &str, kind: DynamicDomainRuleKind) -> Answer {
        match self.backend.begin_append(vec![rule.to_string()], kind) {
            AppendStep::Answered(answer) => answer,
            AppendStep::Enqueue(staged) => self.command(WorkerCommand::Append {
                rules: staged.rules,
                wait: Some(7),
            }),
        }
    }

    fn remove(&mut self, rule: &str, kind: DynamicDomainRuleKind) -> Answer {
        let rules = self
            .backend
            .remove_rules_sync(vec![rule.to_string()], kind)
            .expect("remove");
        self.command(WorkerCommand::Remove { rules, wait: 7 })
    }

    fn contains(&self, name: &str) -> bool {
        self.backend.contains_name(&test_name(name))
    }

    fn listed(&self) -> Vec<String> {
        self.backend.list_rules(0, 1000).rules
    }
}

#[test]
fn canonicalize_rule_normalizes_plain_full_domain() {
    let rule = canonicalize_rule(" WWW.Example.COM. ", DynamicDomainRuleKind::Full, "test")
        .expect("rule should canonicalize");
    assert_eq!(rule, "full:www.example.com");
}

#[test]
fn read_file_ignores_empty_comments_and_deduplicates() {
    let rules = parse_rule_file(
        "\n# comment\nExample.COM\nfull:WWW.Example.COM.\nexample.com\n",
        "rules.txt",
    )
    .expect("rules should load");
    assert_eq!(rules, vec!["domain:example.com", "full:www.example.com"]);
}

#[test]
fn dynamic_domain_set_appends_and_matches() {
    let mut service = Service::start(None);
    service
        .append("Example.COM.", DynamicDomainRuleKind::Full)
        .expect("append should succeed");

    assert!(service.contains("example.com."));
    assert_eq!(service.file.clone().expect("file should exist"), "full:example.com\n");

    service.event(WorkerEvent::Command(WorkerCommand::Shutdown { done: 9 }));
    assert!(service.stopped);
    assert_eq!(service.told, vec![9]);
}

#[test]
fn dynamic_domain_set_remove_clear_and_reload() {
    let mut service = Service::start(Some("full:one.example\n"));
    assert!(service.contains("one.example."));

    service
        .remove("full:one.example", DynamicDomainRuleKind::Full)
        .expect("remove");
    assert!(!service.contains("one.example."));

    service.file = Some("full:two.example\n".to_string());
    service
        .command(WorkerCommand::Reload { wait: 7 })
        .expect("reload");
    assert!(service.contains("two.example."));

    service
        .command(WorkerCommand::Clear { wait: 7 })
        .expect("clear");
    assert!(!service.contains("two.example."));
    assert_eq!(service.file.clone().expect("file"), "");
}

#[test]
fn rules_are_added_removed_and_cleared() {
    let mut service = Service::start(None);
    let added = service
        .append("Api.Example.", DynamicDomainRuleKind::Full)
        .expect("append");
    assert_eq!(added, mutation(1, 0, 1));
    assert!(service.contains("api.example."));

    let removed = service
        .remove("full:api.example", DynamicDomainRuleKind::Domain)
        .expect("remove");
    assert_eq!(removed, mutation(0, 1, 0));
    assert!(!service.contains("api.example."));

    service
        .append("clear.example", DynamicDomainRuleKind::Full)
        .expect("append before clear");
    let cleared = service.command(WorkerCommand::Clear { wait: 7 }).expect("clear");
    assert_eq!(cleared, mutation(0, 1, 0));
    assert_eq!(service.file.clone().expect("file"), "");
    assert!(!service.contains("clear.example."));
}

#[test]
fn contains_question_uses_name_matching() {
    let mut matcher = DomainRuleMatcher::new();
    matcher
        .add_expression("domain:example.com", "test")
        .expect("rule");
    let compiled = matcher.finalize();
    let snapshot = match DynamicDomainSetSnapshot::from_matcher(matcher, compiled) {
        Ok(snapshot) => snapshot,
        Err(_) => panic!("finalize"),
    };
    let mut backend =
        DynamicDomainSetBackend::new("learned".to_string(), test_config("unused".to_string()));
    backend.store_snapshot(snapshot);
    assert!(backend.contains_question(&test_question("www.example.com.")));
    assert!(!backend.contains_question(&test_question("www.example.org.")));
}

#[test]
fn repeated_rules_are_listed_once() {
    let mut service = Service::start(Some("domain:a.example\n"));
    let again = service
        .append("A.Example", DynamicDomainRuleKind::Domain)
        .expect("append");
    assert_eq!(again, mutation(0, 0, 1));
    assert_eq!(service.file.clone().expect("file"), "domain:a.example\n");
    service
        .append("b.example", DynamicDomainRuleKind::Domain)
        .expect("append");
    assert_eq!(service.listed(), vec!["domain:a.example", "domain:b.example"]);
    assert_eq!(
        service.file.clone().expect("file"),
        "domain:a.example\ndomain:b.example\n"
    );
}

#[test]
fn removed_rules_do_not_reappear_on_reload() {
    let mut service = Service::start(Some("a.example\nb.example\nc.example\n"));
    let removed = service
        .remove("b.example", DynamicDomainRuleKind::Domain)
        .expect("remove");
    assert_eq!(removed, mutation(0, 1, 2));
    let reloaded = service
        .command(WorkerCommand::Reload { wait: 7 })
        .expect("reload");
    assert_eq!(reloaded, mutation(0, 0, 2));
    assert_eq!(service.listed(), vec!["domain:a.example", "domain:c.example"]);
    assert!(!service.contains("b.example"));
    assert!(service.contains("c.example"));
}

#[test]
fn failed_flush_takes_rules_off_the_list() {
    let mut service = Service::start(Some("domain:a.example\n"));
    service.broken = true;
    let failed = service.append("b.example", DynamicDomainRuleKind::Domain);
    assert!(matches!(failed, Err(DnsError::Plugin(_))));
    assert_eq!(message(&failed), "disk full");
    assert_eq!(service.failures, vec!["disk full"]);
    assert_eq!(service.file.clone().expect("file"), "domain:a.example\n");
    assert_eq!(service.listed(), vec!["domain:a.example"]);
    assert!(!service.contains("b.example"));
    service.broken = false;
    let retried = service
        .append("b.example", DynamicDomainRuleKind::Domain)
        .expect("append");
    assert_eq!(retried, mutation(1, 0, 2));
    assert!(service.contains("b.example"));
}

#[test]
fn failed_rewrite_is_reported() {
    let mut service = Service::start(Some("domain:a.example\n"));
    service.broken = true;
    let failed = service.remove("a.example", DynamicDomainRuleKind::Domain);
    assert!(matches!(failed, Err(DnsError::Io(_))));
    assert_eq!(message(&failed), "disk full");
    assert!(service.listed().is_empty());
    assert!(service.contains("a.example"));
}

#[test]
fn unreadable_file_is_reported() {
    let mut service = Service::start(Some("domain:a.example\n"));
    service.file = None;
    let failed = service.command(WorkerCommand::Reload { wait: 7 });
    assert!(matches!(failed, Err(DnsError::Io(_))));
    service.file = Some("ok.example\nnot a rule\n".to_string());
    let failed = service.command(WorkerCommand::Reload { wait: 7 });
    assert_eq!(message(&failed), "rules.txt[1]: invalid rule 'not a rule'");
    assert_eq!(service.listed(), vec!["domain:a.example"]);
}

#[test]
fn rules_that_do_not_compile_never_reach_the_file() {
    let mut service = Service::start(Some("domain:a.example\n"));
    let failed = service.append("regexp:(", DynamicDomainRuleKind::Full);
    assert!(matches!(failed, Err(DnsError::Plugin(_))));
    assert!(message(&failed).contains("regex parse error"));
    assert_eq!(service.failures, vec![message(&failed)]);
    assert_eq!(service.listed(), vec!["domain:a.example"]);
    assert_eq!(service.file.clone().expect("file"), "domain:a.example\n");
    let reloaded = service
        .command(WorkerCommand::Reload { wait: 7 })
        .expect("reload");
    assert_eq!(reloaded, mutation(0, 0, 1));
    assert!(service.contains("a.example"));
}

#[test]
fn command_goes_on_after_appends_that_do_not_compile() {
    let mut service = Service::start(Some("domain:a.example\ndomain:b.example\n"));
    let mut config = test_config("rules.txt".to_string());
    config.batch_size = 9;
    service.backend = DynamicDomainSetBackend::new("learned".to_string(), config);
    service.backend.start(service.read()).expect("start");
    let step = service
        .backend
        .begin_append(vec!["regexp:(".to_string()], DynamicDomainRuleKind::Full);
    if let AppendStep::Enqueue(staged) = step {
        service.event(WorkerEvent::Command(WorkerCommand::Append {
            rules: staged.rules,
            wait: Some(1),
        }));
    }
    let answers = service.event(WorkerEvent::Command(WorkerCommand::Remove {
        rules: vec!["domain:a.example".to_string()],
        wait: 2,
    }));
    assert_eq!(answers.len(), 2);
    assert_eq!(answers[0].0, 1);
    assert!(answers[0].1.is_err());
    assert_eq!(answers[1].0, 2);
    assert!(matches!(answers[1].1, Ok(DynamicDomainMutation { added: 0, removed: 1, total: 1 })));
    assert_eq!(service.file.clone().expect("file"), "domain:b.example\n");
    assert_eq!(service.listed(), vec!["domain:b.example"]);
}

#[test]
fn unfinished_last_line_is_finished_first() {
    let mut service = Service::start(Some("full:a.example"));
    service
        .append("b.example", DynamicDomainRuleKind::Full)
        .expect("append");
    assert_eq!(service.file.clone().expect("file"), "full:a.example\nfull:b.example\n");
    service
        .append("c.example", DynamicDomainRuleKind::Full)
        .expect("append");
    service
        .command(WorkerCommand::Reload { wait: 7 })
        .expect("reload");
    assert_eq!(
        service.listed(),
        vec!["full:a.example", "full:b.example", "full:c.example"]
    );
    service.file = Some("d.example".to_string());
    service
        .command(WorkerCommand::Reload { wait: 7 })
        .expect("reload");
    service
        .remove("d.example", DynamicDomainRuleKind::Domain)
        .expect("remove");
    service
        .append("e.example", DynamicDomainRuleKind::Full)
        .expect("append");
    assert_eq!(service.file.clone().expect("file"), "full:e.example\n");
}

#[test]
fn reload_keeps_the_list_and_its_order() {
    let mut config = test_config("rules.txt".to_string());
    config.batch_size = 3;
    let mut service = Service::start(Some("z.example\na.example"));
    service.backend = DynamicDomainSetBackend::new("learned".to_string(), config);
    service.backend.start(service.read()).expect("start");
    for rule in ["m.example", "a.example", "b.example", "c.example", "d.example"] {
        let step = service
            .backend
            .begin_append(vec![rule.to_string()], DynamicDomainRuleKind::Domain);
        if let AppendStep::Enqueue(staged) = step {
            service.event(WorkerEvent::Command(WorkerCommand::Append {
                rules: staged.rules,
                wait: None,
            }));
        }
    }
    let removed = service.command(WorkerCommand::Remove {
        rules: vec!["domain:b.example".to_string()],
        wait: 7,
    });
    assert_eq!(removed.expect("remove"), mutation(0, 1, 5));
    let step = service
        .backend
        .begin_append(vec!["k.example".to_string()], DynamicDomainRuleKind::Domain);
    if let AppendStep::Enqueue(staged) = step {
        service.event(WorkerEvent::Command(WorkerCommand::Append {
            rules: staged.rules,
            wait: None,
        }));
    }
    let before = service.listed();
    let reloaded = service
        .command(WorkerCommand::Reload { wait: 7 })
        .expect("reload");
    assert_eq!(reloaded, mutation(0, 0, 6));
    assert_eq!(service.listed(), before);
    assert_eq!(
        before,
        vec![
            "domain:z.example",
            "domain:a.example",
            "domain:m.example",
            "domain:c.example",
            "domain:d.example",
            "domain:k.example"
        ]
    );
}

#[test]
fn commands_see_earlier_appends() {
    let mut config = test_config("rules.txt".to_string());
    config.batch_size = 3;
    let mut service = Service::start(Some(""));
    service.backend = DynamicDomainSetBackend::new("learned".to_string(), config);
    service.backend.start(Ok(String::new())).expect("start");
    for (rule, wait) in [("a.example", 1), ("b.example", 2)] {
        let step = service
            .backend
            .begin_append(vec![rule.to_string()], DynamicDomainRuleKind::Full);
        let staged = match step {
            AppendStep::Enqueue(staged) => staged,
            AppendStep::Answered(_) => panic!("rule should be staged"),
        };
        let answers = service.event(WorkerEvent::Command(WorkerCommand::Append {
            rules: staged.rules,
            wait: Some(wait),
        }));
        assert!(answers.is_empty());
    }
    assert_eq!(service.file.clone().expect("file"), "");
    assert!(!service.contains("a.example"));
    let answers = service.event(WorkerEvent::Command(WorkerCommand::Remove {
        rules: vec!["full:a.example".to_string()],
        wait: 3,
    }));
    let got: Vec<(u32, DynamicDomainMutation)> = answers
        .into_iter()
        .map(|(wait, answer)| (wait, answer.expect("answer")))
        .collect();
    assert_eq!(
        got,
        vec![(1, mutation(1, 0, 2)), (2, mutation(1, 0, 2)), (3, mutation(0, 1, 1))]
    );
    assert_eq!(service.file.clone().expect("file"), "full:b.example\n");
    assert!(!service.contains("a.example"));
    assert!(service.contains("b.example"));
}

#[test]
fn full_batch_and_tick_and_closed_queue_flush() {
    let mut config = test_config("rules.txt".to_string());
    config.batch_size = 2;
    let mut service = Service::start(Some(""));
    service.backend = DynamicDomainSetBackend::new("learned".to_string(), config);
    service.backend.start(Ok(String::new())).expect("start");
    let append = |service: &mut Service, rule: &str| {
        let step = service
            .backend
            .begin_append(vec![rule.to_string()], DynamicDomainRuleKind::Full);
        if let AppendStep::Enqueue(staged) = step {
            service.event(WorkerEvent::Command(WorkerCommand::Append {
                rules: staged.rules,
                wait: None,
            }));
        }
    };
    append(&mut service, "a.example");
    assert_eq!(service.file.clone().expect("file"), "");
    append(&mut service, "b.example");
    assert_eq!(service.file.clone().expect("file"), "full:a.example\nfull:b.example\n");
    append(&mut service, "c.example");
    assert!(!service.contains("c.example"));
    service.event(WorkerEvent::Tick);
    assert!(service.contains("c.example"));
    append(&mut service, "d.example");
    service.event(WorkerEvent::Closed);
    assert!(service.contains("d.example"));
    assert!(service.stopped);
    assert!(service.told.is_empty());
    assert_eq!(
        service.file.clone().expect("file"),
        "full:a.example\nfull:b.example\nfull:c.example\nfull:d.example\n"
    );
}

#[test]
fn bootstrap_rules_start_a_new_file() {
    let mut config = test_config("rules.txt".to_string());
    config.bootstrap_rules = vec![
        "Example.com".to_string(),
        "full:A.example".to_string(),
        "example.com.".to_string(),
    ];
    let mut backend = DynamicDomainSetBackend::new("learned".to_string(), config);
    assert!(backend.bootstrap_file_if_needed(true).expect("bootstrap").is_none());
    let contents = backend
        .bootstrap_file_if_needed(false)
        .expect("bootstrap")
        .expect("contents");
    assert_eq!(contents, "domain:example.com\nfull:a.example\ndomain:example.com\n");
    backend.start(Ok(contents)).expect("start");
    assert_eq!(
        backend.list_rules(0, 10).rules,
        vec!["domain:example.com", "full:a.example"]
    );
}

#[test]
fn invalid_bootstrap_rule_is_reported() {
    let mut config = test_config("rules.txt".to_string());
    config.bootstrap_rules = vec!["a.example".to_string(), " ".to_string()];
    let backend = DynamicDomainSetBackend::new("learned".to_string(), config);
    match backend.bootstrap_file_if_needed(false) {
        Ok(_) => panic!("an error was expected"),
        Err(err) => assert_eq!(err.message(), "bootstrap_rules[1]: invalid rule ' '"),
    }
}
