use git_tools::client::{interpret_reply, ConflictResolver, RetryStep};
use git_tools::model::{ConflictFile, Settings};
use git_tools::orchestrator::{
    Action, Event, MergeOrchestrator, MergeReport, MergeResult, OrchestratorError,
    ResolutionOutcome,
};

fn file(path: &str) -> ConflictFile {
    ConflictFile {
        path: path.to_string(),
        our_content: "A\n<<<<<<< HEAD\nfoo\n=======\nbar\n>>>>>>> x\n".to_string(),
        their_content: "bar".to_string(),
        base_content: None,
    }
}

/// A scripted repository and service: it answers each action and records it.
struct Script {
    branches: Vec<&'static str>,
    merge: Option<MergeResult>,
    resolutions: Vec<Result<String, String>>,
    fail_apply: Option<String>,
    actions: Vec<String>,
    written: Vec<(String, String)>,
    aborts: usize,
}

impl Script {
    fn new(merge: MergeResult, resolutions: Vec<Result<String, String>>) -> Self {
        Script {
            branches: vec!["main", "feature"],
            merge: Some(merge),
            resolutions,
            fail_apply: None,
            actions: Vec::new(),
            written: Vec::new(),
            aborts: 0,
        }
    }

    fn drive(&mut self, has_credential: bool) -> Result<MergeReport, OrchestratorError> {
        let mut orch =
            MergeOrchestrator::new("main".to_string(), "feature".to_string(), has_credential);
        let mut resolutions = std::mem::take(&mut self.resolutions).into_iter();
        loop {
            let ev = match orch.next_action() {
                Action::CheckBranch(b) => {
                    self.actions.push(format!("check {}", b));
                    Event::BranchChecked(Ok(self.branches.contains(&b.as_str())))
                }
                Action::Merge { target, source } => {
                    self.actions.push(format!("merge {} {}", source, target));
                    Event::MergeDone(Ok(self.merge.take().unwrap()))
                }
                Action::Resolve(i) => {
                    self.actions.push(format!("resolve {}", orch.conflicts()[i].path));
                    Event::Resolved(resolutions.next().unwrap())
                }
                Action::Apply { path, text } => {
                    self.actions.push(format!("apply {}", path));
                    if self.fail_apply.as_deref() == Some(path.as_str()) {
                        Event::Applied(Err("permission denied".to_string()))
                    } else {
                        self.written.push((path, text));
                        Event::Applied(Ok(()))
                    }
                }
                Action::Abort => {
                    self.actions.push("abort".to_string());
                    self.aborts += 1;
                    Event::AbortDone(Ok(()))
                }
                Action::Finish => break,
            };
            orch.handle(ev);
        }
        assert!(orch.is_finished());
        orch.finish()
    }
}

#[test]
fn missing_target_is_reported_before_merging() {
    let mut script = Script::new(MergeResult::UpToDate, vec![]);
    script.branches = vec!["feature"];
    let r = script.drive(true);
    assert!(matches!(r, Err(OrchestratorError::BranchNotFound(ref b)) if b == "main"));
    assert_eq!(script.actions, vec!["check main"]);
}

#[test]
fn missing_source_is_reported_before_merging() {
    let mut script = Script::new(MergeResult::UpToDate, vec![]);
    script.branches = vec!["main"];
    let r = script.drive(true);
    assert!(matches!(r, Err(OrchestratorError::BranchNotFound(ref b)) if b == "feature"));
    assert_eq!(script.actions, vec!["check main", "check feature"]);
}

#[test]
fn merges_without_conflicts_need_no_resolution() {
    for (merge, expected) in [
        (MergeResult::UpToDate, "NoOp"),
        (MergeResult::FastForwarded, "FastForwarded"),
        (MergeResult::Completed, "Merged"),
    ] {
        let mut script = Script::new(merge, vec![]);
        let r = script.drive(true).unwrap();
        assert_eq!(format!("{:?}", r), expected);
        assert_eq!(script.actions.len(), 3);
    }
}

#[test]
fn all_resolved_files_are_applied() {
    let files = vec![file("a.txt"), file("b.txt"), file("c.txt")];
    let resolutions = vec![Ok("ra".to_string()), Ok("rb".to_string()), Ok("rc".to_string())];
    let mut script = Script::new(MergeResult::Conflicted(files), resolutions);
    let r = script.drive(true).unwrap();
    match r {
        MergeReport::CompletedViaAi(paths) => assert_eq!(paths, vec!["a.txt", "b.txt", "c.txt"]),
        other => panic!("unexpected report {:?}", other),
    }
    assert_eq!(
        script.written,
        vec![
            ("a.txt".to_string(), "ra".to_string()),
            ("b.txt".to_string(), "rb".to_string()),
            ("c.txt".to_string(), "rc".to_string()),
        ]
    );
    assert_eq!(script.aborts, 0);
}

#[test]
fn one_failure_aborts_once_and_reports_every_outcome() {
    let files = vec![file("a.txt"), file("b.txt"), file("c.txt")];
    let resolutions = vec![Ok("ra".to_string()), Err("boom".to_string()), Ok("rc".to_string())];
    let mut script = Script::new(MergeResult::Conflicted(files), resolutions);
    let r = script.drive(true);
    match r {
        Err(OrchestratorError::Aborted(outcomes)) => {
            assert_eq!(outcomes.len(), 3);
            assert!(matches!(&outcomes[0], ResolutionOutcome::Resolved { path, text } if path == "a.txt" && text == "ra"));
            assert!(matches!(&outcomes[1], ResolutionOutcome::Failed { path, reason } if path == "b.txt" && reason == "boom"));
            assert!(matches!(&outcomes[2], ResolutionOutcome::Resolved { path, text } if path == "c.txt" && text == "rc"));
        }
        other => panic!("unexpected result {:?}", other),
    }
    assert_eq!(script.aborts, 1);
    assert!(script.written.is_empty());
    assert_eq!(
        script.actions,
        vec![
            "check main",
            "check feature",
            "merge feature main",
            "resolve a.txt",
            "resolve b.txt",
            "resolve c.txt",
            "abort"
        ]
    );
}

#[test]
fn apply_failure_rolls_back() {
    let files = vec![file("a.txt"), file("b.txt")];
    let resolutions = vec![Ok("ra".to_string()), Ok("rb".to_string())];
    let mut script = Script::new(MergeResult::Conflicted(files), resolutions);
    script.fail_apply = Some("b.txt".to_string());
    let r = script.drive(true);
    assert!(matches!(r, Err(OrchestratorError::ApplyFailed { ref path, ref reason }) if path == "b.txt" && reason == "permission denied"));
    assert_eq!(script.aborts, 1);
}

#[test]
fn missing_credential_aborts_without_resolving() {
    let files = vec![file("a.txt"), file("b.txt")];
    let mut script = Script::new(MergeResult::Conflicted(files), vec![]);
    let r = script.drive(false);
    match r {
        Err(OrchestratorError::MissingCredential(paths)) => assert_eq!(paths, vec!["a.txt", "b.txt"]),
        other => panic!("unexpected result {:?}", other),
    }
    assert_eq!(script.aborts, 1);
    assert!(!script.actions.iter().any(|a| a.starts_with("resolve")));
}

#[test]
fn conflicted_merge_with_no_qualifying_files_completes() {
    let mut script = Script::new(MergeResult::Conflicted(vec![]), vec![]);
    let r = script.drive(true).unwrap();
    assert!(matches!(r, MergeReport::CompletedViaAi(ref p) if p.is_empty()));
}

#[test]
fn abort_failure_is_reported_distinctly() {
    let mut orch = MergeOrchestrator::new("main".to_string(), "feature".to_string(), true);
    orch.handle(Event::BranchChecked(Ok(true)));
    orch.handle(Event::BranchChecked(Ok(true)));
    orch.handle(Event::MergeDone(Ok(MergeResult::Conflicted(vec![file("a.txt")]))));
    orch.handle(Event::Resolved(Err("down".to_string())));
    assert!(matches!(orch.next_action(), Action::Abort));
    orch.handle(Event::AbortDone(Err("index locked".to_string())));
    assert!(matches!(orch.finish(), Err(OrchestratorError::AbortFailed(ref m)) if m == "index locked"));
}

#[test]
fn events_that_do_not_answer_the_pending_action_are_ignored() {
    let mut orch = MergeOrchestrator::new("main".to_string(), "feature".to_string(), true);
    orch.handle(Event::Resolved(Ok("x".to_string())));
    orch.handle(Event::AbortDone(Ok(())));
    assert!(matches!(orch.next_action(), Action::CheckBranch(ref b) if b == "main"));
}

/// Resolves one conflict end to end through the client's decisions, with the
/// service answering `reply` with `status` every time.
fn resolve_with_service(
    resolver: &ConflictResolver,
    status: u16,
    reply: &str,
) -> (Result<String, String>, usize) {
    let mut session = resolver.begin().unwrap();
    let mut attempts = 0;
    loop {
        attempts += 1;
        let parsed = serde_json::from_str::<serde_json::Value>(reply)
            .map_err(|e| e.to_string())
            .and_then(|v| {
                v.get("choices")
                    .and_then(|c| c.as_array())
                    .map(|cs| {
                        cs.iter()
                            .filter_map(|c| c.get("message")?.get("content")?.as_str())
                            .map(|s| s.to_string())
                            .collect::<Vec<String>>()
                    })
                    .ok_or_else(|| "missing choices".to_string())
            });
        let outcome = interpret_reply(status, reply.to_string(), parsed);
        match session.record(outcome) {
            RetryStep::Wait { .. } => {}
            RetryStep::Finished(r) => return (r.map_err(|e| e.message()), attempts),
        }
    }
}

fn settings(max_retries: u32) -> Settings {
    let mut s = Settings::default();
    s.openai_api_key = Some("test-key".to_string());
    s.max_retries = max_retries;
    s
}

fn drive_single_file(resolution: Result<String, String>) -> (Result<MergeReport, OrchestratorError>, Script) {
    let mut script = Script::new(MergeResult::Conflicted(vec![file("a.txt")]), vec![resolution]);
    let r = script.drive(true);
    (r, script)
}

#[test]
fn scenario_single_file_resolved_and_written() {
    let resolver = ConflictResolver::new(settings(3));
    let c = file("a.txt");
    assert!(resolver.request_body(&c).contains("A\\n<<<<<<< HEAD\\nfoo\\n=======\\nbar\\n>>>>>>> x"));
    let (resolution, attempts) =
        resolve_with_service(&resolver, 200, r#"{"choices":[{"message":{"content":"merged"}}]}"#);
    assert_eq!(attempts, 1);
    assert_eq!(resolution.clone().unwrap(), "merged");
    let (r, script) = drive_single_file(resolution);
    assert!(matches!(r, Ok(MergeReport::CompletedViaAi(_))));
    assert_eq!(script.written, vec![("a.txt".to_string(), "merged".to_string())]);
}

#[test]
fn scenario_empty_choices_aborts() {
    let resolver = ConflictResolver::new(settings(0));
    let (resolution, attempts) = resolve_with_service(&resolver, 200, r#"{"choices":[]}"#);
    assert_eq!(attempts, 1);
    assert!(resolution.is_err());
    let (r, script) = drive_single_file(resolution);
    assert!(matches!(r, Err(OrchestratorError::Aborted(_))));
    assert_eq!(script.aborts, 1);
}

#[test]
fn scenario_unauthorized_aborts() {
    let resolver = ConflictResolver::new(settings(0));
    let (resolution, attempts) = resolve_with_service(
        &resolver,
        401,
        r#"{"error":{"message":"Invalid API key","type":"invalid_request_error","code":"invalid_api_key"}}"#,
    );
    assert_eq!(attempts, 1);
    let reason = resolution.clone().unwrap_err();
    assert!(reason.contains("status 401"));
    assert!(reason.contains("API request failed with status 401"));
    let (r, script) = drive_single_file(resolution);
    match r {
        Err(OrchestratorError::Aborted(outcomes)) => {
            assert!(matches!(&outcomes[0], ResolutionOutcome::Failed { reason, .. } if reason.contains("status 401")));
        }
        other => panic!("unexpected result {:?}", other),
    }
    assert_eq!(script.aborts, 1);
}

#[test]
fn scenario_retries_follow_the_settings() {
    let resolver = ConflictResolver::new(settings(2));
    let (resolution, attempts) = resolve_with_service(&resolver, 503, "unavailable");
    assert_eq!(attempts, 3);
    assert!(resolution.unwrap_err().starts_with("Failed to get AI resolution after 3 attempts"));
}

#[test]
fn repository_failures_stop_the_run() {
    let mut orch = MergeOrchestrator::new("main".to_string(), "feature".to_string(), true);
    orch.handle(Event::BranchChecked(Err("corrupt refs".to_string())));
    assert!(matches!(orch.finish(), Err(OrchestratorError::Repository(ref m)) if m == "corrupt refs"));

    let mut orch = MergeOrchestrator::new("main".to_string(), "feature".to_string(), true);
    orch.handle(Event::BranchChecked(Ok(true)));
    orch.handle(Event::BranchChecked(Ok(true)));
    assert!(matches!(orch.next_action(), Action::Merge { ref target, ref source } if target == "main" && source == "feature"));
    orch.handle(Event::MergeDone(Err("Unexpected merge analysis result".to_string())));
    assert!(matches!(orch.next_action(), Action::Finish));
    assert!(matches!(orch.finish(), Err(OrchestratorError::Repository(_))));
}
