use buildkite_jobify::monitor::{
    apply_builds, authorization_header, commits_to_query, digest_response, finish_response,
    iter_query_rules, select_pipeline, BkErr, Build, BuildStates, GraphQLErrors, Job, JobStates,
    KnownBuild, PipelineInfo, PollBackoff, PollStep, RawBuild, RawCommandJob, RawJob, RawRunningBuild,
    ResponseDigest,
};

fn s(x: &str) -> String {
    x.to_string()
}

#[test]
fn iters_agent_rules() {
    let mut iter = iter_query_rules("queue=something,os=linux,blah=thing").into_iter();

    assert_eq!(iter.next(), Some((s("queue"), Some(s("something")))));
    assert_eq!(iter.next(), Some((s("os"), Some(s("linux")))));
    assert_eq!(iter.next(), Some((s("blah"), Some(s("thing")))));
    assert_eq!(iter.next(), None);
}

#[test]
fn iters_empty_agent_rules() {
    let mut iter = iter_query_rules("").into_iter();
    assert_eq!(iter.next(), None);
}

#[test]
fn query_rules_wildcards_and_malformed_pieces() {
    let rules = iter_query_rules("queue=*,os=,noequals,k=v=w");
    assert_eq!(
        rules,
        vec![(s("queue"), None), (s("os"), None), (s("k"), Some(s("v=w")))]
    );
}

#[test]
fn job_rules_come_from_its_rule_text() {
    let job = Job::new(1, s("l"), 2, None, JobStates::Scheduled, s("a=b,c=*"), None);
    assert_eq!(job.iter_query_rules(), vec![(s("a"), Some(s("b"))), (s("c"), None)]);
}

#[test]
fn states_from_api_names() {
    assert_eq!(BuildStates::from_name("RUNNING"), BuildStates::Running);
    assert_eq!(BuildStates::from_name("NOT_RUN"), BuildStates::NotRun);
    assert_eq!(BuildStates::from_name("SOMETHING_NEW"), BuildStates::Unknown);
    assert_eq!(JobStates::from_name("SCHEDULED"), JobStates::Scheduled);
    assert_eq!(JobStates::from_name("TIMED_OUT"), JobStates::TimedOut);
    assert_eq!(JobStates::from_name("scheduled"), JobStates::Unknown);
}

const U1: &str = "550e8400-e29b-41d4-a716-446655440000";
const U2: &str = "00000000-0000-0000-0000-000000000002";
const J1: &str = "11111111-2222-3333-4444-555555555555";

fn command(uuid: &str, state: &str, exit: Option<&str>, agent: Option<&str>) -> Option<RawJob> {
    Some(RawJob::Command(RawCommandJob {
        uuid: s(uuid),
        label: None,
        state: s(state),
        agent_query_rules: Some(vec![s("queue=a"), s("os=linux")]),
        exit_status: exit.map(s),
        agent: agent.map(s),
    }))
}

fn raw_build(uuid: &str, state: &str, jobs: Vec<Option<RawJob>>) -> Option<RawBuild> {
    Some(RawBuild {
        uuid: s(uuid),
        commit: s("abc"),
        message: Some(s("msg")),
        state: s(state),
        jobs: Some(jobs),
        meta_data: Some(vec![Some((s("k"), s("own"))), None, Some((s("x"), s("1")))]),
        triggered_meta_data: Some(vec![Some((s("k"), s("parent"))), Some((s("p"), s("2")))]),
    })
}

#[test]
fn builds_are_sorted_filtered_and_remembered() {
    let mut known = vec![KnownBuild { uuid: 9, commit: s("old") }];
    let mut hash = Some(1u64);
    let raw = vec![
        raw_build(U1, "RUNNING", vec![command(J1, "SCHEDULED", Some("-3"), Some("agent-1")), Some(RawJob::Other)]),
        raw_build("not-a-uuid", "RUNNING", vec![command(J1, "SCHEDULED", None, None)]),
        raw_build(U2, "PASSED", vec![command(J1, "FINISHED", Some("x"), None)]),
        raw_build(U2, "PASSED", vec![command("bad", "FINISHED", None, None)]),
        None,
    ];
    let builds = apply_builds(&mut known, &mut hash, Some(2), Some(raw)).unwrap();
    assert_eq!(hash, Some(2));
    assert_eq!(builds.len(), 2);
    assert_eq!(builds[0].uuid, 2);
    assert_eq!(builds[0].state, BuildStates::Passed);
    assert_eq!(builds[0].jobs[0].exit_status, None);
    assert_eq!(builds[1].uuid, 0x550e8400e29b41d4a716446655440000);
    let job = &builds[1].jobs[0];
    assert_eq!(builds[1].jobs.len(), 1);
    assert_eq!(job.uuid, 0x11111111222233334444555555555555);
    assert_eq!(job.build_uuid, builds[1].uuid);
    assert_eq!(job.label, "<unlabeled>");
    assert_eq!(job.exit_status, Some(-3));
    assert_eq!(job.state, JobStates::Scheduled);
    assert_eq!(job.query_rules, "queue=a,os=linux");
    assert_eq!(job.agent.as_deref(), Some("agent-1"));
    assert_eq!(
        builds[1].metadata,
        vec![(s("k"), s("own")), (s("p"), s("2")), (s("x"), s("1"))]
    );
    assert_eq!(known.len(), 1);
    assert_eq!(known[0].uuid, builds[1].uuid);
    assert_eq!(known[0].commit, "abc");
}

#[test]
fn unchanged_answer_hands_nothing_over() {
    let mut known = vec![KnownBuild { uuid: 9, commit: s("old") }];
    let mut hash = Some(7u64);
    let raw = vec![raw_build(U1, "RUNNING", vec![command(J1, "SCHEDULED", None, None)])];
    assert!(apply_builds(&mut known, &mut hash, Some(7), Some(raw)).is_none());
    assert_eq!(known.len(), 1);
    assert_eq!(hash, Some(7));
}

#[test]
fn empty_answer_forgets_running_builds() {
    let mut known = vec![KnownBuild { uuid: 9, commit: s("old") }];
    let mut hash = None;
    assert!(apply_builds(&mut known, &mut hash, Some(3), Some(vec![])).is_none());
    assert!(known.is_empty());
    assert_eq!(hash, Some(3));
}

#[test]
fn commits_are_known_then_running() {
    let known = vec![KnownBuild { uuid: 1, commit: s("c1") }];
    let running = vec![
        Some(RawRunningBuild { uuid: s(U1), commit: s("c2") }),
        Some(RawRunningBuild { uuid: s("nope"), commit: s("c3") }),
        None,
    ];
    assert_eq!(commits_to_query(&known, Some(running)), vec![s("c1"), s("c2")]);
    assert_eq!(commits_to_query(&known, None), vec![s("c1")]);
}

#[test]
fn digest_checks_content_type_and_hash() {
    let body = b"{\"data\":{}}";
    let ct = Some("application/json; charset=utf-8");
    let h = match digest_response(ct, body, None).unwrap() {
        ResponseDigest::Fresh(h) => h,
        ResponseDigest::Unchanged(_) => panic!("expected a fresh answer"),
    };
    assert_ne!(digest_response(ct, b"{\"data\":null}", None).unwrap(), ResponseDigest::Fresh(h));
    assert_eq!(
        digest_response(Some("application/json; charset=utf-8"), body, None).unwrap(),
        ResponseDigest::Fresh(h)
    );
    assert_eq!(
        digest_response(Some("application/json; charset=utf-8"), body, Some(h)).unwrap(),
        ResponseDigest::Unchanged(h)
    );
    match digest_response(Some("text/html"), body, None) {
        Err(BkErr::InvalidResponse(m)) => assert_eq!(m, "invalid content-type: Some(\"text/html\")"),
        _ => panic!("expected an invalid response"),
    }
    match digest_response(None, body, None) {
        Err(e) => assert_eq!(e.to_string(), "invalid response invalid content-type: None"),
        _ => panic!("expected an invalid response"),
    }
}

#[test]
fn xxhash_of_empty_input() {
    assert_eq!(
        digest_response(Some("application/json; charset=utf-8"), b"", None).unwrap(),
        ResponseDigest::Fresh(0xef46db3751d8e999)
    );
}

#[test]
fn graphql_errors_fail_the_request() {
    match finish_response::<u8>(Some(1), Some(vec![s("e1"), s("e2")]), 5) {
        Err(e) => {
            assert_eq!(e.to_string(), "API failure: [e1, e2]");
            assert_eq!(e.source(), None);
        }
        _ => panic!("expected a request error"),
    }
    assert_eq!(finish_response::<u8>(Some(1), None, 5).unwrap(), (Some(1), Some(5)));
}

#[test]
fn error_messages() {
    assert_eq!(BkErr::UnknownPipeline(s("p")).to_string(), "unknown pipeline 'p'");
    assert_eq!(BkErr::Http(s("boom")).to_string(), "http error: boom");
    assert_eq!(BkErr::Http(s("boom")).source(), Some(s("boom")));
    assert_eq!(BkErr::InvalidOrgId(s("o")).to_string(), "invalid org id 'o'");
    assert_eq!(BkErr::Threadpool(s("io")).to_string(), "threadpool error: io");
    let g = GraphQLErrors { errors: vec![] };
    assert_eq!(g.to_string(), "[]");
}

#[test]
fn bearer_header() {
    assert_eq!(authorization_header("tok").unwrap(), "Bearer tok");
    match authorization_header("bad\ntoken") {
        Err(e) => assert_eq!(e.to_string(), "invalid header value: failed to parse header value"),
        _ => panic!("expected an invalid header"),
    }
}

#[test]
fn pipeline_selection() {
    let p = PipelineInfo { name: s("n"), id: s("i"), description: None };
    assert_eq!(select_pipeline("x", Some(p)).unwrap().name, "n");
    match select_pipeline("x", None) {
        Err(e) => assert_eq!(e.to_string(), "unknown pipeline 'x'"),
        _ => panic!("expected an unknown pipeline"),
    }
}

#[test]
fn backoff_doubles_up_to_a_minute_and_resets() {
    let mut b = PollBackoff::new();
    assert_eq!(b.sleep, 1);
    let mut waits = vec![];
    for _ in 0..8 {
        b.on_failure();
        waits.push(b.sleep);
    }
    assert_eq!(waits, vec![2, 4, 8, 16, 32, 60, 60, 60]);
    assert_eq!(b.failure_count, 8);
    assert_eq!(b.on_success(), Some(8));
    assert_eq!((b.failure_count, b.sleep), (0, 1));
    assert_eq!(b.on_success(), None);
}

fn bare_build(uuid: u128, commit: &str, state: BuildStates) -> Build {
    Build { uuid, metadata: vec![], message: None, commit: s(commit), state, jobs: vec![] }
}

#[test]
fn builds_are_identified_by_uuid() {
    assert!(bare_build(1, "a", BuildStates::Running) == bare_build(1, "b", BuildStates::Passed));
    assert!(bare_build(1, "a", BuildStates::Running) != bare_build(2, "a", BuildStates::Running));
    assert!(KnownBuild { uuid: 3, commit: s("x") } == KnownBuild { uuid: 3, commit: s("y") });
    assert!(KnownBuild { uuid: 3, commit: s("x") } != KnownBuild { uuid: 4, commit: s("x") });
}

#[test]
fn content_type_is_shown_escaped() {
    match digest_response(Some("text/\"x\"\u{1}\t\u{e9}"), b"", None) {
        Err(BkErr::InvalidResponse(m)) => {
            assert_eq!(m, "invalid content-type: Some(\"text/\\\"x\\\"\\x1\t\\xc3\\xa9\")")
        }
        _ => panic!("expected an invalid response"),
    }
}

#[test]
fn poll_steps_follow_the_outcome() {
    let mut b = PollBackoff::new();
    assert!(matches!(b.after_poll(Err(BkErr::Http(s("x"))), "p"), PollStep::Failed(BkErr::Http(m)) if m == "x"));
    assert_eq!((b.failure_count, b.sleep), (1, 2));
    assert!(matches!(b.after_poll(Err(BkErr::Http(s("x"))), "p"), PollStep::Failed(_)));
    assert_eq!((b.failure_count, b.sleep), (2, 4));
    match b.after_poll(Ok(Some(vec![bare_build(1, "c", BuildStates::Running)])), "pipe") {
        PollStep::Hand { builds, recovered } => {
            assert_eq!(recovered, Some(2));
            assert_eq!(builds.pipeline, "pipe");
            assert_eq!(builds.builds.len(), 1);
        }
        _ => panic!("expected builds to hand over"),
    }
    assert_eq!((b.failure_count, b.sleep), (0, 1));
    assert!(matches!(b.after_poll(Ok(None), "pipe"), PollStep::Nothing { recovered: None }));
}
