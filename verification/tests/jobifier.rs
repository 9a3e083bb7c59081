use buildkite_jobify::jobifier::{
    agents_file, assemble_config, check_checksum, cleanup_label_selector, collect_archive_files, get_best_agent,
    insert_spec, jobs_to_delete, prepare_job, read_config_archive, spec_sources, Agent, AgentError, ArchiveEntry,
    Config, ConfigError, Container, EnvVar, JobDecision, JobTemplate, JobifyAgents, JobifyState,
    ObjectMeta, PodInfo, PodTemplate, SpecSource,
};
use buildkite_jobify::monitor::{Build, BuildStates, Builds, Job, JobStates};

fn s(x: &str) -> String {
    x.to_string()
}

fn agent(name: &str, spec: Option<&str>, cluster: Option<&str>, tags: &[(&str, &str)]) -> Agent {
    Agent {
        name: s(name),
        kubernetes: spec.map(s),
        cluster: cluster.map(s),
        tags: tags
            .iter()
            .map(|(k, v)| (s(k), s(v)))
            .collect::<std::collections::BTreeMap<_, _>>()
            .into_iter()
            .collect(),
    }
}

fn template(source: &str, containers: Option<Vec<Container>>) -> JobTemplate {
    JobTemplate {
        source: s(source),
        metadata: ObjectMeta { name: None, labels: None },
        template: Some(PodTemplate { metadata: None, containers }),
    }
}

fn config() -> Config {
    Config {
        agents: JobifyAgents {
            agents: vec![
                agent("small", Some("small.yml"), None, &[("queue", "build"), ("os", "linux")]),
                agent("big", Some("big.yml"), None, &[("queue", "build"), ("os", "linux"), ("size", "big")]),
                agent("big2", Some("big.yml"), None, &[("queue", "build"), ("size", "big"), ("os", "linux")]),
                agent("nospec", None, None, &[("queue", "nospec")]),
                agent("missing", Some("gone.yml"), None, &[("queue", "missing")]),
            ],
            automatic_retry: None,
        },
        k8s_specs: vec![(s("small.yml"), template("small", None)), (s("big.yml"), template("big", None))],
    }
}

fn job(rules: &str) -> Job {
    Job::new(7, s("label"), 1, None, JobStates::Scheduled, s(rules), None)
}

#[test]
fn best_agent_is_first_satisfying_all_rules() {
    let cfg = config();
    let (a, t) = get_best_agent(&cfg, &job("queue=build,size=big")).unwrap();
    assert_eq!(a.name, "big");
    assert_eq!(t.source, "big");
    let (a, _) = get_best_agent(&cfg, &job("queue=build,os=*")).unwrap();
    assert_eq!(a.name, "small");
}

#[test]
fn agent_errors() {
    let cfg = config();
    assert!(matches!(get_best_agent(&cfg, &job("queue=build,os=windows")), Err(AgentError::NoSuitableAgent)));
    assert!(matches!(get_best_agent(&cfg, &job("")), Err(AgentError::NoSuitableAgent)));
    assert!(matches!(get_best_agent(&cfg, &job("unknown=1")), Err(AgentError::NoSuitableAgent)));
    match get_best_agent(&cfg, &job("queue=nospec")) {
        Err(AgentError::NoSpec { agent }) => assert_eq!(agent, "nospec"),
        _ => panic!("expected no spec"),
    }
    match get_best_agent(&cfg, &job("queue=missing")) {
        Err(AgentError::MissingSpec { agent, path }) => {
            assert_eq!(agent, "missing");
            assert_eq!(path, "gone.yml");
        }
        _ => panic!("expected a missing spec"),
    }
}

#[test]
fn tags_value() {
    let a = agent("a", None, None, &[("somekey", "somevalue"), ("otherkey", "othervalue")]);
    assert_eq!(a.tags(), "otherkey=othervalue,somekey=somevalue");
    let b = agent("b", None, None, &[("k", "v")]);
    assert_eq!(b.tags(), "k=v");
}

#[test]
fn job_name_carries_the_uuid_text() {
    let a = agent("linux", Some("l.yml"), None, &[("os", "linux")]);
    let (name, _) = prepare_job(template("src", None), &a, 0x550e8400e29b41d4a716446655440000u128, "o", "p");
    assert_eq!(name, "linux-550e8400-e29b-41d4-a716-446655440000");
}

#[test]
fn prepared_job_runs_the_buildkite_job() {
    let container = Container {
        env: Some(vec![
            EnvVar { name: s("OTHER"), value: Some(s("x")) },
            EnvVar { name: s("BUILDKITE_AGENT_TAGS"), value: Some(s("stale")) },
        ]),
        args: None,
    };
    let mut t = template("src", Some(vec![container]));
    t.metadata.labels = Some(vec![(s("bk-org"), s("stale")), (s("team"), s("ci"))]);
    let a = agent("linux", Some("l.yml"), None, &[("os", "linux"), ("queue", "build")]);
    let (name, job) = prepare_job(t, &a, 1, "org", "pipe");
    assert_eq!(name, "linux-00000000-0000-0000-0000-000000000001");
    assert_eq!(job.source, "src");
    assert_eq!(job.metadata.name.as_deref(), Some(name.as_str()));
    assert_eq!(
        job.metadata.labels.unwrap(),
        vec![
            (s("bk-org"), s("org")),
            (s("team"), s("ci")),
            (s("bk-jobify"), s("true")),
            (s("bk-pipeline"), s("pipe")),
        ]
    );
    let pod = job.template.unwrap();
    let pm = pod.metadata.unwrap();
    assert_eq!(pm.name.as_deref(), Some(name.as_str()));
    assert_eq!(
        pm.labels.unwrap(),
        vec![(s("bk-jobify"), s("true")), (s("bk-org"), s("org")), (s("bk-pipeline"), s("pipe"))]
    );
    let c = &pod.containers.unwrap()[0];
    let env = c.env.as_ref().unwrap();
    assert_eq!(env.len(), 3);
    assert_eq!(env[0].value.as_deref(), Some("x"));
    assert_eq!(env[1].name, "BUILDKITE_AGENT_TAGS");
    assert_eq!(env[1].value.as_deref(), Some("os=linux,queue=build"));
    assert_eq!(env[2].name, "BUILDKITE_AGENT_NAME");
    assert_eq!(env[2].value.as_deref(), Some(name.as_str()));
    assert_eq!(
        c.args.as_ref().unwrap(),
        &vec![
            s("start"),
            s("--disconnect-after-job"),
            s("--acquire-job"),
            s("00000000-0000-0000-0000-000000000001")
        ]
    );
}

#[test]
fn several_containers_are_left_alone() {
    let c = || Container { env: None, args: Some(vec![s("run")]) };
    let t = template("src", Some(vec![c(), c()]));
    let a = agent("a", None, None, &[]);
    let (_, job) = prepare_job(t, &a, 2, "o", "p");
    let cs = job.template.unwrap().containers.unwrap();
    assert_eq!(cs.len(), 2);
    assert!(cs[0].env.is_none());
    assert_eq!(cs[0].args.as_ref().unwrap(), &vec![s("run")]);
}

#[test]
fn cleanup_selection() {
    assert_eq!(cleanup_label_selector("pipe"), "bk-jobify=true,bk-pipeline=pipe");
    let pods = vec![
        PodInfo { job_name: Some(s("a")), terminated: vec![true, false, true] },
        PodInfo { job_name: None, terminated: vec![true] },
        PodInfo { job_name: Some(s("b")), terminated: vec![false] },
        PodInfo { job_name: Some(s("c")), terminated: vec![true] },
    ];
    assert_eq!(jobs_to_delete(&pods), vec![s("a"), s("a"), s("c")]);
}

fn entry(path: Option<&str>, regular: bool, contents: Option<&str>) -> ArchiveEntry {
    ArchiveEntry { path: path.map(s), regular, contents: contents.map(s) }
}

#[test]
fn archive_files_and_agents() {
    let files = collect_archive_files(vec![
        entry(Some("./agents.toml"), true, Some("agents")),
        entry(Some("./"), false, None),
        entry(Some("specs/a.yml"), true, Some("a1")),
        entry(Some("specs/a.yml"), true, Some("a2")),
        entry(None, false, None),
        entry(Some("bin"), true, None),
    ])
    .unwrap();
    assert_eq!(files, vec![(s("agents.toml"), s("agents")), (s("specs/a.yml"), s("a2"))]);
    assert_eq!(agents_file(&files).unwrap(), "agents");
    assert_eq!(agents_file(&vec![]), Err(ConfigError::MissingAgents));
    assert_eq!(
        collect_archive_files(vec![entry(None, true, Some("x"))]),
        Err(ConfigError::BadArchivePath)
    );
    assert_eq!(check_checksum("abc", "abc"), Ok(()));
    assert_eq!(check_checksum("abc", "abd"), Err(ConfigError::ChecksumMismatch));
}

#[test]
fn spec_sources_follow_the_cluster() {
    let files = vec![(s("a.yml"), s("A")), (s("b.yml"), s("B"))];
    let agents = JobifyAgents {
        agents: vec![
            agent("one", Some("a.yml"), None, &[]),
            agent("two", Some("b.yml"), Some("east"), &[]),
            agent("three", Some("c.yml"), None, &[]),
            agent("four", None, None, &[]),
        ],
        automatic_retry: None,
    };
    let srcs = spec_sources(&agents, None, &files);
    assert_eq!(srcs.len(), 2);
    assert!(matches!(&srcs[0], SpecSource::Found { agent, path, contents } if agent == "one" && path == "a.yml" && contents == "A"));
    assert!(matches!(&srcs[1], SpecSource::Missing { agent, path } if agent == "three" && path == "c.yml"));
    let srcs = spec_sources(&agents, Some("east"), &files);
    assert_eq!(srcs.len(), 1);
    assert!(matches!(&srcs[0], SpecSource::Found { agent, .. } if agent == "two"));
    let mut specs = vec![];
    insert_spec(&mut specs, s("a.yml"), template("1", None));
    insert_spec(&mut specs, s("b.yml"), template("2", None));
    insert_spec(&mut specs, s("a.yml"), template("3", None));
    assert_eq!(specs.len(), 2);
    assert_eq!(specs[0].1.source, "3");
    let files = collect_archive_files(vec![
        entry(Some("specs/a.yml"), true, Some("a1")),
        entry(Some("specs//a.yml"), true, Some("a2")),
        entry(Some("./specs/b.yml"), true, Some("b")),
    ])
    .unwrap();
    assert_eq!(files, vec![(s("specs/a.yml"), s("a2")), (s("specs/b.yml"), s("b"))]);
}

fn build(chksum: Option<&str>, jobs: Vec<Job>) -> Build {
    let mut metadata = vec![];
    if let Some(c) = chksum {
        metadata.push((s("jobify-artifact-chksum"), s(c)));
        metadata.push((s("jobify-artifact-id"), s("artifact")));
    }
    Build { uuid: 1, metadata, message: None, commit: s("c"), state: BuildStates::Running, jobs }
}

#[test]
fn jobify_state_spawns_each_job_once() {
    let mut st = JobifyState::new();
    let b = build(Some("sum"), vec![job("queue=build,size=big")]);
    assert_eq!(st.config_request(&b), Some((s("sum"), s("artifact"))));
    assert!(matches!(st.decide_job(&b, &b.jobs[0]), JobDecision::NoConfiguration));
    st.record_config(s("sum"), Some(config()));
    assert_eq!(st.config_request(&b), None);
    let (agent, template) = match st.decide_job(&b, &b.jobs[0]) {
        JobDecision::Spawn { agent, template } => (agent, template),
        _ => panic!("expected a spawn"),
    };
    assert_eq!(agent.name, "big");
    assert_eq!(template.source, "big");
    st.record_spawn(7, s("big-x"));
    assert!(matches!(st.decide_job(&b, &b.jobs[0]), JobDecision::Skip));
    let unconfigured = build(None, vec![job("queue=build")]);
    assert!(matches!(st.decide_job(&unconfigured, &unconfigured.jobs[0]), JobDecision::Skip));
    let bad = build(Some("sum"), vec![Job::new(8, s("l"), 1, None, JobStates::Scheduled, s("os=mac"), None)]);
    assert!(matches!(st.decide_job(&bad, &bad.jobs[0]), JobDecision::NoAgent(AgentError::NoSuitableAgent)));
    let waiting = build(Some("sum"), vec![Job::new(9, s("l"), 1, None, JobStates::Waiting, s("queue=build"), None)]);
    assert!(matches!(st.decide_job(&waiting, &waiting.jobs[0]), JobDecision::Skip));
    assert_eq!(st.config_request(&waiting), None);

    // the agent shows up running the job, then the job exits
    let running = Builds {
        builds: vec![build(Some("sum"), vec![Job::new(7, s("l"), 1, None, JobStates::Running, s(""), Some(s("big-x")))])],
        pipeline: s("p"),
    };
    st.pair_agents(&running);
    let exited = Builds {
        builds: vec![build(Some("sum"), vec![Job::new(7, s("l"), 1, Some(0), JobStates::Finished, s(""), Some(s("big-x")))])],
        pipeline: s("p"),
    };
    assert!(st.retire_exited(&exited));
    assert!(!st.retire_exited(&exited));
}

#[test]
fn config_cache_keeps_ten() {
    let mut st = JobifyState::new();
    for i in 0..11 {
        st.record_config(format!("sum{}", i), None);
    }
    let first = build(Some("sum0"), vec![job("queue=build")]);
    assert_eq!(st.config_request(&first), Some((s("sum0"), s("artifact"))));
    let last = build(Some("sum10"), vec![job("queue=build")]);
    assert_eq!(st.config_request(&last), None);
}

#[test]
fn exits_without_agents_need_no_cleanup() {
    let mut st = JobifyState::new();
    st.record_spawn(5, s("a-5"));
    let exited = Builds {
        builds: vec![build(None, vec![Job::new(5, s("l"), 1, Some(1), JobStates::Finished, s(""), None)])],
        pipeline: s("p"),
    };
    assert!(!st.retire_exited(&exited));
}

fn tar_gz(entries: &[(&str, Option<&[u8]>)]) -> Vec<u8> {
    let enc = flate2::write::GzEncoder::new(Vec::new(), flate2::Compression::default());
    let mut builder = tar::Builder::new(enc);
    for (path, data) in entries {
        let mut header = tar::Header::new_gnu();
        match data {
            Some(d) => {
                header.set_entry_type(tar::EntryType::Regular);
                header.set_size(d.len() as u64);
                header.set_mode(0o644);
                header.set_cksum();
                builder.append_data(&mut header, path, *d).unwrap();
            }
            None => {
                header.set_entry_type(tar::EntryType::Directory);
                header.set_size(0);
                header.set_mode(0o755);
                header.set_cksum();
                builder.append_data(&mut header, path, &b""[..]).unwrap();
            }
        }
    }
    builder.into_inner().unwrap().finish().unwrap()
}

#[test]
fn configuration_archive_is_read() {
    let bytes = tar_gz(&[
        ("./agents.toml", Some(&b"[[agents]]"[..])),
        ("specs", None),
        ("specs/a.yml", Some(&b"kind: Job"[..])),
        ("bin", Some(&[0xff, 0xfe][..])),
        ("specs//a.yml", Some(&b"kind: Job2"[..])),
    ]);
    let files = read_config_archive(&bytes).unwrap();
    assert_eq!(files, vec![(s("agents.toml"), s("[[agents]]")), (s("specs/a.yml"), s("kind: Job2"))]);
    assert_eq!(agents_file(&files).unwrap(), "[[agents]]");
}

#[test]
fn tag_text_reads_back_as_rules() {
    let a = agent("a", None, None, &[("queue", "build"), ("os", "linux")]);
    let rules = buildkite_jobify::monitor::iter_query_rules(&a.tags());
    assert_eq!(rules, vec![(s("os"), Some(s("linux"))), (s("queue"), Some(s("build")))]);
}

const JOB_YAML: &str = "apiVersion: batch/v1
kind: Job
metadata:
  name: agent
  labels:
    team: ci
spec:
  template:
    metadata:
      name: pod
    spec:
      restartPolicy: Never
      containers:
      - name: agent
        image: buildkite/agent
        args: [start]
        env:
        - name: A
          value: b
";

#[test]
fn configuration_is_assembled_from_parsed_descriptions() {
    let files = vec![(s("a.yml"), s(JOB_YAML)), (s("b.yml"), s("not: [a, job"))];
    let agents = JobifyAgents {
        agents: vec![agent("one", Some("a.yml"), None, &[("os", "linux")]), agent("gone", Some("c.yml"), None, &[])],
        automatic_retry: None,
    };
    let cfg = assemble_config(agents, None, &files).unwrap();
    assert_eq!(cfg.agents.agents.len(), 2);
    assert_eq!(cfg.k8s_specs.len(), 1);
    let (path, t) = &cfg.k8s_specs[0];
    assert_eq!(path, "a.yml");
    assert_eq!(t.source, JOB_YAML);
    assert_eq!(t.metadata.name.as_deref(), Some("agent"));
    assert_eq!(t.metadata.labels, Some(vec![(s("team"), s("ci"))]));
    let pod = t.template.as_ref().unwrap();
    assert_eq!(pod.metadata.as_ref().unwrap().name.as_deref(), Some("pod"));
    let c = &pod.containers.as_ref().unwrap()[0];
    assert_eq!(c.args, Some(vec![s("start")]));
    let env = c.env.as_ref().unwrap();
    assert_eq!(env[0].name, "A");
    assert_eq!(env[0].value.as_deref(), Some("b"));
    let bad = JobifyAgents {
        agents: vec![agent("one", Some("a.yml"), None, &[]), agent("two", Some("b.yml"), None, &[])],
        automatic_retry: None,
    };
    assert_eq!(assemble_config(bad, None, &files).err(), Some(ConfigError::InvalidJobSpec(s("b.yml"))));
}

#[test]
fn wildcard_rule_picks_the_first_of_equals() {
    let cfg = Config {
        agents: JobifyAgents {
            agents: vec![
                agent("a", Some("a.yaml"), None, &[("queue", "x")]),
                agent("b", Some("b.yaml"), None, &[("queue", "y")]),
            ],
            automatic_retry: None,
        },
        k8s_specs: vec![(s("a.yaml"), template("A", None)), (s("b.yaml"), template("B", None))],
    };
    let (a, t) = get_best_agent(&cfg, &job("queue=*")).unwrap();
    assert_eq!(a.name, "a");
    assert_eq!(t.source, "A");
}
