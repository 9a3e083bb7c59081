//! What the Buildkite monitor decides: the states of builds and jobs, the agent
//! query rules of a job, and how the answers of Buildkite's GraphQL API become
//! the list of builds handed to the jobifier.
use crate::outside::{hash_bytes, hex_digit, parse_uuid, parsed_uuid, xxhash64};
use vstd::utf8::encode_utf8;
use vstd::arithmetic::power2::pow2;
use crate::text::{
    find_char_from, join, join_texts, lemma_index_of_char, opt_text, pairs_view, parse_i32,
    parsed_i32, split_by, split_on, split_once, substring, text_equals, texts_view, upsert,
    upsert_pair, PairView,
};
use vstd::prelude::*;
use vstd::string::*;

mod identity;

verus! {

/// The state of a Buildkite build.
#[derive(Debug, Clone, Copy, PartialEq, Eq, Structural)]
pub enum BuildStates {
    /// The build was skipped
    Skipped,
    /// The build has yet to start running jobs
    Scheduled,
    /// The build is currently running jobs
    Running,
    /// The build passed
    Passed,
    /// The build failed
    Failed,
    /// The build is currently being canceled
    Canceling,
    /// The build was canceled
    Canceled,
    /// The build is blocked
    Blocked,
    /// The build wasn't run
    NotRun,
    /// Unknown build state
    Unknown,
}

/// The build state that the API's enumeration value `name` stands for.
pub open spec fn build_state_named(name: Seq<char>) -> BuildStates {
    if name == "SKIPPED"@ {
        BuildStates::Skipped
    } else if name == "SCHEDULED"@ {
        BuildStates::Scheduled
    } else if name == "RUNNING"@ {
        BuildStates::Running
    } else if name == "PASSED"@ {
        BuildStates::Passed
    } else if name == "FAILED"@ {
        BuildStates::Failed
    } else if name == "CANCELING"@ {
        BuildStates::Canceling
    } else if name == "CANCELED"@ {
        BuildStates::Canceled
    } else if name == "BLOCKED"@ {
        BuildStates::Blocked
    } else if name == "NOT_RUN"@ {
        BuildStates::NotRun
    } else {
        BuildStates::Unknown
    }
}

impl BuildStates {
    /// Maps the value of the GraphQL `BuildStates` enumeration, as it appears in the
    /// API's answer, to a build state; a value this library does not know is `Unknown`.
    pub fn from_name(name: &str) -> (s: BuildStates)
        ensures
            s == build_state_named(name@),
    {
        if text_equals(name, "SKIPPED") {
            BuildStates::Skipped
        } else if text_equals(name, "SCHEDULED") {
            BuildStates::Scheduled
        } else if text_equals(name, "RUNNING") {
            BuildStates::Running
        } else if text_equals(name, "PASSED") {
            BuildStates::Passed
        } else if text_equals(name, "FAILED") {
            BuildStates::Failed
        } else if text_equals(name, "CANCELING") {
            BuildStates::Canceling
        } else if text_equals(name, "CANCELED") {
            BuildStates::Canceled
        } else if text_equals(name, "BLOCKED") {
            BuildStates::Blocked
        } else if text_equals(name, "NOT_RUN") {
            BuildStates::NotRun
        } else {
            BuildStates::Unknown
        }
    }
}

/// The state of a Buildkite job.
#[derive(Debug, Clone, Copy, PartialEq, Eq, Structural)]
pub enum JobStates {
    /// The job has just been created and doesn't have a state yet
    Pending,
    /// The job is waiting on a `wait` step to finish
    Waiting,
    /// The job was in a `Waiting` state when the build failed
    WaitingFailed,
    /// The job is waiting on a `block` step to finish
    Blocked,
    /// The job was in a `Blocked` state when the build failed
    BlockedFailed,
    /// This `block` job has been manually unblocked
    Unblocked,
    /// This `block` job was in a `Blocked` state when the build failed
    UnblockedFailed,
    /// The job is waiting for jobs with the same concurrency group to finish
    Limited,
    /// The job is scheduled and waiting for an agent
    Scheduled,
    /// The job has been assigned to an agent, and it's waiting for it to accept
    Assigned,
    /// The job was accepted by the agent, and now it's waiting to start running
    Accepted,
    /// The job is runing
    Running,
    /// The job has finished
    Finished,
    /// The job is currently canceling
    Canceling,
    /// The job was canceled
    Canceled,
    /// The job is timing out for taking too long
    TimingOut,
    /// The job timed out
    TimedOut,
    /// The job was skipped
    Skipped,
    /// The jobs configuration means that it can't be run
    Broken,
    /// An unknown job state
    Unknown,
}

/// The job state that the API's enumeration value `name` stands for.
pub open spec fn job_state_named(name: Seq<char>) -> JobStates {
    if name == "PENDING"@ {
        JobStates::Pending
    } else if name == "WAITING"@ {
        JobStates::Waiting
    } else if name == "WAITING_FAILED"@ {
        JobStates::WaitingFailed
    } else if name == "BLOCKED"@ {
        JobStates::Blocked
    } else if name == "BLOCKED_FAILED"@ {
        JobStates::BlockedFailed
    } else if name == "UNBLOCKED"@ {
        JobStates::Unblocked
    } else if name == "UNBLOCKED_FAILED"@ {
        JobStates::UnblockedFailed
    } else if name == "LIMITED"@ {
        JobStates::Limited
    } else if name == "SCHEDULED"@ {
        JobStates::Scheduled
    } else if name == "ASSIGNED"@ {
        JobStates::Assigned
    } else if name == "ACCEPTED"@ {
        JobStates::Accepted
    } else if name == "RUNNING"@ {
        JobStates::Running
    } else if name == "FINISHED"@ {
        JobStates::Finished
    } else if name == "CANCELING"@ {
        JobStates::Canceling
    } else if name == "CANCELED"@ {
        JobStates::Canceled
    } else if name == "TIMING_OUT"@ {
        JobStates::TimingOut
    } else if name == "TIMED_OUT"@ {
        JobStates::TimedOut
    } else if name == "SKIPPED"@ {
        JobStates::Skipped
    } else if name == "BROKEN"@ {
        JobStates::Broken
    } else {
        JobStates::Unknown
    }
}

impl JobStates {
    /// Maps the value of the GraphQL `JobStates` enumeration, as it appears in the
    /// API's answer, to a job state; a value this library does not know is `Unknown`.
    pub fn from_name(name: &str) -> (s: JobStates)
        ensures
            s == job_state_named(name@),
    {
        if text_equals(name, "PENDING") {
            JobStates::Pending
        } else if text_equals(name, "WAITING") {
            JobStates::Waiting
        } else if text_equals(name, "WAITING_FAILED") {
            JobStates::WaitingFailed
        } else if text_equals(name, "BLOCKED") {
            JobStates::Blocked
        } else if text_equals(name, "BLOCKED_FAILED") {
            JobStates::BlockedFailed
        } else if text_equals(name, "UNBLOCKED") {
            JobStates::Unblocked
        } else if text_equals(name, "UNBLOCKED_FAILED") {
            JobStates::UnblockedFailed
        } else if text_equals(name, "LIMITED") {
            JobStates::Limited
        } else if text_equals(name, "SCHEDULED") {
            JobStates::Scheduled
        } else if text_equals(name, "ASSIGNED") {
            JobStates::Assigned
        } else if text_equals(name, "ACCEPTED") {
            JobStates::Accepted
        } else if text_equals(name, "RUNNING") {
            JobStates::Running
        } else if text_equals(name, "FINISHED") {
            JobStates::Finished
        } else if text_equals(name, "CANCELING") {
            JobStates::Canceling
        } else if text_equals(name, "CANCELED") {
            JobStates::Canceled
        } else if text_equals(name, "TIMING_OUT") {
            JobStates::TimingOut
        } else if text_equals(name, "TIMED_OUT") {
            JobStates::TimedOut
        } else if text_equals(name, "SKIPPED") {
            JobStates::Skipped
        } else if text_equals(name, "BROKEN") {
            JobStates::Broken
        } else {
            JobStates::Unknown
        }
    }
}

/// One agent query rule: a tag key, and the value it must have, or `None` when any
/// value will do (the rule's value was empty or `*`).
pub type QueryRuleView = (Seq<char>, Option<Seq<char>>);

/// The rule that one comma-separated piece of a job's query rules stands for;
/// a piece without `=` stands for none.
pub open spec fn parse_query_rule(piece: Seq<char>) -> Option<QueryRuleView> {
    match split_once(piece, '=') {
        (k, Some(v)) => if v.len() == 0 || v == seq!['*'] {
            Some((k, None))
        } else {
            Some((k, Some(v)))
        },
        (_, None) => None,
    }
}

/// The rules of the pieces, in order, leaving out the pieces that stand for none.
pub open spec fn parse_query_rules(pieces: Seq<Seq<char>>) -> Seq<QueryRuleView>
    decreases pieces.len(),
{
    if pieces.len() == 0 {
        seq![]
    } else {
        let rest = parse_query_rules(pieces.drop_last());
        match parse_query_rule(pieces.last()) {
            Some(r) => rest.push(r),
            None => rest,
        }
    }
}

/// The agent query rules that a job's comma-separated rule text stands for.
pub open spec fn query_rules_of(rules: Seq<char>) -> Seq<QueryRuleView> {
    parse_query_rules(split_on(rules, ','))
}

/// The view of an executable query rule.
pub open spec fn rule_view(r: (String, Option<String>)) -> QueryRuleView {
    (
        r.0@,
        match r.1 {
            Some(v) => Some(v@),
            None => None,
        },
    )
}

/// The view of a sequence of executable query rules.
pub open spec fn rules_view(rules: Seq<(String, Option<String>)>) -> Seq<QueryRuleView> {
    rules.map_values(|r: (String, Option<String>)| rule_view(r))
}

/// Parses one `key=value` piece of a job's query rules.
fn parse_rule(piece: &str) -> (r: Option<(String, Option<String>)>)
    ensures
        match r {
            Some(x) => parse_query_rule(piece@) == Some(rule_view(x)),
            None => parse_query_rule(piece@) is None,
        },
{
    let len = piece.unicode_len();
    let i = find_char_from(piece, '=', 0);
    assert(piece@.skip(0) =~= piece@);
    proof {
        lemma_index_of_char(piece@, '=');
    }
    if i == len {
        return None;
    }
    let key = substring(piece, 0, i);
    let value = substring(piece, i + 1, len);
    assert(key@ =~= piece@.take(i as int));
    assert(value@ =~= piece@.skip(i + 1));
    let value_len = value.as_str().unicode_len();
    if value_len == 0 || (value_len == 1 && value.as_str().get_char(0) == '*') {
        proof {
            if value_len == 1 {
                assert(value@ =~= seq!['*']);
            }
        }
        Some((key, None))
    } else {
        proof {
            if value@ == seq!['*'] {
                assert(value@[0] == '*');
            }
        }
        Some((key, Some(value)))
    }
}

/// The agent query rules of a job, as `key=value` pairs separated by commas: a piece
/// without `=` is left out, and a value that is empty or `*` matches any value.
pub fn iter_query_rules(query_rules: &str) -> (rules: Vec<(String, Option<String>)>)
    ensures
        rules_view(rules@) == query_rules_of(query_rules@),
{
    let pieces = split_by(query_rules, ',');
    let ghost pv = pieces@.map_values(|p: String| p@);
    let mut rules: Vec<(String, Option<String>)> = Vec::new();
    let mut i: usize = 0;
    assert(pv.take(0) =~= seq![]);
    while i < pieces.len()
        invariant
            pv == pieces@.map_values(|p: String| p@),
            i <= pieces.len(),
            rules_view(rules@) == parse_query_rules(pv.take(i as int)),
        decreases pieces.len() - i,
    {
        let r = parse_rule(pieces[i].as_str());
        proof {
            assert(pv.take(i + 1).drop_last() =~= pv.take(i as int));
            assert(pv.take(i + 1).last() == pieces@[i as int]@);
        }
        match r {
            Some(x) => {
                let ghost before = rules@;
                rules.push(x);
                assert(rules_view(rules@) =~= rules_view(before).push(rule_view(x)));
            },
            None => {},
        }
        i = i + 1;
    }
    assert(pv.take(pieces.len() as int) =~= pv);
    rules
}

/// A Buildkite job.
#[derive(Debug)]
pub struct Job {
    /// Unique identifier for the job
    pub uuid: u128,
    /// The job's friendly identifier
    pub label: String,
    /// The containing build's UUID
    pub build_uuid: u128,
    /// The exit code for the job, if it has finished execution
    pub exit_status: Option<i32>,
    /// The current state of the job
    pub state: JobStates,
    /// The agent query rules used to determine which agents
    /// can pick this job up
    pub query_rules: String,
    /// The name of the agent the job was assigned to
    pub agent: Option<String>,
}

impl Job {
    /// The job's agent query rules, as comma-separated text.
    pub open spec fn query_rules_text(&self) -> Seq<char> {
        self.query_rules@
    }

    /// A job with the given fields.
    pub fn new(
        uuid: u128,
        label: String,
        build_uuid: u128,
        exit_status: Option<i32>,
        state: JobStates,
        query_rules: String,
        agent: Option<String>,
    ) -> (j: Job)
        ensures
            j.uuid == uuid,
            j.label == label,
            j.build_uuid == build_uuid,
            j.exit_status == exit_status,
            j.state == state,
            j.query_rules_text() == query_rules@,
            j.agent == agent,
    {
        Job { uuid, label, build_uuid, exit_status, state, query_rules, agent }
    }

    /// The job's agent query rules.
    pub fn iter_query_rules(&self) -> (rules: Vec<(String, Option<String>)>)
        ensures
            rules_view(rules@) == query_rules_of(self.query_rules_text()),
    {
        iter_query_rules(self.query_rules.as_str())
    }
}

/// A Buildkite build.
#[derive(Debug)]
pub struct Build {
    /// Unique identifier for the build
    pub uuid: u128,
    /// Metadata attached to the build, one pair per key
    pub metadata: Vec<(String, String)>,
    /// The commit message that triggered the build
    pub message: Option<String>,
    /// The commit identifier the build pertains to
    pub commit: String,
    /// The current state of the build
    pub state: BuildStates,
    /// The list of currently known jobs in the build
    pub jobs: Vec<Job>,
}

/// The builds of a pipeline that the monitor hands to the jobifier.
pub struct Builds {
    /// The builds, in order of their UUIDs
    pub builds: Vec<Build>,
    /// The name of the pipeline
    pub pipeline: String,
}

/// A job, as text.
pub struct JobView {
    pub uuid: u128,
    pub label: Seq<char>,
    pub build_uuid: u128,
    pub exit_status: Option<i32>,
    pub state: JobStates,
    pub query_rules: Seq<char>,
    pub agent: Option<Seq<char>>,
}

impl View for Job {
    type V = JobView;

    open spec fn view(&self) -> JobView {
        JobView {
            uuid: self.uuid,
            label: self.label@,
            build_uuid: self.build_uuid,
            exit_status: self.exit_status,
            state: self.state,
            query_rules: self.query_rules@,
            agent: opt_text(self.agent),
        }
    }
}

/// The view of a sequence of jobs.
pub open spec fn jobs_view(jobs: Seq<Job>) -> Seq<JobView> {
    jobs.map_values(|j: Job| j@)
}

/// A build, as text.
pub struct BuildView {
    pub uuid: u128,
    pub metadata: Seq<PairView>,
    pub message: Option<Seq<char>>,
    pub commit: Seq<char>,
    pub state: BuildStates,
    pub jobs: Seq<JobView>,
}

impl View for Build {
    type V = BuildView;

    open spec fn view(&self) -> BuildView {
        BuildView {
            uuid: self.uuid,
            metadata: pairs_view(self.metadata@),
            message: opt_text(self.message),
            commit: self.commit@,
            state: self.state,
            jobs: jobs_view(self.jobs@),
        }
    }
}

/// The view of a sequence of builds.
pub open spec fn builds_view(builds: Seq<Build>) -> Seq<BuildView> {
    builds.map_values(|b: Build| b@)
}

/// A command job as Buildkite's API describes it.
#[derive(Debug, Clone)]
pub struct RawCommandJob {
    /// The job's UUID, as text
    pub uuid: String,
    /// The job's label
    pub label: Option<String>,
    /// The value of the job's `JobStates` enumeration
    pub state: String,
    /// The job's agent query rules
    pub agent_query_rules: Option<Vec<String>>,
    /// The job's exit status, as text
    pub exit_status: Option<String>,
    /// The name of the agent the job was assigned to
    pub agent: Option<String>,
}

/// A job as Buildkite's API describes it: a command job, or a job of another kind.
#[derive(Debug, Clone)]
pub enum RawJob {
    Command(RawCommandJob),
    Other,
}

/// A build as Buildkite's API describes it. Each element of the lists is `None` where
/// the answer holds no node.
#[derive(Debug, Clone)]
pub struct RawBuild {
    /// The build's UUID, as text
    pub uuid: String,
    /// The commit identifier the build pertains to
    pub commit: String,
    /// The commit message
    pub message: Option<String>,
    /// The value of the build's `BuildStates` enumeration
    pub state: String,
    /// The build's jobs, `None` when the answer holds no job list
    pub jobs: Option<Vec<Option<RawJob>>>,
    /// The build's metadata entries
    pub meta_data: Option<Vec<Option<(String, String)>>>,
    /// The metadata entries of the build that triggered this one
    pub triggered_meta_data: Option<Vec<Option<(String, String)>>>,
}

/// The job a command job of the answer stands for; none when its UUID is not valid.
pub open spec fn command_job_of(c: RawCommandJob, build_uuid: u128) -> Option<JobView> {
    match parsed_uuid(c.uuid@) {
        None => None,
        Some(u) => Some(
            JobView {
                uuid: u,
                label: match c.label {
                    Some(l) => l@,
                    None => "<unlabeled>"@,
                },
                build_uuid: build_uuid,
                exit_status: match c.exit_status {
                    Some(es) => parsed_i32(es@),
                    None => None,
                },
                state: job_state_named(c.state@),
                query_rules: match c.agent_query_rules {
                    Some(rs) => join_texts(texts_view(rs@), ","@),
                    None => seq![],
                },
                agent: opt_text(c.agent),
            },
        ),
    }
}

/// The jobs of a build's answer: its command jobs with valid UUIDs, in order.
pub open spec fn jobs_of(raw: Seq<Option<RawJob>>, build_uuid: u128) -> Seq<JobView>
    decreases raw.len(),
{
    if raw.len() == 0 {
        seq![]
    } else {
        let rest = jobs_of(raw.drop_last(), build_uuid);
        match raw.last() {
            Some(RawJob::Command(c)) => match command_job_of(c, build_uuid) {
                Some(j) => rest.push(j),
                None => rest,
            },
            _ => rest,
        }
    }
}

/// Metadata with the entries set in order, a later entry overriding an earlier one.
pub open spec fn merge_meta(meta: Seq<PairView>, entries: Seq<Option<(String, String)>>) -> Seq<
    PairView,
>
    decreases entries.len(),
{
    if entries.len() == 0 {
        meta
    } else {
        let m = merge_meta(meta, entries.drop_last());
        match entries.last() {
            Some(kv) => upsert(m, kv.0@, kv.1@),
            None => m,
        }
    }
}

/// A build's metadata: the metadata of the build that triggered it, overridden by its own.
pub open spec fn build_meta(r: RawBuild) -> Seq<PairView> {
    let triggered = match r.triggered_meta_data {
        Some(es) => es@,
        None => seq![],
    };
    let own = match r.meta_data {
        Some(es) => es@,
        None => seq![],
    };
    merge_meta(merge_meta(seq![], triggered), own)
}

/// The build a build of the answer stands for; none when its UUID is not valid or it
/// has no command job with a valid UUID.
pub open spec fn build_of(r: RawBuild) -> Option<BuildView> {
    match parsed_uuid(r.uuid@) {
        None => None,
        Some(u) => match r.jobs {
            None => None,
            Some(js) => {
                let jobs = jobs_of(js@, u);
                if jobs.len() == 0 {
                    None
                } else {
                    Some(
                        BuildView {
                            uuid: u,
                            metadata: build_meta(r),
                            message: opt_text(r.message),
                            commit: r.commit@,
                            state: build_state_named(r.state@),
                            jobs: jobs,
                        },
                    )
                }
            },
        },
    }
}

/// The builds of the answer, in the answer's order, leaving out those that stand for none.
pub open spec fn builds_of(raw: Seq<Option<RawBuild>>) -> Seq<BuildView>
    decreases raw.len(),
{
    if raw.len() == 0 {
        seq![]
    } else {
        let rest = builds_of(raw.drop_last());
        match raw.last() {
            Some(r) => match build_of(r) {
                Some(b) => rest.push(b),
                None => rest,
            },
            None => rest,
        }
    }
}

/// The position before the first build whose UUID is greater than `u`.
pub open spec fn first_greater(s: Seq<BuildView>, u: u128) -> int
    decreases s.len(),
{
    if s.len() == 0 {
        0
    } else if s[0].uuid > u {
        0
    } else {
        1 + first_greater(s.drop_first(), u)
    }
}

/// The builds sorted by UUID; builds with equal UUIDs keep their order.
pub open spec fn sort_by_uuid(s: Seq<BuildView>) -> Seq<BuildView>
    decreases s.len(),
{
    if s.len() == 0 {
        seq![]
    } else {
        let sorted = sort_by_uuid(s.drop_last());
        sorted.insert(first_greater(sorted, s.last().uuid), s.last())
    }
}

/// The builds handed to the jobifier for the answer: its builds sorted by UUID, or
/// none when the answer holds no build.
pub open spec fn builds_result(raw: Option<Seq<Option<RawBuild>>>) -> Option<Seq<BuildView>> {
    match raw {
        None => None,
        Some(rs) => {
            let bs = sort_by_uuid(builds_of(rs));
            if bs.len() == 0 {
                None
            } else {
                Some(bs)
            }
        },
    }
}

/// A build of the pipeline that is still running, remembered so that the next query
/// asks for it again.
#[derive(Debug, Clone)]
pub struct KnownBuild {
    /// The build's UUID
    pub uuid: u128,
    /// The commit identifier the build pertains to
    pub commit: String,
}

/// The view of the remembered builds.
pub open spec fn known_view(k: Seq<KnownBuild>) -> Seq<(u128, Seq<char>)> {
    k.map_values(|b: KnownBuild| (b.uuid, b.commit@))
}

/// The running builds among the builds, in order.
pub open spec fn running_known(bs: Seq<BuildView>) -> Seq<(u128, Seq<char>)>
    decreases bs.len(),
{
    if bs.len() == 0 {
        seq![]
    } else {
        let rest = running_known(bs.drop_last());
        if bs.last().state == BuildStates::Running {
            rest.push((bs.last().uuid, bs.last().commit))
        } else {
            rest
        }
    }
}

/// Turns a command job of the answer into a job.
fn command_job(c: RawCommandJob, build_uuid: u128) -> (r: Option<Job>)
    ensures
        match r {
            Some(j) => command_job_of(c, build_uuid) == Some(j@),
            None => command_job_of(c, build_uuid) is None,
        },
{
    let uuid = match parse_uuid(c.uuid.as_str()) {
        Some(u) => u,
        None => return None,
    };
    let label = match c.label {
        Some(l) => l,
        None => "<unlabeled>".to_owned(),
    };
    let query_rules = match &c.agent_query_rules {
        Some(rs) => join(rs, ","),
        None => String::new(),
    };
    let exit_status = match &c.exit_status {
        Some(es) => parse_i32(es.as_str()),
        None => None,
    };
    let state = JobStates::from_name(c.state.as_str());
    Some(Job { uuid, label, build_uuid, exit_status, state, query_rules, agent: c.agent })
}

/// The jobs of a build of the answer.
fn collect_jobs(raw: Vec<Option<RawJob>>, build_uuid: u128) -> (jobs: Vec<Job>)
    ensures
        jobs_view(jobs@) == jobs_of(raw@, build_uuid),
{
    let ghost rv = raw@;
    let n = raw.len();
    let mut raw = raw;
    let mut jobs: Vec<Job> = Vec::new();
    let mut rest: Vec<Option<RawJob>> = Vec::new();
    // Take the entries in order by reversing the list once.
    while raw.len() > 0
        invariant
            rv == raw@ + rest@.reverse(),
            n == rv.len(),
        decreases raw.len(),
    {
        let x = raw.pop().unwrap();
        let ghost before = rest@;
        rest.push(x);
        assert(rest@.reverse() =~= seq![x] + before.reverse());
    }
    assert(rv =~= rest@.reverse());
    let mut i: usize = 0;
    assert(rv.take(0) =~= seq![]);
    assert(jobs_view(jobs@) =~= seq![]);
    while rest.len() > 0
        invariant
            rv == rv.take(i as int) + rest@.reverse(),
            i + rest.len() == n,
            n == rv.len(),
            jobs_view(jobs@) == jobs_of(rv.take(i as int), build_uuid),
        decreases rest.len(),
    {
        let ghost before_rest = rest@;
        let x = rest.pop().unwrap();
        proof {
            assert(before_rest.reverse()[0] == x);
            assert(rv[i as int] == x) by {
                assert(rv == rv.take(i as int) + before_rest.reverse());
            }
            assert(rv.take(i + 1).drop_last() =~= rv.take(i as int));
            assert(rv.take(i + 1).last() == x);
            assert(before_rest.reverse() =~= seq![x] + rest@.reverse());
            assert(rv =~= rv.take(i + 1) + rest@.reverse());
        }
        match x {
            Some(RawJob::Command(c)) => {
                let ghost cv = c;
                match command_job(c, build_uuid) {
                    Some(j) => {
                        let ghost before = jobs_view(jobs@);
                        jobs.push(j);
                        assert(jobs_view(jobs@) =~= before.push(j@));
                    },
                    None => {},
                }
            },
            _ => {},
        }
        i = i + 1;
    }
    assert(rv.take(i as int) =~= rv);
    jobs
}

/// Sets the metadata entries in order, a later entry overriding an earlier one.
fn merge_metadata(meta: &mut Vec<(String, String)>, entries: Vec<Option<(String, String)>>)
    ensures
        pairs_view(final(meta)@) == merge_meta(pairs_view(old(meta)@), entries@),
{
    let ghost m0 = pairs_view(meta@);
    let mut i: usize = 0;
    assert(entries@.take(0) =~= seq![]);
    while i < entries.len()
        invariant
            m0 == pairs_view(old(meta)@),
            i <= entries.len(),
            pairs_view(meta@) == merge_meta(m0, entries@.take(i as int)),
        decreases entries.len() - i,
    {
        proof {
            assert(entries@.take(i + 1).drop_last() =~= entries@.take(i as int));
            assert(entries@.take(i + 1).last() == entries@[i as int]);
        }
        match &entries[i] {
            Some(kv) => {
                upsert_pair(meta, kv.0.clone(), kv.1.clone());
            },
            None => {},
        }
        i = i + 1;
    }
    assert(entries@.take(entries.len() as int) =~= entries@);
}

/// Turns a build of the answer into a build.
fn build_from(r: RawBuild) -> (b: Option<Build>)
    ensures
        match b {
            Some(b) => build_of(r) == Some(b@),
            None => build_of(r) is None,
        },
{
    let ghost rv = r;
    let uuid = match parse_uuid(r.uuid.as_str()) {
        Some(u) => u,
        None => return None,
    };
    let RawBuild { uuid: _, commit, message, state, jobs, meta_data, triggered_meta_data } = r;
    let jobs = match jobs {
        Some(js) => collect_jobs(js, uuid),
        None => return None,
    };
    if jobs.len() == 0 {
        return None;
    }
    let mut metadata: Vec<(String, String)> = Vec::new();
    assert(pairs_view(metadata@) =~= seq![]);
    match triggered_meta_data {
        Some(es) => merge_metadata(&mut metadata, es),
        None => {
            assert(merge_meta(seq![], seq![]) =~= seq![]);
        },
    }
    let ghost after_triggered = pairs_view(metadata@);
    match meta_data {
        Some(es) => merge_metadata(&mut metadata, es),
        None => {
            assert(merge_meta(after_triggered, seq![]) == after_triggered);
        },
    }
    let state = BuildStates::from_name(state.as_str());
    Some(Build { uuid, metadata, message, commit, state, jobs })
}

/// Inserts a build after every build whose UUID is not greater than its own.
fn insert_by_uuid(sorted: &mut Vec<Build>, b: Build)
    ensures
        builds_view(final(sorted)@) == builds_view(old(sorted)@).insert(
            first_greater(builds_view(old(sorted)@), b.uuid),
            b@,
        ),
{
    let ghost sv = builds_view(sorted@);
    let mut k: usize = 0;
    assert(sv.skip(0) =~= sv);
    while k < sorted.len() && sorted[k].uuid <= b.uuid
        invariant
            sv == builds_view(sorted@),
            sorted@ == old(sorted)@,
            k <= sorted.len(),
            first_greater(sv, b.uuid) == k + first_greater(sv.skip(k as int), b.uuid),
        decreases sorted.len() - k,
    {
        assert(sv.skip(k as int).drop_first() =~= sv.skip(k + 1));
        assert(sv.skip(k as int)[0] == sv[k as int]);
        k = k + 1;
    }
    proof {
        if k < sorted.len() {
            assert(sv.skip(k as int)[0] == sv[k as int]);
        }
    }
    sorted.insert(k, b);
    assert(builds_view(sorted@) =~= sv.insert(k as int, b@));
}

/// Sorts the builds by UUID, keeping the order of builds with equal UUIDs.
#[verifier::spinoff_prover]
#[verifier::rlimit(40)]
fn sort_builds(builds: Vec<Build>) -> (sorted: Vec<Build>)
    ensures
        builds_view(sorted@) == sort_by_uuid(builds_view(builds@)),
{
    let ghost bv = builds_view(builds@);
    let n = builds.len();
    let mut rest = builds;
    let mut reversed: Vec<Build> = Vec::new();
    while rest.len() > 0
        invariant
            bv == builds_view(rest@) + builds_view(reversed@).reverse(),
            n == bv.len(),
        decreases rest.len(),
    {
        let x = rest.pop().unwrap();
        let ghost before = builds_view(reversed@);
        reversed.push(x);
        assert(builds_view(reversed@) =~= before.push(x@));
        assert(builds_view(reversed@).reverse() =~= seq![x@] + before.reverse());
    }
    assert(bv =~= builds_view(reversed@).reverse());
    let mut sorted: Vec<Build> = Vec::new();
    let mut i: usize = 0;
    assert(bv.take(0) =~= seq![]);
    assert(builds_view(sorted@) =~= seq![]);
    while reversed.len() > 0
        invariant
            bv == bv.take(i as int) + builds_view(reversed@).reverse(),
            i + reversed.len() == n,
            n == bv.len(),
            builds_view(sorted@) == sort_by_uuid(bv.take(i as int)),
        decreases reversed.len(),
    {
        let ghost before = builds_view(reversed@);
        let x = reversed.pop().unwrap();
        proof {
            assert(before =~= builds_view(reversed@).push(x@));
            assert(before.reverse() =~= seq![x@] + builds_view(reversed@).reverse());
            assert(bv[i as int] == x@) by {
                assert(bv == bv.take(i as int) + before.reverse());
            }
            assert(bv.take(i + 1).drop_last() =~= bv.take(i as int));
            assert(bv.take(i + 1).last() == x@);
            assert(bv =~= bv.take(i + 1) + builds_view(reversed@).reverse());
        }
        insert_by_uuid(&mut sorted, x);
        i = i + 1;
    }
    assert(bv.take(i as int) =~= bv);
    sorted
}

/// Applies the answer to the query for a pipeline's builds. When the answer's hash is
/// the one of the previous answer, nothing changed and there is nothing to hand over.
/// Otherwise the hash is remembered, the builds of the answer are handed over sorted by
/// UUID (none when it holds no build), and the running ones are remembered so that the
/// next query asks for them again.
pub fn apply_builds(
    known_builds: &mut Vec<KnownBuild>,
    query_hash: &mut Option<u64>,
    hash: Option<u64>,
    raw: Option<Vec<Option<RawBuild>>>,
) -> (r: Option<Vec<Build>>)
    ensures
        *old(query_hash) == hash ==> {
            &&& r is None
            &&& final(known_builds)@ == old(known_builds)@
            &&& *final(query_hash) == *old(query_hash)
        },
        *old(query_hash) != hash ==> {
            let expected = builds_result(
                match raw {
                    Some(v) => Some(v@),
                    None => None,
                },
            );
            &&& *final(query_hash) == hash
            &&& match r {
                Some(bs) => expected == Some(builds_view(bs@)),
                None => expected is None,
            }
            &&& known_view(final(known_builds)@) == match expected {
                Some(bs) => running_known(bs),
                None => seq![],
            }
        },
{
    if *query_hash == hash {
        return None;
    }
    *query_hash = hash;
    let rs = match raw {
        Some(rs) => rs,
        None => {
            known_builds.clear();
            assert(known_view(known_builds@) =~= seq![]);
            return None;
        },
    };
    let ghost rv = rs@;
    let mut builds: Vec<Build> = Vec::new();
    let mut rest = rs;
    let n = rest.len();
    let mut reversed: Vec<Option<RawBuild>> = Vec::new();
    while rest.len() > 0
        invariant
            rv == rest@ + reversed@.reverse(),
            n == rv.len(),
        decreases rest.len(),
    {
        let x = rest.pop().unwrap();
        let ghost before = reversed@;
        reversed.push(x);
        assert(reversed@.reverse() =~= seq![x] + before.reverse());
    }
    assert(rv =~= reversed@.reverse());
    let mut i: usize = 0;
    assert(rv.take(0) =~= seq![]);
    assert(builds_view(builds@) =~= seq![]);
    while reversed.len() > 0
        invariant
            rv == rv.take(i as int) + reversed@.reverse(),
            i + reversed.len() == n,
            n == rv.len(),
            builds_view(builds@) == builds_of(rv.take(i as int)),
        decreases reversed.len(),
    {
        let ghost before = reversed@;
        let x = reversed.pop().unwrap();
        proof {
            assert(before.reverse() =~= seq![x] + reversed@.reverse());
            assert(rv[i as int] == x) by {
                assert(rv == rv.take(i as int) + before.reverse());
            }
            assert(rv.take(i + 1).drop_last() =~= rv.take(i as int));
            assert(rv.take(i + 1).last() == x);
            assert(rv =~= rv.take(i + 1) + reversed@.reverse());
        }
        match x {
            Some(b) => match build_from(b) {
                Some(b) => {
                    let ghost bb = builds_view(builds@);
                    builds.push(b);
                    assert(builds_view(builds@) =~= bb.push(b@));
                },
                None => {},
            },
            None => {},
        }
        i = i + 1;
    }
    assert(rv.take(i as int) =~= rv);
    let sorted = sort_builds(builds);
    let ghost sv = builds_view(sorted@);
    known_builds.clear();
    if sorted.len() == 0 {
        assert(known_view(known_builds@) =~= seq![]);
        return None;
    }
    let mut k: usize = 0;
    assert(sv.take(0) =~= seq![]);
    assert(known_view(known_builds@) =~= seq![]);
    while k < sorted.len()
        invariant
            sv == builds_view(sorted@),
            k <= sorted.len(),
            known_view(known_builds@) == running_known(sv.take(k as int)),
        decreases sorted.len() - k,
    {
        proof {
            assert(sv.take(k + 1).drop_last() =~= sv.take(k as int));
            assert(sv.take(k + 1).last() == sorted@[k as int]@);
        }
        if sorted[k].state == BuildStates::Running {
            let ghost kb = known_view(known_builds@);
            known_builds.push(KnownBuild { uuid: sorted[k].uuid, commit: sorted[k].commit.clone() });
            assert(known_view(known_builds@) =~= kb.push((sorted@[k as int].uuid, sorted@[k as int].commit@)));
        }
        k = k + 1;
    }
    assert(sv.take(sorted.len() as int) =~= sv);
    Some(sorted)
}

/// A build of the pipeline that the answer to the query for running builds holds.
#[derive(Debug, Clone)]
pub struct RawRunningBuild {
    /// The build's UUID, as text
    pub uuid: String,
    /// The commit identifier the build pertains to
    pub commit: String,
}

/// The commits of the running builds of the answer whose UUIDs are valid, in order.
pub open spec fn running_commits(rs: Seq<Option<RawRunningBuild>>) -> Seq<Seq<char>>
    decreases rs.len(),
{
    if rs.len() == 0 {
        seq![]
    } else {
        let rest = running_commits(rs.drop_last());
        match rs.last() {
            Some(r) => if parsed_uuid(r.uuid@) is Some {
                rest.push(r.commit@)
            } else {
                rest
            },
            None => rest,
        }
    }
}

/// The commits to query the builds of: those of the builds remembered as running,
/// followed by those of the running builds the pipeline now reports.
pub fn commits_to_query(known: &Vec<KnownBuild>, running: Option<Vec<Option<RawRunningBuild>>>) -> (c:
    Vec<String>)
    ensures
        texts_view(c@) == known@.map_values(|k: KnownBuild| k.commit@) + match running {
            Some(rs) => running_commits(rs@),
            None => seq![],
        },
{
    let mut c: Vec<String> = Vec::new();
    let mut i: usize = 0;
    assert(texts_view(c@) =~= seq![]);
    while i < known.len()
        invariant
            i <= known.len(),
            texts_view(c@) == known@.take(i as int).map_values(|k: KnownBuild| k.commit@),
        decreases known.len() - i,
    {
        let ghost before = texts_view(c@);
        c.push(known[i].commit.clone());
        assert(texts_view(c@) =~= before.push(known@[i as int].commit@));
        assert(known@.take(i + 1).map_values(|k: KnownBuild| k.commit@) =~= before.push(
            known@[i as int].commit@,
        ));
        i = i + 1;
    }
    assert(known@.take(known.len() as int) =~= known@);
    let ghost kc = texts_view(c@);
    match &running {
        None => {
            assert(kc + seq![] =~= kc);
        },
        Some(rs) => {
            let mut k: usize = 0;
            assert(rs@.take(0) =~= seq![]);
            assert(kc + running_commits(rs@.take(0)) =~= kc);
            while k < rs.len()
                invariant
                    k <= rs.len(),
                    texts_view(c@) == kc + running_commits(rs@.take(k as int)),
                decreases rs.len() - k,
            {
                proof {
                    assert(rs@.take(k + 1).drop_last() =~= rs@.take(k as int));
                    assert(rs@.take(k + 1).last() == rs@[k as int]);
                }
                match &rs[k] {
                    Some(r) => {
                        if parse_uuid(r.uuid.as_str()).is_some() {
                            let ghost before = texts_view(c@);
                            c.push(r.commit.clone());
                            assert(texts_view(c@) =~= before.push(r.commit@));
                        }
                    },
                    None => {},
                }
                k = k + 1;
            }
            assert(rs@.take(rs.len() as int) =~= rs@);
        },
    }
    c
}

/// The errors of Buildkite's GraphQL API, each as the text of its debug form.
#[derive(Debug, Clone)]
pub struct GraphQLErrors {
    pub errors: Vec<String>,
}

impl GraphQLErrors {
    /// The errors as a debug list, `[e1, e2, ...]`.
    pub fn to_string(&self) -> (s: String)
        ensures
            s@ == "["@ + join_texts(texts_view(self.errors@), ", "@) + "]"@,
    {
        let mut s = "[".to_owned();
        let inner = join(&self.errors, ", ");
        assert(self.errors@.map_values(|p: String| p@) =~= texts_view(self.errors@));
        s.append(inner.as_str());
        s.append("]");
        s
    }
}

/// What went wrong talking to Buildkite. The errors of other crates are held as their
/// messages.
#[derive(Debug, Clone)]
pub enum BkErr {
    InvalidHttpHeader(String),
    Http(String),
    Reqwest(String),
    Json(String),
    UnknownOrg(String),
    InvalidOrgId(String),
    UnknownPipeline(String),
    Threadpool(String),
    Request(GraphQLErrors),
    InvalidResponse(String),
}

/// The message of an error.
pub open spec fn bk_err_text(e: BkErr) -> Seq<char> {
    match e {
        BkErr::InvalidHttpHeader(ihv) => "invalid header value: "@ + ihv@,
        BkErr::Http(re) => "http error: "@ + re@,
        BkErr::Reqwest(re) => "http request error: "@ + re@,
        BkErr::Json(je) => "json error: "@ + je@,
        BkErr::UnknownOrg(o) => "unknown org '"@ + o@ + "'"@,
        BkErr::InvalidOrgId(o) => "invalid org id '"@ + o@ + "'"@,
        BkErr::UnknownPipeline(p) => "unknown pipeline '"@ + p@ + "'"@,
        BkErr::Threadpool(io) => "threadpool error: "@ + io@,
        BkErr::Request(api) => "API failure: "@ + "["@ + join_texts(texts_view(api.errors@), ", "@)
            + "]"@,
        BkErr::InvalidResponse(res) => "invalid response "@ + res@,
    }
}

/// `prefix`, `inner` and `suffix`, one after the other.
fn framed(prefix: &str, inner: &str, suffix: &str) -> (s: String)
    ensures
        s@ == prefix@ + inner@ + suffix@,
{
    let mut s = prefix.to_owned();
    s.append(inner);
    s.append(suffix);
    s
}

impl BkErr {
    /// The error's message.
    pub fn to_string(&self) -> (s: String)
        ensures
            s@ == bk_err_text(*self),
    {
        proof {
            reveal_strlit("");
        }
        match self {
            BkErr::InvalidHttpHeader(ihv) => framed("invalid header value: ", ihv.as_str(), ""),
            BkErr::Http(re) => framed("http error: ", re.as_str(), ""),
            BkErr::Reqwest(re) => framed("http request error: ", re.as_str(), ""),
            BkErr::Json(je) => framed("json error: ", je.as_str(), ""),
            BkErr::UnknownOrg(o) => framed("unknown org '", o.as_str(), "'"),
            BkErr::InvalidOrgId(o) => framed("invalid org id '", o.as_str(), "'"),
            BkErr::UnknownPipeline(p) => framed("unknown pipeline '", p.as_str(), "'"),
            BkErr::Threadpool(io) => framed("threadpool error: ", io.as_str(), ""),
            BkErr::Request(api) => {
                let inner = api.to_string();
                framed("API failure: ", inner.as_str(), "")
            },
            BkErr::InvalidResponse(res) => framed("invalid response ", res.as_str(), ""),
        }
    }

    /// The message of the error of another crate that caused this one, if any.
    pub fn source(&self) -> (r: Option<String>)
        ensures
            r == match *self {
                BkErr::InvalidHttpHeader(s) => Some(s),
                BkErr::Http(s) => Some(s),
                BkErr::Reqwest(s) => Some(s),
                BkErr::Json(s) => Some(s),
                BkErr::Threadpool(s) => Some(s),
                _ => None,
            },
    {
        match self {
            BkErr::InvalidHttpHeader(s) => Some(s.clone()),
            BkErr::Http(s) => Some(s.clone()),
            BkErr::Reqwest(s) => Some(s.clone()),
            BkErr::Json(s) => Some(s.clone()),
            BkErr::Threadpool(s) => Some(s.clone()),
            _ => None,
        }
    }
}

/// The content type of the answers the monitor accepts.
pub open spec fn json_content_type() -> Seq<char> {
    "application/json; charset=utf-8"@
}

/// A byte that a header value shows as it is: visible ASCII or a tab.
pub open spec fn visible_ascii(b: u32) -> bool {
    (32 <= b && b < 127) || b == 9
}

/// A byte in hexadecimal, lower case, without leading zero.
pub open spec fn hex_text(b: u8) -> Seq<char> {
    if b < 16 {
        seq![hex_digit(b as int)]
    } else {
        seq![hex_digit((b / 16) as int), hex_digit((b % 16) as int)]
    }
}

/// Bytes written as `\x` and their hexadecimal value, one after the other.
pub open spec fn hex_escaped(bs: Seq<u8>) -> Seq<char>
    decreases bs.len(),
{
    if bs.len() == 0 {
        seq![]
    } else {
        hex_escaped(bs.drop_last()) + "\\x"@ + hex_text(bs.last())
    }
}

/// How a character of a header value is shown: a quote escaped, visible ASCII and tabs
/// as they are, and every byte of any other character's UTF-8 encoding as `\x` and
/// its hexadecimal value.
pub open spec fn escaped_char(c: char) -> Seq<char> {
    if c == '"' {
        "\\\""@
    } else if visible_ascii(c as u32) {
        seq![c]
    } else {
        hex_escaped(encode_utf8(seq![c]))
    }
}

/// How a header value's text is shown, character by character.
pub open spec fn escaped_text(s: Seq<char>) -> Seq<char>
    decreases s.len(),
{
    if s.len() == 0 {
        seq![]
    } else {
        escaped_text(s.drop_last()) + escaped_char(s.last())
    }
}

/// How a content type is shown in the error for an answer of another type: as an
/// optional header value, in quotes and escaped.
pub open spec fn shown_content_type(content_type: Option<Seq<char>>) -> Seq<char> {
    match content_type {
        Some(t) => "Some(\""@ + escaped_text(t) + "\")"@,
        None => "None"@,
    }
}

/// The hexadecimal digit `d`, `d < 16`.
fn hex_digit_text(d: u8) -> (s: String)
    requires
        d < 16,
    ensures
        s@ == seq![hex_digit(d as int)],
{
    let digits = "0123456789abcdef";
    proof {
        reveal_strlit("0123456789abcdef");
    }
    let s = substring(digits, d as usize, d as usize + 1);
    assert(s@ =~= seq![hex_digit(d as int)]);
    s
}

/// The bytes as `\x` and their hexadecimal value, one after the other.
fn escape_bytes(bs: &[u8]) -> (s: String)
    ensures
        s@ == hex_escaped(bs@),
{
    let mut s = String::new();
    let mut i: usize = 0;
    assert(bs@.take(0) =~= seq![]);
    while i < bs.len()
        invariant
            i <= bs.len(),
            s@ == hex_escaped(bs@.take(i as int)),
        decreases bs.len() - i,
    {
        let b = bs[i];
        let ghost before = s@;
        proof {
            reveal_strlit("\\x");
            assert(bs@.take(i + 1).drop_last() =~= bs@.take(i as int));
        }
        s.append("\\x");
        if b >= 16 {
            let h = hex_digit_text(b / 16);
            s.append(h.as_str());
        }
        let l = hex_digit_text(b % 16);
        s.append(l.as_str());
        assert(s@ =~= before + "\\x"@ + hex_text(b));
        i = i + 1;
    }
    assert(bs@.take(bs.len() as int) =~= bs@);
    s
}

/// A header value's text, escaped as `escaped_text` describes.
fn escape_header_text(t: &str) -> (s: String)
    ensures
        s@ == escaped_text(t@),
{
    let n = t.unicode_len();
    let mut s = String::new();
    let mut k: usize = 0;
    assert(t@.take(0) =~= seq![]);
    while k < n
        invariant
            n == t@.len(),
            k <= n,
            s@ == escaped_text(t@.take(k as int)),
        decreases n - k,
    {
        let c = t.get_char(k);
        let ghost before = s@;
        proof {
            assert(t@.take(k + 1).drop_last() =~= t@.take(k as int));
            reveal_strlit("\\\"");
        }
        let piece = substring(t, k, k + 1);
        assert(piece@ =~= seq![c]);
        if c == '"' {
            s.append("\\\"");
        } else if (c as u32 >= 32 && (c as u32) < 127) || c == '\t' {
            s.append(piece.as_str());
        } else {
            let e = escape_bytes(piece.as_str().as_bytes());
            s.append(e.as_str());
        }
        assert(s@ =~= before + escaped_char(c));
        k = k + 1;
    }
    assert(t@.take(n as int) =~= t@);
    s
}

/// What to do with the body of an answer, by its hash.
#[derive(Debug, Clone, Copy, PartialEq, Eq, Structural)]
pub enum ResponseDigest {
    /// The body is the one of the previous answer
    Unchanged(u64),
    /// The body is new and is to be read
    Fresh(u64),
}

/// Checks an answer of Buildkite's API before its body is read: it must be JSON, and
/// its body is hashed (xxHash64) so that an answer equal to the previous one, whose
/// hash is `previous`, is not read again.
pub fn digest_response(content_type: Option<&str>, body: &[u8], previous: Option<u64>) -> (r:
    Result<ResponseDigest, BkErr>)
    ensures
        match content_type {
            Some(t) if t@ == json_content_type() => {
                let h = xxhash64(body@);
                r == Ok::<ResponseDigest, BkErr>(
                    if previous == Some(h) {
                        ResponseDigest::Unchanged(h)
                    } else {
                        ResponseDigest::Fresh(h)
                    },
                )
            },
            _ => r matches Err(BkErr::InvalidResponse(m)) && m@ == "invalid content-type: "@
                + shown_content_type(
                match content_type {
                    Some(t) => Some(t@),
                    None => None,
                },
            ),
        },
{
    let is_json = match content_type {
        Some(t) => text_equals(t, "application/json; charset=utf-8"),
        None => false,
    };
    if !is_json {
        let shown = match content_type {
            Some(t) => {
                let e = escape_header_text(t);
                framed("Some(\"", e.as_str(), "\")")
            },
            None => "None".to_owned(),
        };
        proof {
            reveal_strlit("");
        }
        return Err(BkErr::InvalidResponse(framed("invalid content-type: ", shown.as_str(), "")));
    }
    let h = hash_bytes(body);
    if previous == Some(h) {
        Ok(ResponseDigest::Unchanged(h))
    } else {
        Ok(ResponseDigest::Fresh(h))
    }
}

/// The result of a query once its answer was read: the GraphQL errors it holds, if any,
/// or its data with the hash of its body.
pub fn finish_response<T>(data: Option<T>, errors: Option<Vec<String>>, hash: u64) -> (r: Result<
    (Option<T>, Option<u64>),
    BkErr,
>)
    ensures
        match errors {
            Some(es) => r matches Err(BkErr::Request(g)) && g.errors == es,
            None => r == Ok::<(Option<T>, Option<u64>), BkErr>((data, Some(hash))),
        },
{
    match errors {
        Some(es) => Err(BkErr::Request(GraphQLErrors { errors: es })),
        None => Ok((data, Some(hash))),
    }
}

/// The value of the `Authorization` header of every request to Buildkite: `Bearer` and
/// the API token.
pub fn authorization_header(token: &str) -> (r: Result<String, BkErr>)
    ensures
        match r {
            Ok(v) => v@ == crate::headers::bearer_text(token@) && crate::outside::is_header_value(
                v@,
            ),
            Err(e) => !crate::outside::is_header_value(crate::headers::bearer_text(token@))
                && (e matches BkErr::InvalidHttpHeader(m) && m@ == "failed to parse header value"@),
        },
{
    match crate::headers::bearer_value(token) {
        Some(v) => Ok(v),
        None => Err(BkErr::InvalidHttpHeader("failed to parse header value".to_owned())),
    }
}

/// The pipeline a watch is for, as Buildkite describes it.
#[derive(Debug, Clone)]
pub struct PipelineInfo {
    pub name: String,
    pub id: String,
    pub description: Option<String>,
}

/// The pipeline the answer names, or an error naming the identifier that was asked
/// for when the answer holds no pipeline.
pub fn select_pipeline(identifier: &str, pipeline: Option<PipelineInfo>) -> (r: Result<
    PipelineInfo,
    BkErr,
>)
    ensures
        match pipeline {
            Some(p) => r matches Ok(q) && q == p,
            None => r matches Err(BkErr::UnknownPipeline(i)) && i@ == identifier@,
        },
{
    match pipeline {
        Some(p) => Ok(p),
        None => Err(BkErr::UnknownPipeline(identifier.to_owned())),
    }
}

/// The longest wait between two polls of a pipeline, in seconds.
pub open spec fn max_sleep() -> u64 {
    60
}

/// How often polling a pipeline failed in a row, and how long to wait, in seconds,
/// before the next poll.
#[derive(Debug, Clone, Copy)]
pub struct PollBackoff {
    pub failure_count: u32,
    pub sleep: u64,
}

impl PollBackoff {
    /// After `failure_count` failed polls in a row the wait is `2^failure_count`
    /// seconds, but never more than a minute; so it stays between one second and a
    /// minute.
    pub open spec fn wf(self) -> bool {
        &&& 1 <= self.sleep <= max_sleep()
        &&& self.sleep == capped_wait(self.failure_count as nat)
    }

    /// Before the first poll: no failure, a wait of one second.
    pub fn new() -> (b: PollBackoff)
        ensures
            b.wf(),
            b.failure_count == 0,
            b.sleep == 1,
    {
        proof {
            vstd::arithmetic::power2::lemma2_to64();
        }
        PollBackoff { failure_count: 0, sleep: 1 }
    }

    /// A poll succeeded: after failures, the count and the wait start over, and the
    /// number of failures is returned.
    pub fn on_success(&mut self) -> (recovered: Option<u32>)
        requires
            old(self).wf(),
        ensures
            final(self).wf(),
            old(self).failure_count > 0 ==> recovered == Some(old(self).failure_count)
                && final(self).failure_count == 0 && final(self).sleep == 1,
            old(self).failure_count == 0 ==> recovered is None && *final(self) == *old(self),
    {
        proof {
            vstd::arithmetic::power2::lemma2_to64();
        }
        if self.failure_count > 0 {
            let n = self.failure_count;
            self.failure_count = 0;
            self.sleep = 1;
            Some(n)
        } else {
            None
        }
    }

    /// A poll failed: the count grows by one and the wait doubles, up to a minute.
    pub fn on_failure(&mut self)
        requires
            old(self).wf(),
            old(self).failure_count < u32::MAX,
        ensures
            final(self).wf(),
            final(self).failure_count == old(self).failure_count + 1,
            final(self).sleep == wait_after_failure(old(self).sleep as int),
    {
        proof {
            let n = self.failure_count as nat;
            lemma_wait_after_failures(n);
            lemma_wait_after_failures(n + 1);
            assert(wait_after_failures(n + 1) == wait_after_failure(wait_after_failures(n)));
        }
        self.failure_count = self.failure_count + 1;
        self.sleep = self.sleep * 2;
        if self.sleep > 60 {
            self.sleep = 60;
        }
    }

    /// Takes the outcome of a poll: builds to hand over, nothing new, or an error. A
    /// success starts the wait over (`on_success`), a failure lengthens it
    /// (`on_failure`); builds are handed over as the builds of the pipeline.
    pub fn after_poll(&mut self, outcome: Result<Option<Vec<Build>>, BkErr>, pipeline: &str) -> (step:
        PollStep)
        requires
            old(self).wf(),
            outcome is Err ==> old(self).failure_count < u32::MAX,
        ensures
            final(self).wf(),
            match outcome {
                Ok(found) => {
                    &&& final(self).failure_count == 0
                    &&& final(self).sleep == 1
                    &&& match found {
                        Some(bs) => step matches PollStep::Hand { builds, recovered }
                            && builds.builds@ == bs@ && builds.pipeline@ == pipeline@
                            && recovered == (if old(self).failure_count > 0 {
                            Some(old(self).failure_count)
                        } else {
                            None
                        }),
                        None => step matches PollStep::Nothing { recovered } && recovered == (
                        if old(self).failure_count > 0 {
                            Some(old(self).failure_count)
                        } else {
                            None
                        }),
                    }
                },
                Err(e) => {
                    &&& final(self).failure_count == old(self).failure_count + 1
                    &&& final(self).sleep == wait_after_failure(old(self).sleep as int)
                    &&& step == PollStep::Failed(e)
                },
            },
    {
        proof {
            vstd::arithmetic::power2::lemma2_to64();
        }
        match outcome {
            Ok(found) => {
                let recovered = self.on_success();
                match found {
                    Some(builds) => PollStep::Hand {
                        builds: Builds { builds, pipeline: pipeline.to_owned() },
                        recovered,
                    },
                    None => PollStep::Nothing { recovered },
                }
            },
            Err(e) => {
                self.on_failure();
                PollStep::Failed(e)
            },
        }
    }
}

/// What the polling of a pipeline does after a poll.
pub enum PollStep {
    /// Hand the builds over; after failures, how many there were in a row
    Hand { builds: Builds, recovered: Option<u32> },
    /// Nothing changed; after failures, how many there were in a row
    Nothing { recovered: Option<u32> },
    /// The poll failed with this error
    Failed(BkErr),
}

/// `2^n` seconds, but never more than a minute.
pub open spec fn capped_wait(n: nat) -> int {
    if pow2(n) < max_sleep() {
        pow2(n) as int
    } else {
        max_sleep() as int
    }
}

/// `first_greater` is the position after the builds whose UUID is not greater than `u`,
/// when the builds are sorted.
proof fn lemma_first_greater(s: Seq<BuildView>, u: u128)
    ensures
        0 <= first_greater(s, u) <= s.len(),
        forall|k: int| 0 <= k < first_greater(s, u) ==> (#[trigger] s[k]).uuid <= u,
        first_greater(s, u) < s.len() ==> s[first_greater(s, u)].uuid > u,
    decreases s.len(),
{
    if s.len() > 0 && s[0].uuid <= u {
        let rest = s.drop_first();
        lemma_first_greater(rest, u);
        assert forall|k: int| 0 <= k < first_greater(s, u) implies (#[trigger] s[k]).uuid <= u by {
            if k > 0 {
                assert(s[k] == rest[k - 1]);
            }
        }
    }
}

/// Whether builds are in order of their UUIDs.
pub open spec fn sorted_by_uuid(s: Seq<BuildView>) -> bool {
    forall|i: int, j: int| 0 <= i < j < s.len() ==> (#[trigger] s[i]).uuid <= (#[trigger] s[j]).uuid
}

/// Sorting by UUID orders the builds by UUID and keeps exactly the same builds.
#[verifier::spinoff_prover]
#[verifier::rlimit(40)]
pub proof fn lemma_sort_by_uuid(s: Seq<BuildView>)
    ensures
        sorted_by_uuid(sort_by_uuid(s)),
        sort_by_uuid(s).to_multiset() == s.to_multiset(),
        sort_by_uuid(s).len() == s.len(),
    decreases s.len(),
{
    broadcast use vstd::seq_lib::group_seq_properties;

    if s.len() == 0 {
        assert(s.to_multiset() =~= vstd::multiset::Multiset::empty());
        assert(sort_by_uuid(s).to_multiset() =~= vstd::multiset::Multiset::empty());
    } else {
        let init = s.drop_last();
        let x = s.last();
        lemma_sort_by_uuid(init);
        let sorted = sort_by_uuid(init);
        let p = first_greater(sorted, x.uuid);
        lemma_first_greater(sorted, x.uuid);
        let r = sorted.insert(p, x);
        assert(r == sort_by_uuid(s));
        assert(s =~= init.push(x));
        vstd::seq_lib::to_multiset_build(init, x);
        vstd::seq_lib::to_multiset_insert(sorted, p, x);
        assert forall|i: int, j: int| 0 <= i < j < r.len() implies (#[trigger] r[i]).uuid <= (
        #[trigger] r[j]).uuid by {
            if j < p {
                assert(r[i] == sorted[i] && r[j] == sorted[j]);
            } else if j == p {
                assert(r[i] == sorted[i]);
            } else if i < p {
                assert(r[i] == sorted[i] && r[j] == sorted[j - 1]);
            } else if i == p {
                assert(r[j] == sorted[j - 1]);
                assert(sorted[p].uuid > x.uuid);
                if j - 1 > p {
                    assert(sorted[p].uuid <= sorted[j - 1].uuid);
                }
            } else {
                assert(r[i] == sorted[i - 1] && r[j] == sorted[j - 1]);
            }
        }
    }
}

/// Every job of a build's answer belongs to that build.
proof fn lemma_jobs_of_build(raw: Seq<Option<RawJob>>, u: u128)
    ensures
        forall|k: int| 0 <= k < jobs_of(raw, u).len() ==> (#[trigger] jobs_of(raw, u)[k]).build_uuid
            == u,
    decreases raw.len(),
{
    if raw.len() > 0 {
        lemma_jobs_of_build(raw.drop_last(), u);
    }
}

/// Whether a build has jobs and all of them belong to it.
pub open spec fn build_has_own_jobs(b: BuildView) -> bool {
    &&& b.jobs.len() > 0
    &&& forall|k: int| 0 <= k < b.jobs.len() ==> (#[trigger] b.jobs[k]).build_uuid == b.uuid
}

/// Every build of an answer has jobs, all of them its own.
proof fn lemma_builds_of_own_jobs(raw: Seq<Option<RawBuild>>)
    ensures
        forall|i: int| 0 <= i < builds_of(raw).len() ==> build_has_own_jobs(#[trigger] builds_of(raw)[i]),
    decreases raw.len(),
{
    if raw.len() > 0 {
        let rest = builds_of(raw.drop_last());
        lemma_builds_of_own_jobs(raw.drop_last());
        match raw.last() {
            Some(r) => match parsed_uuid(r.uuid@) {
                Some(u) => match r.jobs {
                    Some(js) => lemma_jobs_of_build(js@, u),
                    None => {},
                },
                None => {},
            },
            None => {},
        }
        assert forall|i: int| 0 <= i < builds_of(raw).len() implies build_has_own_jobs(
            #[trigger] builds_of(raw)[i],
        ) by {
            if i < rest.len() {
                assert(builds_of(raw)[i] == rest[i]);
            }
        }
    }
}

/// The builds handed to the jobifier are in order of their UUIDs, are exactly the
/// builds of the answer that have a valid UUID and at least one command job with a
/// valid UUID, and every job handed over belongs to the build it is handed with. No
/// builds are handed over when the answer holds none.
pub proof fn lemma_handed_builds(raw: Seq<Option<RawBuild>>)
    ensures
        match builds_result(Some(raw)) {
            Some(bs) => {
                &&& bs.len() > 0
                &&& sorted_by_uuid(bs)
                &&& bs.to_multiset() == builds_of(raw).to_multiset()
                &&& forall|i: int| 0 <= i < bs.len() ==> build_has_own_jobs(#[trigger] bs[i])
            },
            None => builds_of(raw).len() == 0,
        },
{
    broadcast use vstd::seq_lib::group_seq_properties;

    let bs = builds_of(raw);
    lemma_sort_by_uuid(bs);
    lemma_builds_of_own_jobs(raw);
    let sorted = sort_by_uuid(bs);
    assert forall|i: int| 0 <= i < sorted.len() implies build_has_own_jobs(#[trigger] sorted[i]) by {
        vstd::seq_lib::to_multiset_contains(sorted, sorted[i]);
        vstd::seq_lib::to_multiset_contains(bs, sorted[i]);
        assert(sorted.contains(sorted[i]));
        let k = choose|k: int| 0 <= k < bs.len() && bs[k] == sorted[i];
        assert(build_has_own_jobs(bs[k]));
    }
}

/// The wait after one more failure: doubled, up to a minute.
pub open spec fn wait_after_failure(sleep: int) -> int {
    if sleep * 2 < max_sleep() {
        sleep * 2
    } else {
        max_sleep() as int
    }
}

/// The wait after `n` failures in a row, starting from the first poll's wait.
pub open spec fn wait_after_failures(n: nat) -> int
    decreases n,
{
    if n == 0 {
        1
    } else {
        wait_after_failure(wait_after_failures((n - 1) as nat))
    }
}

/// After `n` failed polls in a row the monitor waits `2^n` seconds, but never more
/// than a minute.
pub proof fn lemma_wait_after_failures(n: nat)
    ensures
        wait_after_failures(n) == capped_wait(n),
    decreases n,
{
    vstd::arithmetic::power2::lemma_pow2_pos(n);
    if n == 0 {
        vstd::arithmetic::power2::lemma2_to64();
    } else {
        lemma_wait_after_failures((n - 1) as nat);
        vstd::arithmetic::power2::lemma_pow2_unfold(n);
        vstd::arithmetic::power2::lemma_pow2_pos((n - 1) as nat);
    }
}

/// The name the API gives a job state (none for `Unknown`).
pub open spec fn job_state_api_name(s: JobStates) -> Seq<char> {
    match s {
        JobStates::Pending => "PENDING"@,
        JobStates::Waiting => "WAITING"@,
        JobStates::WaitingFailed => "WAITING_FAILED"@,
        JobStates::Blocked => "BLOCKED"@,
        JobStates::BlockedFailed => "BLOCKED_FAILED"@,
        JobStates::Unblocked => "UNBLOCKED"@,
        JobStates::UnblockedFailed => "UNBLOCKED_FAILED"@,
        JobStates::Limited => "LIMITED"@,
        JobStates::Scheduled => "SCHEDULED"@,
        JobStates::Assigned => "ASSIGNED"@,
        JobStates::Accepted => "ACCEPTED"@,
        JobStates::Running => "RUNNING"@,
        JobStates::Finished => "FINISHED"@,
        JobStates::Canceling => "CANCELING"@,
        JobStates::Canceled => "CANCELED"@,
        JobStates::TimingOut => "TIMING_OUT"@,
        JobStates::TimedOut => "TIMED_OUT"@,
        JobStates::Skipped => "SKIPPED"@,
        JobStates::Broken => "BROKEN"@,
        JobStates::Unknown => seq![],
    }
}

/// The name the API gives a build state (none for `Unknown`).
pub open spec fn build_state_api_name(s: BuildStates) -> Seq<char> {
    match s {
        BuildStates::Skipped => "SKIPPED"@,
        BuildStates::Scheduled => "SCHEDULED"@,
        BuildStates::Running => "RUNNING"@,
        BuildStates::Passed => "PASSED"@,
        BuildStates::Failed => "FAILED"@,
        BuildStates::Canceling => "CANCELING"@,
        BuildStates::Canceled => "CANCELED"@,
        BuildStates::Blocked => "BLOCKED"@,
        BuildStates::NotRun => "NOT_RUN"@,
        BuildStates::Unknown => seq![],
    }
}

/// A job state name is read as the state of that name, and only that name is: whenever
/// a name is read as a known state, the name is the state's own name, so that, for
/// instance, only `SCHEDULED` is read as `Scheduled`; and every state's own name is read
/// back as that state.
pub proof fn lemma_job_state_names(name: Seq<char>, s: JobStates)
    ensures
        job_state_named(name) != JobStates::Unknown ==> job_state_api_name(job_state_named(name))
            == name,
        s != JobStates::Unknown ==> job_state_named(job_state_api_name(s)) == s,
{
    reveal_strlit("PENDING");
    reveal_strlit("WAITING");
    reveal_strlit("WAITING_FAILED");
    reveal_strlit("BLOCKED");
    reveal_strlit("BLOCKED_FAILED");
    reveal_strlit("UNBLOCKED");
    reveal_strlit("UNBLOCKED_FAILED");
    reveal_strlit("LIMITED");
    reveal_strlit("SCHEDULED");
    reveal_strlit("ASSIGNED");
    reveal_strlit("ACCEPTED");
    reveal_strlit("RUNNING");
    reveal_strlit("FINISHED");
    reveal_strlit("CANCELING");
    reveal_strlit("CANCELED");
    reveal_strlit("TIMING_OUT");
    reveal_strlit("TIMED_OUT");
    reveal_strlit("SKIPPED");
    reveal_strlit("BROKEN");
    match s {
        JobStates::Pending => {

        },
        JobStates::Waiting => {
            assert("PENDING"@[0] != "WAITING"@[0]);
        },
        JobStates::WaitingFailed => {
            assert("PENDING"@.len() != "WAITING_FAILED"@.len());
            assert("WAITING"@.len() != "WAITING_FAILED"@.len());
        },
        JobStates::Blocked => {
            assert("PENDING"@[0] != "BLOCKED"@[0]);
            assert("WAITING"@[0] != "BLOCKED"@[0]);
            assert("WAITING_FAILED"@.len() != "BLOCKED"@.len());
        },
        JobStates::BlockedFailed => {
            assert("PENDING"@.len() != "BLOCKED_FAILED"@.len());
            assert("WAITING"@.len() != "BLOCKED_FAILED"@.len());
            assert("WAITING_FAILED"@[0] != "BLOCKED_FAILED"@[0]);
            assert("BLOCKED"@.len() != "BLOCKED_FAILED"@.len());
        },
        JobStates::Unblocked => {
            assert("PENDING"@.len() != "UNBLOCKED"@.len());
            assert("WAITING"@.len() != "UNBLOCKED"@.len());
            assert("WAITING_FAILED"@.len() != "UNBLOCKED"@.len());
            assert("BLOCKED"@.len() != "UNBLOCKED"@.len());
            assert("BLOCKED_FAILED"@.len() != "UNBLOCKED"@.len());
        },
        JobStates::UnblockedFailed => {
            assert("PENDING"@.len() != "UNBLOCKED_FAILED"@.len());
            assert("WAITING"@.len() != "UNBLOCKED_FAILED"@.len());
            assert("WAITING_FAILED"@.len() != "UNBLOCKED_FAILED"@.len());
            assert("BLOCKED"@.len() != "UNBLOCKED_FAILED"@.len());
            assert("BLOCKED_FAILED"@.len() != "UNBLOCKED_FAILED"@.len());
            assert("UNBLOCKED"@.len() != "UNBLOCKED_FAILED"@.len());
        },
        JobStates::Limited => {
            assert("PENDING"@[0] != "LIMITED"@[0]);
            assert("WAITING"@[0] != "LIMITED"@[0]);
            assert("WAITING_FAILED"@.len() != "LIMITED"@.len());
            assert("BLOCKED"@[0] != "LIMITED"@[0]);
            assert("BLOCKED_FAILED"@.len() != "LIMITED"@.len());
            assert("UNBLOCKED"@.len() != "LIMITED"@.len());
            assert("UNBLOCKED_FAILED"@.len() != "LIMITED"@.len());
        },
        JobStates::Scheduled => {
            assert("PENDING"@.len() != "SCHEDULED"@.len());
            assert("WAITING"@.len() != "SCHEDULED"@.len());
            assert("WAITING_FAILED"@.len() != "SCHEDULED"@.len());
            assert("BLOCKED"@.len() != "SCHEDULED"@.len());
            assert("BLOCKED_FAILED"@.len() != "SCHEDULED"@.len());
            assert("UNBLOCKED"@[0] != "SCHEDULED"@[0]);
            assert("UNBLOCKED_FAILED"@.len() != "SCHEDULED"@.len());
            assert("LIMITED"@.len() != "SCHEDULED"@.len());
        },
        JobStates::Assigned => {
            assert("PENDING"@.len() != "ASSIGNED"@.len());
            assert("WAITING"@.len() != "ASSIGNED"@.len());
            assert("WAITING_FAILED"@.len() != "ASSIGNED"@.len());
            assert("BLOCKED"@.len() != "ASSIGNED"@.len());
            assert("BLOCKED_FAILED"@.len() != "ASSIGNED"@.len());
            assert("UNBLOCKED"@.len() != "ASSIGNED"@.len());
            assert("UNBLOCKED_FAILED"@.len() != "ASSIGNED"@.len());
            assert("LIMITED"@.len() != "ASSIGNED"@.len());
            assert("SCHEDULED"@.len() != "ASSIGNED"@.len());
        },
        JobStates::Accepted => {
            assert("PENDING"@.len() != "ACCEPTED"@.len());
            assert("WAITING"@.len() != "ACCEPTED"@.len());
            assert("WAITING_FAILED"@.len() != "ACCEPTED"@.len());
            assert("BLOCKED"@.len() != "ACCEPTED"@.len());
            assert("BLOCKED_FAILED"@.len() != "ACCEPTED"@.len());
            assert("UNBLOCKED"@.len() != "ACCEPTED"@.len());
            assert("UNBLOCKED_FAILED"@.len() != "ACCEPTED"@.len());
            assert("LIMITED"@.len() != "ACCEPTED"@.len());
            assert("SCHEDULED"@.len() != "ACCEPTED"@.len());
            assert("ASSIGNED"@[1] != "ACCEPTED"@[1]);
        },
        JobStates::Running => {
            assert("PENDING"@[0] != "RUNNING"@[0]);
            assert("WAITING"@[0] != "RUNNING"@[0]);
            assert("WAITING_FAILED"@.len() != "RUNNING"@.len());
            assert("BLOCKED"@[0] != "RUNNING"@[0]);
            assert("BLOCKED_FAILED"@.len() != "RUNNING"@.len());
            assert("UNBLOCKED"@.len() != "RUNNING"@.len());
            assert("UNBLOCKED_FAILED"@.len() != "RUNNING"@.len());
            assert("LIMITED"@[0] != "RUNNING"@[0]);
            assert("SCHEDULED"@.len() != "RUNNING"@.len());
            assert("ASSIGNED"@.len() != "RUNNING"@.len());
            assert("ACCEPTED"@.len() != "RUNNING"@.len());
        },
        JobStates::Finished => {
            assert("PENDING"@.len() != "FINISHED"@.len());
            assert("WAITING"@.len() != "FINISHED"@.len());
            assert("WAITING_FAILED"@.len() != "FINISHED"@.len());
            assert("BLOCKED"@.len() != "FINISHED"@.len());
            assert("BLOCKED_FAILED"@.len() != "FINISHED"@.len());
            assert("UNBLOCKED"@.len() != "FINISHED"@.len());
            assert("UNBLOCKED_FAILED"@.len() != "FINISHED"@.len());
            assert("LIMITED"@.len() != "FINISHED"@.len());
            assert("SCHEDULED"@.len() != "FINISHED"@.len());
            assert("ASSIGNED"@[0] != "FINISHED"@[0]);
            assert("ACCEPTED"@[0] != "FINISHED"@[0]);
            assert("RUNNING"@.len() != "FINISHED"@.len());
        },
        JobStates::Canceling => {
            assert("PENDING"@.len() != "CANCELING"@.len());
            assert("WAITING"@.len() != "CANCELING"@.len());
            assert("WAITING_FAILED"@.len() != "CANCELING"@.len());
            assert("BLOCKED"@.len() != "CANCELING"@.len());
            assert("BLOCKED_FAILED"@.len() != "CANCELING"@.len());
            assert("UNBLOCKED"@[0] != "CANCELING"@[0]);
            assert("UNBLOCKED_FAILED"@.len() != "CANCELING"@.len());
            assert("LIMITED"@.len() != "CANCELING"@.len());
            assert("SCHEDULED"@[0] != "CANCELING"@[0]);
            assert("ASSIGNED"@.len() != "CANCELING"@.len());
            assert("ACCEPTED"@.len() != "CANCELING"@.len());
            assert("RUNNING"@.len() != "CANCELING"@.len());
            assert("FINISHED"@.len() != "CANCELING"@.len());
        },
        JobStates::Canceled => {
            assert("PENDING"@.len() != "CANCELED"@.len());
            assert("WAITING"@.len() != "CANCELED"@.len());
            assert("WAITING_FAILED"@.len() != "CANCELED"@.len());
            assert("BLOCKED"@.len() != "CANCELED"@.len());
            assert("BLOCKED_FAILED"@.len() != "CANCELED"@.len());
            assert("UNBLOCKED"@.len() != "CANCELED"@.len());
            assert("UNBLOCKED_FAILED"@.len() != "CANCELED"@.len());
            assert("LIMITED"@.len() != "CANCELED"@.len());
            assert("SCHEDULED"@.len() != "CANCELED"@.len());
            assert("ASSIGNED"@[0] != "CANCELED"@[0]);
            assert("ACCEPTED"@[0] != "CANCELED"@[0]);
            assert("RUNNING"@.len() != "CANCELED"@.len());
            assert("FINISHED"@[0] != "CANCELED"@[0]);
            assert("CANCELING"@.len() != "CANCELED"@.len());
        },
        JobStates::TimingOut => {
            assert("PENDING"@.len() != "TIMING_OUT"@.len());
            assert("WAITING"@.len() != "TIMING_OUT"@.len());
            assert("WAITING_FAILED"@.len() != "TIMING_OUT"@.len());
            assert("BLOCKED"@.len() != "TIMING_OUT"@.len());
            assert("BLOCKED_FAILED"@.len() != "TIMING_OUT"@.len());
            assert("UNBLOCKED"@.len() != "TIMING_OUT"@.len());
            assert("UNBLOCKED_FAILED"@.len() != "TIMING_OUT"@.len());
            assert("LIMITED"@.len() != "TIMING_OUT"@.len());
            assert("SCHEDULED"@.len() != "TIMING_OUT"@.len());
            assert("ASSIGNED"@.len() != "TIMING_OUT"@.len());
            assert("ACCEPTED"@.len() != "TIMING_OUT"@.len());
            assert("RUNNING"@.len() != "TIMING_OUT"@.len());
            assert("FINISHED"@.len() != "TIMING_OUT"@.len());
            assert("CANCELING"@.len() != "TIMING_OUT"@.len());
            assert("CANCELED"@.len() != "TIMING_OUT"@.len());
        },
        JobStates::TimedOut => {
            assert("PENDING"@.len() != "TIMED_OUT"@.len());
            assert("WAITING"@.len() != "TIMED_OUT"@.len());
            assert("WAITING_FAILED"@.len() != "TIMED_OUT"@.len());
            assert("BLOCKED"@.len() != "TIMED_OUT"@.len());
            assert("BLOCKED_FAILED"@.len() != "TIMED_OUT"@.len());
            assert("UNBLOCKED"@[0] != "TIMED_OUT"@[0]);
            assert("UNBLOCKED_FAILED"@.len() != "TIMED_OUT"@.len());
            assert("LIMITED"@.len() != "TIMED_OUT"@.len());
            assert("SCHEDULED"@[0] != "TIMED_OUT"@[0]);
            assert("ASSIGNED"@.len() != "TIMED_OUT"@.len());
            assert("ACCEPTED"@.len() != "TIMED_OUT"@.len());
            assert("RUNNING"@.len() != "TIMED_OUT"@.len());
            assert("FINISHED"@.len() != "TIMED_OUT"@.len());
            assert("CANCELING"@[0] != "TIMED_OUT"@[0]);
            assert("CANCELED"@.len() != "TIMED_OUT"@.len());
            assert("TIMING_OUT"@.len() != "TIMED_OUT"@.len());
        },
        JobStates::Skipped => {
            assert("PENDING"@[0] != "SKIPPED"@[0]);
            assert("WAITING"@[0] != "SKIPPED"@[0]);
            assert("WAITING_FAILED"@.len() != "SKIPPED"@.len());
            assert("BLOCKED"@[0] != "SKIPPED"@[0]);
            assert("BLOCKED_FAILED"@.len() != "SKIPPED"@.len());
            assert("UNBLOCKED"@.len() != "SKIPPED"@.len());
            assert("UNBLOCKED_FAILED"@.len() != "SKIPPED"@.len());
            assert("LIMITED"@[0] != "SKIPPED"@[0]);
            assert("SCHEDULED"@.len() != "SKIPPED"@.len());
            assert("ASSIGNED"@.len() != "SKIPPED"@.len());
            assert("ACCEPTED"@.len() != "SKIPPED"@.len());
            assert("RUNNING"@[0] != "SKIPPED"@[0]);
            assert("FINISHED"@.len() != "SKIPPED"@.len());
            assert("CANCELING"@.len() != "SKIPPED"@.len());
            assert("CANCELED"@.len() != "SKIPPED"@.len());
            assert("TIMING_OUT"@.len() != "SKIPPED"@.len());
            assert("TIMED_OUT"@.len() != "SKIPPED"@.len());
        },
        JobStates::Broken => {
            assert("PENDING"@.len() != "BROKEN"@.len());
            assert("WAITING"@.len() != "BROKEN"@.len());
            assert("WAITING_FAILED"@.len() != "BROKEN"@.len());
            assert("BLOCKED"@.len() != "BROKEN"@.len());
            assert("BLOCKED_FAILED"@.len() != "BROKEN"@.len());
            assert("UNBLOCKED"@.len() != "BROKEN"@.len());
            assert("UNBLOCKED_FAILED"@.len() != "BROKEN"@.len());
            assert("LIMITED"@.len() != "BROKEN"@.len());
            assert("SCHEDULED"@.len() != "BROKEN"@.len());
            assert("ASSIGNED"@.len() != "BROKEN"@.len());
            assert("ACCEPTED"@.len() != "BROKEN"@.len());
            assert("RUNNING"@.len() != "BROKEN"@.len());
            assert("FINISHED"@.len() != "BROKEN"@.len());
            assert("CANCELING"@.len() != "BROKEN"@.len());
            assert("CANCELED"@.len() != "BROKEN"@.len());
            assert("TIMING_OUT"@.len() != "BROKEN"@.len());
            assert("TIMED_OUT"@.len() != "BROKEN"@.len());
            assert("SKIPPED"@.len() != "BROKEN"@.len());
        },
        JobStates::Unknown => {},
    }
}

/// A build state name is read as the state of that name, and only that name is; and
/// every state's own name is read back as that state.
pub proof fn lemma_build_state_names(name: Seq<char>, s: BuildStates)
    ensures
        build_state_named(name) != BuildStates::Unknown ==> build_state_api_name(
            build_state_named(name),
        ) == name,
        s != BuildStates::Unknown ==> build_state_named(build_state_api_name(s)) == s,
{
    reveal_strlit("SKIPPED");
    reveal_strlit("SCHEDULED");
    reveal_strlit("RUNNING");
    reveal_strlit("PASSED");
    reveal_strlit("FAILED");
    reveal_strlit("CANCELING");
    reveal_strlit("CANCELED");
    reveal_strlit("BLOCKED");
    reveal_strlit("NOT_RUN");
    match s {
        BuildStates::Skipped => {

        },
        BuildStates::Scheduled => {
            assert("SKIPPED"@.len() != "SCHEDULED"@.len());
        },
        BuildStates::Running => {
            assert("SKIPPED"@[0] != "RUNNING"@[0]);
            assert("SCHEDULED"@.len() != "RUNNING"@.len());
        },
        BuildStates::Passed => {
            assert("SKIPPED"@.len() != "PASSED"@.len());
            assert("SCHEDULED"@.len() != "PASSED"@.len());
            assert("RUNNING"@.len() != "PASSED"@.len());
        },
        BuildStates::Failed => {
            assert("SKIPPED"@.len() != "FAILED"@.len());
            assert("SCHEDULED"@.len() != "FAILED"@.len());
            assert("RUNNING"@.len() != "FAILED"@.len());
            assert("PASSED"@[0] != "FAILED"@[0]);
        },
        BuildStates::Canceling => {
            assert("SKIPPED"@.len() != "CANCELING"@.len());
            assert("SCHEDULED"@[0] != "CANCELING"@[0]);
            assert("RUNNING"@.len() != "CANCELING"@.len());
            assert("PASSED"@.len() != "CANCELING"@.len());
            assert("FAILED"@.len() != "CANCELING"@.len());
        },
        BuildStates::Canceled => {
            assert("SKIPPED"@.len() != "CANCELED"@.len());
            assert("SCHEDULED"@.len() != "CANCELED"@.len());
            assert("RUNNING"@.len() != "CANCELED"@.len());
            assert("PASSED"@.len() != "CANCELED"@.len());
            assert("FAILED"@.len() != "CANCELED"@.len());
            assert("CANCELING"@.len() != "CANCELED"@.len());
        },
        BuildStates::Blocked => {
            assert("SKIPPED"@[0] != "BLOCKED"@[0]);
            assert("SCHEDULED"@.len() != "BLOCKED"@.len());
            assert("RUNNING"@[0] != "BLOCKED"@[0]);
            assert("PASSED"@.len() != "BLOCKED"@.len());
            assert("FAILED"@.len() != "BLOCKED"@.len());
            assert("CANCELING"@.len() != "BLOCKED"@.len());
            assert("CANCELED"@.len() != "BLOCKED"@.len());
        },
        BuildStates::NotRun => {
            assert("SKIPPED"@[0] != "NOT_RUN"@[0]);
            assert("SCHEDULED"@.len() != "NOT_RUN"@.len());
            assert("RUNNING"@[0] != "NOT_RUN"@[0]);
            assert("PASSED"@.len() != "NOT_RUN"@.len());
            assert("FAILED"@.len() != "NOT_RUN"@.len());
            assert("CANCELING"@.len() != "NOT_RUN"@.len());
            assert("CANCELED"@.len() != "NOT_RUN"@.len());
            assert("BLOCKED"@[0] != "NOT_RUN"@[0]);
        },
        BuildStates::Unknown => {},
    }
}

} // verus!
