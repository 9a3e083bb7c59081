//! What the jobifier decides: which agent configuration runs a Buildkite job,
//! how the Kubernetes job description for it is prepared, which Kubernetes jobs
//! are cleaned up, and the bookkeeping between the builds it is handed.
use crate::monitor::{
    parse_query_rule, parse_query_rules, query_rules_of, rules_view, Build, Builds, Job,
    JobStates, QueryRuleView,
};
use crate::text::{
    key_index, keys_sorted, lemma_index_of_char_is, lemma_split_on_joined,
    lemma_split_on_whole, lemma_upsert_value, opt_text, pair_value, pairs_view, split_on,
    texts_view, upsert, upsert_pair, value_of, PairView,
};
use crate::outside::{
    cache_capacity, cache_expires, cached_configs, config_cache_contains, config_cache_get,
    archive_listing, config_cache_insert, new_config_cache, parsed_job_spec, paths_equal, read_archive,
    same_path,
};
use vstd::prelude::*;
use vstd::string::*;

verus! {

/// The agent tags text, `key=value` pairs joined by commas.
pub open spec fn tags_text(tags: Seq<PairView>) -> Seq<char>
    decreases tags.len(),
{
    if tags.len() == 0 {
        seq![]
    } else if tags.len() == 1 {
        tags[0].0 + seq!['='] + tags[0].1
    } else {
        tags_text(tags.drop_last()) + seq![','] + tags.last().0 + seq!['='] + tags.last().1
    }
}

/// A tag whose text reads back as the same rule: its key holds neither `,` nor `=`,
/// and its value holds no `,` and is neither empty nor `*`.
pub open spec fn plain_tag(p: PairView) -> bool {
    &&& !p.0.contains(',')
    &&& !p.0.contains('=')
    &&& !p.1.contains(',')
    &&& p.1.len() > 0
    &&& p.1 != seq!['*']
}

/// Tags as query rules: each key must have its value.
pub open spec fn tags_as_rules(tags: Seq<PairView>) -> Seq<QueryRuleView> {
    tags.map_values(|p: PairView| (p.0, Some(p.1)))
}

/// Reading an agent's tag text as query rules gives back its tags, each key with its
/// value, in order, when every tag is plain.
pub proof fn lemma_tags_text_read_back(tags: Seq<PairView>)
    requires
        tags.len() > 0,
        forall|i: int| 0 <= i < tags.len() ==> plain_tag(#[trigger] tags[i]),
    ensures
        query_rules_of(tags_text(tags)) == tags_as_rules(tags),
    decreases tags.len(),
{
    let (k, v) = tags.last();
    assert(plain_tag(tags[tags.len() - 1]));
    let piece = k + seq!['='] + v;
    assert(!piece.contains(',')) by {
        if piece.contains(',') {
            let j = choose|j: int| 0 <= j < piece.len() && piece[j] == ',';
            if j < k.len() {
                assert(k[j] == ',');
            } else if j > k.len() {
                assert(v[j - k.len() - 1] == ',');
            }
        }
    }
    lemma_split_on_whole(piece, ',');
    assert forall|j: int| 0 <= j < k.len() implies piece[j] != '=' by {
        assert(piece[j] == k[j]);
    }
    lemma_index_of_char_is(piece, '=', k.len() as int);
    assert(piece.take(k.len() as int) =~= k);
    assert(piece.skip(k.len() as int + 1) =~= v);
    assert(parse_query_rule(piece) == Some::<QueryRuleView>((k, Some(v))));
    if tags.len() == 1 {
        assert(tags_text(tags) =~= piece);
        assert(seq![piece].drop_last() =~= seq![]);
        assert(seq![piece].last() == piece);
        assert(parse_query_rules(seq![piece].drop_last()) =~= Seq::<QueryRuleView>::empty());
        assert(parse_query_rules(seq![piece]) =~= seq![(k, Some(v))]);
        assert(tags_as_rules(tags) =~= seq![(k, Some(v))]);
    } else {
        let front = tags.drop_last();
        assert forall|i: int| 0 <= i < front.len() implies plain_tag(#[trigger] front[i]) by {
            assert(front[i] == tags[i]);
        }
        lemma_tags_text_read_back(front);
        let head = tags_text(front);
        assert(tags_text(tags) =~= head + seq![','] + piece);
        lemma_split_on_joined(head, piece, ',');
        let pieces = split_on(head, ',') + seq![piece];
        assert(split_on(tags_text(tags), ',') == pieces);
        assert(pieces.drop_last() =~= split_on(head, ','));
        assert(pieces.last() == piece);
        assert(parse_query_rules(pieces) == parse_query_rules(split_on(head, ',')).push((k, Some(v))));
        assert(tags_as_rules(tags) =~= tags_as_rules(front).push((k, Some(v))));
    }
}

/// An agent that jobs can be assigned to, as the jobify configuration describes it.
#[derive(Debug, Clone)]
pub struct Agent {
    /// The name of the agent
    pub name: String,
    /// The path, inside the configuration archive, of its Kubernetes job description
    pub kubernetes: Option<String>,
    /// The cluster the agent belongs to
    pub cluster: Option<String>,
    /// The agent's tags, in key order
    pub tags: Vec<(String, String)>,
}

impl Agent {
    /// The agent's tags are a map: in strictly increasing order of their keys.
    pub open spec fn wf(&self) -> bool {
        keys_sorted(pairs_view(self.tags@))
    }

    /// The agent's tags as a single value, in key order, eg
    /// `otherkey=othervalue,somekey=somevalue`. An agent without tags has no such value.
    pub fn tags(&self) -> (s: String)
        requires
            self.wf(),
            self.tags@.len() > 0,
        ensures
            s@ == tags_text(pairs_view(self.tags@)),
    {
        let ghost tv = pairs_view(self.tags@);
        let mut s = String::new();
        let mut i: usize = 0;
        while i < self.tags.len()
            invariant
                tv == pairs_view(self.tags@),
                i <= self.tags.len(),
                s@ == tags_text(tv.take(i as int)),
            decreases self.tags.len() - i,
        {
            let ghost before = s@;
            if i > 0 {
                s.append(",");
            }
            s.append(self.tags[i].0.as_str());
            s.append("=");
            s.append(self.tags[i].1.as_str());
            proof {
                reveal_strlit("=");
                reveal_strlit(",");
                assert("="@ =~= seq!['=']);
                assert(","@ =~= seq![',']);
                let t = tv.take(i + 1);
                assert(t.drop_last() =~= tv.take(i as int));
                assert(t.last() == tv[i as int]);
                if i == 0 {
                    assert(s@ =~= t[0].0 + seq!['='] + t[0].1);
                } else {
                    assert(s@ =~= before + seq![','] + t.last().0 + seq!['='] + t.last().1);
                }
            }
            i = i + 1;
        }
        assert(tv.take(self.tags.len() as int) =~= tv);
        s
    }
}

/// Whether an agent's tags satisfy one query rule: the tag is present and, when the
/// rule names a value, has that value.
pub open spec fn rule_matches(rule: QueryRuleView, tags: Seq<PairView>) -> bool {
    match value_of(tags, rule.0) {
        None => false,
        Some(av) => match rule.1 {
            None => true,
            Some(v) => av == v,
        },
    }
}

/// Whether an agent's tags satisfy every query rule.
pub open spec fn rules_satisfied(rules: Seq<QueryRuleView>, tags: Seq<PairView>) -> bool {
    forall|i: int| 0 <= i < rules.len() ==> rule_matches(#[trigger] rules[i], tags)
}

/// How well an agent's tags suit a job's rules: the number of rules when all of them
/// are satisfied, and 0 when any is not.
pub open spec fn agent_score(rules: Seq<QueryRuleView>, tags: Seq<PairView>) -> nat {
    if rules_satisfied(rules, tags) {
        rules.len()
    } else {
        0
    }
}

/// Scores an agent's tags against a job's rules.
fn score(rules: &Vec<(String, Option<String>)>, tags: &Vec<(String, String)>) -> (s: usize)
    ensures
        s == agent_score(rules_view(rules@), pairs_view(tags@)),
{
    let ghost rv = rules_view(rules@);
    let ghost tv = pairs_view(tags@);
    let mut i: usize = 0;
    while i < rules.len()
        invariant
            rv == rules_view(rules@),
            tv == pairs_view(tags@),
            i <= rules.len(),
            forall|j: int| 0 <= j < i ==> rule_matches(#[trigger] rv[j], tv),
        decreases rules.len() - i,
    {
        let rule = &rules[i];
        assert(rv[i as int] == crate::monitor::rule_view(*rule));
        match pair_value(tags, rule.0.as_str()) {
            Some(av) => match &rule.1 {
                Some(v) => {
                    if !crate::text::text_equals(av.as_str(), v.as_str()) {
                        return 0;
                    }
                },
                None => {},
            },
            None => {
                return 0;
            },
        }
        i = i + 1;
    }
    rules.len()
}

/// The agents chosen so far when walking `agents` in order: the index of the first
/// agent with the highest positive score, and that score.
pub open spec fn best_agent(rules: Seq<QueryRuleView>, agents: Seq<Seq<PairView>>) -> (
    Option<int>,
    nat,
)
    decreases agents.len(),
{
    if agents.len() == 0 {
        (None, 0)
    } else {
        let (b, s) = best_agent(rules, agents.drop_last());
        let sc = agent_score(rules, agents.last());
        if sc > s {
            (Some(agents.len() - 1), sc)
        } else {
            (b, s)
        }
    }
}

/// The agent chosen for a job is the first agent whose tags satisfy every one of
/// the job's query rules (all such agents score the same), and there is none when the
/// job has no rules or no agent satisfies them all.
pub proof fn lemma_best_agent_is_first_satisfying(
    rules: Seq<QueryRuleView>,
    agents: Seq<Seq<PairView>>,
)
    ensures
        match best_agent(rules, agents).0 {
            Some(i) => {
                &&& 0 <= i < agents.len()
                &&& rules.len() > 0
                &&& rules_satisfied(rules, agents[i])
                &&& forall|j: int| 0 <= j < i ==> !rules_satisfied(rules, #[trigger] agents[j])
            },
            None => rules.len() == 0 || forall|j: int|
                0 <= j < agents.len() ==> !rules_satisfied(rules, #[trigger] agents[j]),
        },
        best_agent(rules, agents).1 == if best_agent(rules, agents).0 is Some {
            rules.len()
        } else {
            0
        },
    decreases agents.len(),
{
    if agents.len() > 0 {
        let init = agents.drop_last();
        lemma_best_agent_is_first_satisfying(rules, init);
        assert forall|j: int| 0 <= j < init.len() implies init[j] == agents[j] by {}
        let last = agents.len() - 1;
        assert(agents.last() == agents[last]);
        match best_agent(rules, init).0 {
            Some(i) => {
                assert(agents[i] == init[i]);
                assert forall|j: int| 0 <= j < i implies !rules_satisfied(rules, #[trigger] agents[j]) by {
                    assert(agents[j] == init[j]);
                }
            },
            None => {
                assert forall|j: int| 0 <= j < last implies !rules_satisfied(rules, #[trigger] agents[j])
                    || rules.len() == 0 by {
                    assert(agents[j] == init[j]);
                }
            },
        }
    }
}

/// The tags of each agent.
pub open spec fn agents_tags(agents: Seq<Agent>) -> Seq<Seq<PairView>> {
    agents.map_values(|a: Agent| pairs_view(a.tags@))
}

/// The description of a Kubernetes job, as far as the jobifier reads and changes it.
#[derive(Debug, Clone)]
pub struct JobTemplate {
    /// The YAML text the description was read from
    pub source: String,
    /// The job's own metadata
    pub metadata: ObjectMeta,
    /// The pod template of the job's spec, when the job has a spec
    pub template: Option<PodTemplate>,
}

/// Name and labels of a Kubernetes object.
#[derive(Debug, Clone)]
pub struct ObjectMeta {
    /// The object's name
    pub name: Option<String>,
    /// The object's labels, by key
    pub labels: Option<Vec<(String, String)>>,
}

/// The pod template of a Kubernetes job.
#[derive(Debug, Clone)]
pub struct PodTemplate {
    /// The template's metadata
    pub metadata: Option<ObjectMeta>,
    /// The containers of the template's pod spec, when it has one
    pub containers: Option<Vec<Container>>,
}

/// A container of a pod template.
#[derive(Debug, Clone)]
pub struct Container {
    /// The container's environment variables, in order
    pub env: Option<Vec<EnvVar>>,
    /// The container's arguments
    pub args: Option<Vec<String>>,
}

/// An environment variable of a container. A variable whose value comes from
/// elsewhere (`valueFrom`) keeps that source; only its literal value is modelled here.
#[derive(Debug, Clone)]
pub struct EnvVar {
    /// The variable's name
    pub name: String,
    /// The variable's literal value
    pub value: Option<String>,
}

/// The agents of a jobify configuration.
#[derive(Debug, Clone)]
pub struct JobifyAgents {
    /// The agents, in the order of the configuration file
    pub agents: Vec<Agent>,
    /// Exit statuses after which a job is retried
    pub automatic_retry: Option<Vec<i32>>,
}

impl JobifyAgents {
    /// Every agent's tags are a map.
    pub open spec fn wf(&self) -> bool {
        forall|i: int| 0 <= i < self.agents@.len() ==> (#[trigger] self.agents@[i]).wf()
    }
}

/// A jobify configuration: its agents and the Kubernetes job descriptions they name.
#[derive(Debug, Clone)]
pub struct Config {
    /// The agents
    pub agents: JobifyAgents,
    /// The job descriptions, by their path in the configuration archive
    pub k8s_specs: Vec<(String, JobTemplate)>,
}

impl Config {
    /// Every agent's tags are a map, and no two descriptions are held under the same
    /// path.
    pub open spec fn wf(&self) -> bool {
        &&& self.agents.wf()
        &&& one_spec_per_path(specs_view(self.k8s_specs@))
    }
}

/// The index of the first description whose path is the same path as `path`.
pub open spec fn spec_index(specs: Seq<(String, JobTemplate)>, path: Seq<char>) -> Option<int>
    decreases specs.len(),
{
    if specs.len() == 0 {
        None
    } else if same_path(specs[0].0@, path) {
        Some(0)
    } else {
        match spec_index(specs.drop_first(), path) {
            Some(i) => Some(i + 1),
            None => None,
        }
    }
}

/// Why no agent can run a job.
#[derive(Debug, Clone)]
pub enum AgentError {
    /// No agent satisfies all the rules of the job
    NoSuitableAgent,
    /// The best agent names no Kubernetes job description
    NoSpec { agent: String },
    /// The best agent names a description that the configuration does not hold
    MissingSpec { agent: String, path: String },
}

/// Finds the index of the description stored under a path.
fn find_spec(specs: &Vec<(String, JobTemplate)>, path: &str) -> (r: Option<usize>)
    ensures
        match r {
            Some(i) => spec_index(specs@, path@) == Some(i as int) && i < specs@.len(),
            None => spec_index(specs@, path@) is None,
        },
{
    let mut i: usize = 0;
    assert(specs@.skip(0) =~= specs@);
    while i < specs.len()
        invariant
            i <= specs.len(),
            spec_index(specs@, path@) == (match spec_index(specs@.skip(i as int), path@) {
                Some(j) => Some(j + i),
                None => None,
            }),
        decreases specs.len() - i,
    {
        assert(specs@.skip(i as int).drop_first() =~= specs@.skip(i + 1));
        assert(specs@.skip(i as int)[0] == specs@[i as int]);
        if paths_equal(specs[i].0.as_str(), path) {
            return Some(i);
        }
        i = i + 1;
    }
    None
}

/// The index of the agent chosen for a job, as `best_agent` describes.
pub open spec fn chosen_agent(cfg: Config, job: Job) -> Option<int> {
    best_agent(query_rules_of(job.query_rules@), agents_tags(cfg.agents.agents@)).0
}

/// The choice of the agent for a job: the indices of the chosen agent and of its job
/// description, or why no agent can run the job.
pub open spec fn agent_choice(cfg: Config, job: Job) -> Result<(int, int), AgentError> {
    let agents = cfg.agents.agents@;
    match chosen_agent(cfg, job) {
        None => Err(AgentError::NoSuitableAgent),
        Some(i) => match agents[i].kubernetes {
            None => Err(AgentError::NoSpec { agent: agents[i].name }),
            Some(p) => match spec_index(cfg.k8s_specs@, p@) {
                None => Err(AgentError::MissingSpec { agent: agents[i].name, path: p }),
                Some(j) => Ok((i, j)),
            },
        },
    }
}

/// The agent chosen, and the description found, are ones of the configuration.
pub open spec fn choice_in_range(cfg: Config, job: Job) -> bool {
    &&& chosen_agent(cfg, job) matches Some(i) ==> 0 <= i < cfg.agents.agents@.len()
    &&& agent_choice(cfg, job) matches Ok((i, j)) ==> 0 <= j < cfg.k8s_specs@.len()
}

/// Finds the indices of the agent chosen for a job and of its job description.
fn choose_agent(cfg: &Config, job: &Job) -> (r: Result<(usize, usize), AgentError>)
    ensures
        choice_in_range(*cfg, *job),
        match agent_choice(*cfg, *job) {
            Ok((i, j)) => r matches Ok((a, b)) && a == i && b == j,
            Err(e) => r == Err::<(usize, usize), AgentError>(e),
        },
{
    let rules = job.iter_query_rules();
    let ghost rv = rules_view(rules@);
    let agents = &cfg.agents.agents;
    let ghost tags = agents_tags(agents@);
    let mut best: Option<usize> = None;
    let mut best_score: usize = 0;
    let mut i: usize = 0;
    while i < agents.len()
        invariant
            rv == query_rules_of(job.query_rules@),
            rv == rules_view(rules@),
            tags == agents_tags(agents@),
            i <= agents.len(),
            best_agent(rv, tags.take(i as int)) == (
                match best {
                    Some(b) => Some(b as int),
                    None => None,
                },
                best_score as nat,
            ),
            match best {
                Some(b) => b < i,
                None => true,
            },
        decreases agents.len() - i,
    {
        let s = score(&rules, &agents[i].tags);
        proof {
            assert(tags.take(i + 1).drop_last() =~= tags.take(i as int));
            assert(tags.take(i + 1).last() == pairs_view(agents@[i as int].tags@));
        }
        if s > best_score {
            best_score = s;
            best = Some(i);
        }
        i = i + 1;
    }
    assert(tags.take(agents.len() as int) =~= tags);
    match best {
        None => Err(AgentError::NoSuitableAgent),
        Some(b) => {
            let agent = &agents[b];
            match &agent.kubernetes {
                None => Err(AgentError::NoSpec { agent: agent.name.clone() }),
                Some(path) => match find_spec(&cfg.k8s_specs, path.as_str()) {
                    None => Err(
                        AgentError::MissingSpec { agent: agent.name.clone(), path: path.clone() },
                    ),
                    Some(j) => Ok((b, j)),
                },
            }
        },
    }
}

/// Chooses the agent for a job: of the agents whose tags satisfy all of the job's query
/// rules, the one satisfying the most rules, the first one among equals. A job with no
/// rules suits no agent. The chosen agent must name a job description that the
/// configuration holds.
pub fn get_best_agent<'a>(cfg: &'a Config, job: &Job) -> (r: Result<
    (&'a Agent, &'a JobTemplate),
    AgentError,
>)
    requires
        cfg.agents.wf(),
    ensures
        r matches Ok((a, _)) ==> a.wf(),
        choice_in_range(*cfg, *job),
        match agent_choice(*cfg, *job) {
            Ok((i, j)) => r matches Ok((a, t)) && *a == cfg.agents.agents@[i] && *t
                == cfg.k8s_specs@[j].1,
            Err(e) => r matches Err(f) && f == e,
        },
{
    match choose_agent(cfg, job) {
        Ok((i, j)) => {
            let a = &cfg.agents.agents[i];
            let t = &cfg.k8s_specs[j].1;
            assert(*a == cfg.agents.agents@[i as int]);
            assert(*t == cfg.k8s_specs@[j as int].1);
            Ok((a, t))
        },
        Err(e) => Err(e),
    }
}

/// Name and labels of a Kubernetes object, as text.
pub struct ObjectMetaView {
    pub name: Option<Seq<char>>,
    pub labels: Option<Seq<PairView>>,
}

/// An environment variable, as text.
pub struct EnvVarView {
    pub name: Seq<char>,
    pub value: Option<Seq<char>>,
}

/// A container, as text.
pub struct ContainerView {
    pub env: Option<Seq<EnvVarView>>,
    pub args: Option<Seq<Seq<char>>>,
}

/// A pod template, as text.
pub struct PodTemplateView {
    pub metadata: Option<ObjectMetaView>,
    pub containers: Option<Seq<ContainerView>>,
}

/// A Kubernetes job description, as text.
pub struct JobTemplateView {
    pub source: Seq<char>,
    pub metadata: ObjectMetaView,
    pub template: Option<PodTemplateView>,
}

impl View for ObjectMeta {
    type V = ObjectMetaView;

    open spec fn view(&self) -> ObjectMetaView {
        ObjectMetaView {
            name: opt_text(self.name),
            labels: match self.labels {
                Some(l) => Some(pairs_view(l@)),
                None => None,
            },
        }
    }
}

impl View for EnvVar {
    type V = EnvVarView;

    open spec fn view(&self) -> EnvVarView {
        EnvVarView { name: self.name@, value: opt_text(self.value) }
    }
}

/// The view of a sequence of environment variables.
pub open spec fn env_view(env: Seq<EnvVar>) -> Seq<EnvVarView> {
    env.map_values(|e: EnvVar| e@)
}

impl View for Container {
    type V = ContainerView;

    open spec fn view(&self) -> ContainerView {
        ContainerView {
            env: match self.env {
                Some(e) => Some(env_view(e@)),
                None => None,
            },
            args: match self.args {
                Some(a) => Some(texts_view(a@)),
                None => None,
            },
        }
    }
}

/// The view of a sequence of containers.
pub open spec fn containers_view(cs: Seq<Container>) -> Seq<ContainerView> {
    cs.map_values(|c: Container| c@)
}

impl View for PodTemplate {
    type V = PodTemplateView;

    open spec fn view(&self) -> PodTemplateView {
        PodTemplateView {
            metadata: match self.metadata {
                Some(m) => Some(m@),
                None => None,
            },
            containers: match self.containers {
                Some(cs) => Some(containers_view(cs@)),
                None => None,
            },
        }
    }
}

impl View for JobTemplate {
    type V = JobTemplateView;

    open spec fn view(&self) -> JobTemplateView {
        JobTemplateView {
            source: self.source@,
            metadata: self.metadata@,
            template: match self.template {
                Some(p) => Some(p@),
                None => None,
            },
        }
    }
}

/// The labels with the jobifier's own labels set: `bk-jobify=true`, `bk-org` and
/// `bk-pipeline`.
pub open spec fn with_jobify_labels(labels: Seq<PairView>, org: Seq<char>, pipeline: Seq<char>) -> Seq<
    PairView,
> {
    upsert(upsert(upsert(labels, "bk-jobify"@, "true"@), "bk-org"@, org), "bk-pipeline"@, pipeline)
}

/// Metadata named `name` and carrying the jobifier's labels.
pub open spec fn labelled_meta(
    m: ObjectMetaView,
    name: Seq<char>,
    org: Seq<char>,
    pipeline: Seq<char>,
) -> ObjectMetaView {
    ObjectMetaView {
        name: Some(name),
        labels: Some(
            with_jobify_labels(
                match m.labels {
                    Some(l) => l,
                    None => seq![],
                },
                org,
                pipeline,
            ),
        ),
    }
}

/// Names the metadata and sets the jobifier's labels on it.
fn label_metadata(m: ObjectMeta, name: &String, org: &str, pipeline: &str) -> (r: ObjectMeta)
    ensures
        r@ == labelled_meta(m@, name@, org@, pipeline@),
{
    let mut labels = match m.labels {
        Some(l) => l,
        None => {
            let l: Vec<(String, String)> = Vec::new();
            assert(pairs_view(l@) =~= seq![]);
            l
        },
    };
    upsert_pair(&mut labels, "bk-jobify".to_owned(), "true".to_owned());
    upsert_pair(&mut labels, "bk-org".to_owned(), org.to_owned());
    upsert_pair(&mut labels, "bk-pipeline".to_owned(), pipeline.to_owned());
    ObjectMeta { name: Some(name.clone()), labels: Some(labels) }
}

/// The index of the first variable named `name`.
pub open spec fn env_index(env: Seq<EnvVarView>, name: Seq<char>) -> Option<int>
    decreases env.len(),
{
    if env.len() == 0 {
        None
    } else if env[0].name == name {
        Some(0)
    } else {
        match env_index(env.drop_first(), name) {
            Some(i) => Some(i + 1),
            None => None,
        }
    }
}

/// The variables with `name` set to `value`: the first variable with that name gets
/// the value, and a variable is added at the end when none has the name.
pub open spec fn set_env(env: Seq<EnvVarView>, name: Seq<char>, value: Seq<char>) -> Seq<
    EnvVarView,
> {
    match env_index(env, name) {
        Some(i) => env.update(i, EnvVarView { name: env[i].name, value: Some(value) }),
        None => env.push(EnvVarView { name: name, value: Some(value) }),
    }
}

/// Sets an environment variable, as `set_env` describes.
fn set_env_var(env: &mut Vec<EnvVar>, name: &str, value: String)
    ensures
        env_view(final(env)@) == set_env(env_view(old(env)@), name@, value@),
{
    let ghost ev = env_view(env@);
    let mut i: usize = 0;
    assert(ev.skip(0) =~= ev);
    while i < env.len()
        invariant
            ev == env_view(env@),
            env@ == old(env)@,
            i <= env.len(),
            env_index(ev, name@) == (match env_index(ev.skip(i as int), name@) {
                Some(j) => Some(j + i),
                None => None,
            }),
        decreases env.len() - i,
    {
        assert(ev.skip(i as int).drop_first() =~= ev.skip(i + 1));
        assert(ev.skip(i as int)[0] == ev[i as int]);
        if crate::text::text_equals(env[i].name.as_str(), name) {
            assert(ev[i as int].name == name@);
            assert(env_index(ev.skip(i as int), name@) == Some(0int));
            let var_name = env[i].name.clone();
            env.set(i, EnvVar { name: var_name, value: Some(value) });
            assert(env_view(env@) =~= ev.update(
                i as int,
                EnvVarView { name: ev[i as int].name, value: Some(value@) },
            ));
            return;
        }
        i = i + 1;
    }
    env.push(EnvVar { name: name.to_owned(), value: Some(value) });
    assert(env_view(env@) =~= ev.push(EnvVarView { name: name@, value: Some(value@) }));
}

/// The only container of a job's pod, set up to run as the agent for one job: its
/// `BUILDKITE_AGENT_TAGS` and `BUILDKITE_AGENT_NAME` variables hold the agent's tags and
/// name, and its arguments (`start --disconnect-after-job` when it has none) end with
/// `--acquire-job` and the job's id.
pub open spec fn prepared_container(
    c: ContainerView,
    tags: Seq<char>,
    agent_name: Seq<char>,
    job_id: Seq<char>,
) -> ContainerView {
    let env = match c.env {
        Some(e) => e,
        None => seq![],
    };
    let args = match c.args {
        Some(a) => a,
        None => seq!["start"@, "--disconnect-after-job"@],
    };
    ContainerView {
        env: Some(
            set_env(set_env(env, "BUILDKITE_AGENT_TAGS"@, tags), "BUILDKITE_AGENT_NAME"@, agent_name),
        ),
        args: Some(args.push("--acquire-job"@).push(job_id)),
    }
}

/// Whether a job description has exactly one container, which is the case in which
/// the agent's tags are written into it.
pub open spec fn has_single_container(t: JobTemplateView) -> bool {
    match t.template {
        Some(p) => match p.containers {
            Some(cs) => cs.len() == 1,
            None => false,
        },
        None => false,
    }
}

/// The pod template named and labelled for the agent, with its container set up when it
/// has exactly one; a template with more containers keeps them unchanged.
pub open spec fn prepared_pod(
    p: PodTemplateView,
    tags: Seq<char>,
    agent_name: Seq<char>,
    job_id: Seq<char>,
    org: Seq<char>,
    pipeline: Seq<char>,
) -> PodTemplateView {
    PodTemplateView {
        metadata: Some(
            labelled_meta(
                match p.metadata {
                    Some(m) => m,
                    None => ObjectMetaView { name: None, labels: None },
                },
                agent_name,
                org,
                pipeline,
            ),
        ),
        containers: match p.containers {
            Some(cs) => if cs.len() == 1 {
                Some(seq![prepared_container(cs[0], tags, agent_name, job_id)])
            } else {
                Some(cs)
            },
            None => None,
        },
    }
}

/// The name of the Kubernetes job, and of the agent, that runs a Buildkite job:
/// the agent's name, `-`, and the job's UUID.
pub open spec fn agent_job_name(agent: Seq<char>, job_uuid: u128) -> Seq<char> {
    agent + "-"@ + crate::outside::uuid_text(job_uuid)
}

/// A job description prepared to run one Buildkite job on an agent.
pub open spec fn prepared_job(
    t: JobTemplateView,
    tags: Seq<char>,
    agent_name: Seq<char>,
    job_uuid: u128,
    org: Seq<char>,
    pipeline: Seq<char>,
) -> JobTemplateView {
    let job_id = crate::outside::uuid_text(job_uuid);
    JobTemplateView {
        source: t.source,
        metadata: labelled_meta(t.metadata, agent_name, org, pipeline),
        template: match t.template {
            Some(p) => Some(prepared_pod(p, tags, agent_name, job_id, org, pipeline)),
            None => None,
        },
    }
}

/// The value of the first variable named `name`, if any.
pub open spec fn env_value(env: Seq<EnvVarView>, name: Seq<char>) -> Option<Seq<char>> {
    match env_index(env, name) {
        Some(i) => env[i].value,
        None => None,
    }
}

/// `env_index` finds the first variable with the name.
proof fn lemma_env_index(env: Seq<EnvVarView>, n: Seq<char>)
    ensures
        match env_index(env, n) {
            Some(i) => 0 <= i < env.len() && env[i].name == n && forall|j: int|
                0 <= j < i ==> (#[trigger] env[j]).name != n,
            None => forall|j: int| 0 <= j < env.len() ==> (#[trigger] env[j]).name != n,
        },
    decreases env.len(),
{
    if env.len() > 0 && env[0].name != n {
        let rest = env.drop_first();
        lemma_env_index(rest, n);
        assert forall|j: int| 0 < j < env.len() implies env[j] == rest[j - 1] by {}
    }
}

/// The first variable named `n` is at `i`, or there is none.
proof fn lemma_env_index_is(env: Seq<EnvVarView>, n: Seq<char>, i: Option<int>)
    requires
        match i {
            Some(i) => 0 <= i < env.len() && env[i].name == n && forall|j: int|
                0 <= j < i ==> (#[trigger] env[j]).name != n,
            None => forall|j: int| 0 <= j < env.len() ==> (#[trigger] env[j]).name != n,
        },
    ensures
        env_index(env, n) == i,
    decreases env.len(),
{
    if env.len() > 0 && env[0].name != n {
        let rest = env.drop_first();
        assert forall|j: int| 0 <= j < rest.len() implies rest[j] == env[j + 1] by {}
        let i2 = match i {
            Some(i) => Some(i - 1),
            None => None,
        };
        lemma_env_index_is(rest, n, i2);
    }
}

/// After setting a variable, it has the new value and every other variable keeps its value.
proof fn lemma_set_env_value(env: Seq<EnvVarView>, n: Seq<char>, v: Seq<char>, n2: Seq<char>)
    ensures
        env_value(set_env(env, n, v), n2) == if n2 == n {
            Some(v)
        } else {
            env_value(env, n2)
        },
{
    let u = set_env(env, n, v);
    lemma_env_index(env, n);
    lemma_env_index(env, n2);
    assert(u.len() >= env.len());
    assert forall|j: int| 0 <= j < env.len() implies (#[trigger] u[j]).name == env[j].name by {}
    if n2 == n {
        match env_index(env, n) {
            Some(i) => lemma_env_index_is(u, n2, Some(i)),
            None => lemma_env_index_is(u, n2, Some(env.len() as int)),
        }
    } else {
        match env_index(env, n2) {
            Some(i2) => {
                lemma_env_index_is(u, n2, Some(i2));
                assert(u[i2] == env[i2]) by {
                    match env_index(env, n) {
                        Some(i) => assert(i != i2),
                        None => {},
                    }
                }
            },
            None => {
                assert forall|j: int| 0 <= j < u.len() implies (#[trigger] u[j]).name != n2 by {
                    if j < env.len() {
                        assert(u[j].name == env[j].name);
                    }
                }
                lemma_env_index_is(u, n2, None);
            },
        }
    }
}

/// Whether labels carry the jobifier's labels for a pipeline.
pub open spec fn jobify_labelled(labels: Seq<PairView>, org: Seq<char>, pipeline: Seq<char>) -> bool {
    &&& value_of(labels, "bk-jobify"@) == Some("true"@)
    &&& value_of(labels, "bk-org"@) == Some(org)
    &&& value_of(labels, "bk-pipeline"@) == Some(pipeline)
}

/// The jobifier's labels, once set, hold their values.
proof fn lemma_with_jobify_labels(labels: Seq<PairView>, org: Seq<char>, pipeline: Seq<char>)
    ensures
        jobify_labelled(with_jobify_labels(labels, org, pipeline), org, pipeline),
{
    reveal_strlit("bk-jobify");
    reveal_strlit("bk-org");
    reveal_strlit("bk-pipeline");
    let a = upsert(labels, "bk-jobify"@, "true"@);
    let b = upsert(a, "bk-org"@, org);
    let c = upsert(b, "bk-pipeline"@, pipeline);
    assert("bk-jobify"@ != "bk-org"@) by {
        assert("bk-jobify"@.len() != "bk-org"@.len());
    }
    assert("bk-jobify"@ != "bk-pipeline"@) by {
        assert("bk-jobify"@[3] != "bk-pipeline"@[3]);
    }
    assert("bk-org"@ != "bk-pipeline"@) by {
        assert("bk-org"@.len() != "bk-pipeline"@.len());
    }
    lemma_upsert_value(labels, "bk-jobify"@, "true"@, "bk-jobify"@);
    lemma_upsert_value(a, "bk-org"@, org, "bk-jobify"@);
    lemma_upsert_value(a, "bk-org"@, org, "bk-org"@);
    lemma_upsert_value(b, "bk-pipeline"@, pipeline, "bk-jobify"@);
    lemma_upsert_value(b, "bk-pipeline"@, pipeline, "bk-org"@);
    lemma_upsert_value(b, "bk-pipeline"@, pipeline, "bk-pipeline"@);
}

/// The Kubernetes job prepared for a Buildkite job runs that job. The job and its
/// pod template are both named after the agent, carry the labels `bk-jobify=true`,
/// `bk-org` and `bk-pipeline` (those the cleanup selects pods by), and, when the pod
/// has a single container, the container's `BUILDKITE_AGENT_NAME` is that same name,
/// its `BUILDKITE_AGENT_TAGS` the agent's tags, and its last arguments are
/// `--acquire-job` and the job's UUID.
pub proof fn lemma_prepared_job_runs_the_job(
    t: JobTemplateView,
    tags: Seq<char>,
    name: Seq<char>,
    job_uuid: u128,
    org: Seq<char>,
    pipeline: Seq<char>,
)
    ensures
        ({
            let p = prepared_job(t, tags, name, job_uuid, org, pipeline);
            &&& p.metadata.name == Some(name)
            &&& p.metadata.labels matches Some(l) && jobify_labelled(l, org, pipeline)
            &&& t.template is Some ==> {
                &&& p.template matches Some(pod)
                &&& pod.metadata matches Some(m)
                &&& m.name == Some(name)
                &&& m.labels matches Some(l) && jobify_labelled(l, org, pipeline)
            }
            &&& has_single_container(t) ==> {
                &&& p.template matches Some(pod)
                &&& pod.containers matches Some(cs)
                &&& cs.len() == 1
                &&& cs[0].env matches Some(env)
                &&& env_value(env, "BUILDKITE_AGENT_NAME"@) == Some(name)
                &&& env_value(env, "BUILDKITE_AGENT_TAGS"@) == Some(tags)
                &&& cs[0].args matches Some(args)
                &&& args.len() >= 2
                &&& args[args.len() - 2] == "--acquire-job"@
                &&& args[args.len() - 1] == crate::outside::uuid_text(job_uuid)
            }
        }),
{
    lemma_with_jobify_labels(
        match t.metadata.labels {
            Some(l) => l,
            None => seq![],
        },
        org,
        pipeline,
    );
    match t.template {
        Some(pod) => {
            let m = match pod.metadata {
                Some(m) => m,
                None => ObjectMetaView { name: None, labels: None },
            };
            lemma_with_jobify_labels(
                match m.labels {
                    Some(l) => l,
                    None => seq![],
                },
                org,
                pipeline,
            );
            match pod.containers {
                Some(cs) => if cs.len() == 1 {
                    let c = cs[0];
                    let env0 = match c.env {
                        Some(e) => e,
                        None => seq![],
                    };
                    let e1 = set_env(env0, "BUILDKITE_AGENT_TAGS"@, tags);
                    reveal_strlit("BUILDKITE_AGENT_TAGS");
                    reveal_strlit("BUILDKITE_AGENT_NAME");
                    assert("BUILDKITE_AGENT_TAGS"@ != "BUILDKITE_AGENT_NAME"@) by {
                        assert("BUILDKITE_AGENT_TAGS"@[16] != "BUILDKITE_AGENT_NAME"@[16]);
                    }
                    lemma_set_env_value(env0, "BUILDKITE_AGENT_TAGS"@, tags, "BUILDKITE_AGENT_TAGS"@);
                    lemma_set_env_value(e1, "BUILDKITE_AGENT_NAME"@, name, "BUILDKITE_AGENT_NAME"@);
                    lemma_set_env_value(e1, "BUILDKITE_AGENT_NAME"@, name, "BUILDKITE_AGENT_TAGS"@);
                },
                None => {},
            }
        },
        None => {},
    }
}

/// Sets up the only container of a pod.
fn prepare_container(c: Container, agent: &Agent, agent_name: &String, job_id: &String) -> (r:
    Container)
    requires
        agent.wf(),
        agent.tags@.len() > 0,
    ensures
        r@ == prepared_container(c@, tags_text(pairs_view(agent.tags@)), agent_name@, job_id@),
{
    let mut env = match c.env {
        Some(e) => e,
        None => {
            let e: Vec<EnvVar> = Vec::new();
            assert(env_view(e@) =~= seq![]);
            e
        },
    };
    set_env_var(&mut env, "BUILDKITE_AGENT_TAGS", agent.tags());
    set_env_var(&mut env, "BUILDKITE_AGENT_NAME", agent_name.clone());
    let mut args = match c.args {
        Some(a) => a,
        None => {
            let mut a: Vec<String> = Vec::new();
            a.push("start".to_owned());
            a.push("--disconnect-after-job".to_owned());
            assert(texts_view(a@) =~= seq!["start"@, "--disconnect-after-job"@]);
            a
        },
    };
    let ghost before = texts_view(args@);
    args.push("--acquire-job".to_owned());
    args.push(job_id.clone());
    assert(texts_view(args@) =~= before.push("--acquire-job"@).push(job_id@));
    Container { env: Some(env), args: Some(args) }
}

/// Names, labels and sets up the pod template of a job.
fn prepare_pod(
    p: PodTemplate,
    agent: &Agent,
    agent_name: &String,
    job_id: &String,
    org: &str,
    pipeline: &str,
) -> (r: PodTemplate)
    requires
        agent.wf(),
        (p@.containers matches Some(cs) && cs.len() == 1) ==> agent.tags@.len() > 0,
    ensures
        r@ == prepared_pod(
            p@,
            tags_text(pairs_view(agent.tags@)),
            agent_name@,
            job_id@,
            org@,
            pipeline@,
        ),
{
    let m = match p.metadata {
        Some(m) => m,
        None => ObjectMeta { name: None, labels: None },
    };
    let metadata = label_metadata(m, agent_name, org, pipeline);
    let containers = match p.containers {
        Some(mut cs) => {
            if cs.len() == 1 {
                let c = cs.pop().unwrap();
                let c = prepare_container(c, agent, agent_name, job_id);
                let mut out: Vec<Container> = Vec::new();
                out.push(c);
                assert(containers_view(out@) =~= seq![c@]);
                Some(out)
            } else {
                Some(cs)
            }
        },
        None => None,
    };
    PodTemplate { metadata: Some(metadata), containers }
}

/// Prepares the Kubernetes job that runs a Buildkite job on an agent: the job and its
/// pod template are named after the agent and the Buildkite job and carry the
/// jobifier's labels, and a pod with a single container is set up to acquire the job.
/// Returns the name given to the Kubernetes job with the prepared description.
pub fn prepare_job(
    template: JobTemplate,
    agent: &Agent,
    job_uuid: u128,
    org: &str,
    pipeline: &str,
) -> (r: (String, JobTemplate))
    requires
        agent.wf(),
        has_single_container(template@) ==> agent.tags@.len() > 0,
    ensures
        r.0@ == agent_job_name(agent.name@, job_uuid),
        r.1@ == prepared_job(
            template@,
            tags_text(pairs_view(agent.tags@)),
            r.0@,
            job_uuid,
            org@,
            pipeline@,
        ),
{
    let job_id = crate::outside::uuid_to_text(job_uuid);
    let mut agent_name = agent.name.clone();
    agent_name.append("-");
    agent_name.append(job_id.as_str());
    let JobTemplate { source, metadata, template: pod } = template;
    let pod = match pod {
        Some(p) => Some(prepare_pod(p, agent, &agent_name, &job_id, org, pipeline)),
        None => None,
    };
    let metadata = label_metadata(metadata, &agent_name, org, pipeline);
    (agent_name, JobTemplate { source, metadata, template: pod })
}

/// The label selector of the pods the jobifier created for a pipeline.
pub open spec fn cleanup_selector(pipeline: Seq<char>) -> Seq<char> {
    "bk-jobify=true,bk-pipeline="@ + pipeline
}

/// The label selector that finds the pods the jobifier created for a pipeline.
pub fn cleanup_label_selector(pipeline: &str) -> (s: String)
    ensures
        s@ == cleanup_selector(pipeline@),
{
    let mut s = "bk-jobify=true,bk-pipeline=".to_owned();
    s.append(pipeline);
    s
}

/// What the cleanup reads of a pod: its `job-name` label and, for each of its
/// container statuses, whether that container has terminated.
#[derive(Debug, Clone)]
pub struct PodInfo {
    /// The value of the pod's `job-name` label
    pub job_name: Option<String>,
    /// For each container status of the pod, whether the container terminated
    pub terminated: Vec<bool>,
}

/// How many of the flags are set.
pub open spec fn count_true(flags: Seq<bool>) -> nat
    decreases flags.len(),
{
    if flags.len() == 0 {
        0
    } else {
        count_true(flags.drop_last()) + if flags.last() {
            1nat
        } else {
            0nat
        }
    }
}

/// The deletions a pod asks for: its job's name once for every terminated container,
/// none when the pod has no `job-name` label.
pub open spec fn pod_deletions(p: PodInfo) -> Seq<Seq<char>> {
    match p.job_name {
        Some(n) => Seq::new(count_true(p.terminated@), |i: int| n@),
        None => seq![],
    }
}

/// The names of the Kubernetes jobs to delete, in the order of the pods.
pub open spec fn cleanup_deletions(pods: Seq<PodInfo>) -> Seq<Seq<char>>
    decreases pods.len(),
{
    if pods.len() == 0 {
        seq![]
    } else {
        cleanup_deletions(pods.drop_last()) + pod_deletions(pods.last())
    }
}

/// The Kubernetes jobs to delete: for every pod, the job named by its `job-name` label,
/// once for each of its containers that terminated.
pub fn jobs_to_delete(pods: &Vec<PodInfo>) -> (names: Vec<String>)
    ensures
        texts_view(names@) == cleanup_deletions(pods@),
{
    let mut names: Vec<String> = Vec::new();
    let mut i: usize = 0;
    assert(pods@.take(0) =~= seq![]);
    assert(texts_view(names@) =~= seq![]);
    while i < pods.len()
        invariant
            i <= pods.len(),
            texts_view(names@) == cleanup_deletions(pods@.take(i as int)),
        decreases pods.len() - i,
    {
        let pod = &pods[i];
        proof {
            assert(pods@.take(i + 1).drop_last() =~= pods@.take(i as int));
            assert(pods@.take(i + 1).last() == *pod);
        }
        match &pod.job_name {
            Some(n) => {
                let ghost start = texts_view(names@);
                let mut k: usize = 0;
                assert(pod.terminated@.take(0) =~= seq![]);
                while k < pod.terminated.len()
                    invariant
                        k <= pod.terminated.len(),
                        texts_view(names@) == start + Seq::new(
                            count_true(pod.terminated@.take(k as int)),
                            |j: int| n@,
                        ),
                    decreases pod.terminated.len() - k,
                {
                    assert(pod.terminated@.take(k + 1).drop_last() =~= pod.terminated@.take(
                        k as int,
                    ));
                    if pod.terminated[k] {
                        let ghost before = texts_view(names@);
                        names.push(n.clone());
                        assert(texts_view(names@) =~= before.push(n@));
                    }
                    k = k + 1;
                    assert(texts_view(names@) =~= start + Seq::new(
                        count_true(pod.terminated@.take(k as int)),
                        |j: int| n@,
                    ));
                }
                assert(pod.terminated@.take(pod.terminated.len() as int) =~= pod.terminated@);
            },
            None => {
                assert(pod_deletions(*pod) =~= seq![]);
            },
        }
        i = i + 1;
    }
    assert(pods@.take(pods.len() as int) =~= pods@);
    names
}

/// The value of a build's metadata key.
pub open spec fn meta_value(b: Build, k: Seq<char>) -> Option<Seq<char>> {
    value_of(pairs_view(b.metadata@), k)
}

/// Whether a build has a job that is scheduled and waiting for an agent.
pub open spec fn has_scheduled_job(b: Build) -> bool {
    exists|i: int| 0 <= i < b.jobs@.len() && (#[trigger] b.jobs@[i]).state == JobStates::Scheduled
}

/// The configuration to fetch for a build, as its checksum and artifact id: a build
/// with the `jobify-artifact-chksum` metadata key and a scheduled job needs the
/// configuration of that checksum, unless it is already cached, and can only be given
/// it when it also names the artifact with `jobify-artifact-id`.
pub open spec fn config_request_for(configs: Map<Seq<char>, Option<Config>>, b: Build) -> Option<
    (Seq<char>, Seq<char>),
> {
    match meta_value(b, "jobify-artifact-chksum"@) {
        None => None,
        Some(c) => if has_scheduled_job(b) && !configs.contains_key(c) {
            match meta_value(b, "jobify-artifact-id"@) {
                Some(a) => Some((c, a)),
                None => None,
            }
        } else {
            None
        },
    }
}

/// What the jobifier does with one job of a build.
#[derive(Debug)]
pub enum JobDecision {
    /// Nothing: the build has no configuration checksum, the job is not scheduled,
    /// or a Kubernetes job was already spawned for it
    Skip,
    /// The job cannot be assigned, as no configuration is known for the build
    NoConfiguration,
    /// No agent of the configuration can run the job
    NoAgent(AgentError),
    /// Spawn a Kubernetes job from the description for the agent
    Spawn { agent: Agent, template: JobTemplate },
}

/// The kind of a decision.
pub enum DecisionKind {
    Skip,
    NoConfiguration,
    NoAgent,
    Spawn,
}

/// The kind of a decision taken.
pub open spec fn kind_of(d: JobDecision) -> DecisionKind {
    match d {
        JobDecision::Skip => DecisionKind::Skip,
        JobDecision::NoConfiguration => DecisionKind::NoConfiguration,
        JobDecision::NoAgent(_) => DecisionKind::NoAgent,
        JobDecision::Spawn { .. } => DecisionKind::Spawn,
    }
}

/// Whether a configuration has a runnable agent for the job: the chosen agent names a
/// job description the configuration holds.
pub open spec fn has_runnable_agent(cfg: Config, job: Job) -> bool {
    agent_choice(cfg, job) is Ok
}

/// The kind of decision taken on a job of a build, given the known jobs and the cached
/// configurations.
pub open spec fn job_decision_kind(
    known: Map<u128, Option<Seq<char>>>,
    configs: Map<Seq<char>, Option<Config>>,
    build: Build,
    job: Job,
) -> DecisionKind {
    match meta_value(build, "jobify-artifact-chksum"@) {
        None => DecisionKind::Skip,
        Some(c) => if job.state != JobStates::Scheduled || known.contains_key(job.uuid) {
            DecisionKind::Skip
        } else if !configs.contains_key(c) || configs[c] is None {
            DecisionKind::NoConfiguration
        } else if has_runnable_agent(configs[c].unwrap(), job) {
            DecisionKind::Spawn
        } else {
            DecisionKind::NoAgent
        },
    }
}

/// Once a Kubernetes job was spawned for a Buildkite job (`record_spawn`), the
/// jobifier skips that job whatever the builds, until the job exits and is retired.
pub proof fn lemma_spawned_job_is_skipped(
    known: Map<u128, Option<Seq<char>>>,
    configs: Map<Seq<char>, Option<Config>>,
    build: Build,
    job: Job,
)
    ensures
        job_decision_kind(known.insert(job.uuid, None), configs, build, job) == DecisionKind::Skip,
{
}

/// The configuration of a checksum is not asked for again while it is cached,
/// whether it could be had or not.
pub proof fn lemma_cached_config_not_refetched(
    configs: Map<Seq<char>, Option<Config>>,
    build: Build,
)
    requires
        meta_value(build, "jobify-artifact-chksum"@) matches Some(c) && configs.contains_key(c),
    ensures
        config_request_for(configs, build) is None,
{
}

/// One (job, agent name) pair for every job of the jobs that was assigned to an agent.
pub open spec fn jobs_agents(jobs: Seq<Job>) -> Seq<(u128, Seq<char>)>
    decreases jobs.len(),
{
    if jobs.len() == 0 {
        seq![]
    } else {
        let rest = jobs_agents(jobs.drop_last());
        match jobs.last().agent {
            Some(a) => rest.push((jobs.last().uuid, a@)),
            None => rest,
        }
    }
}

/// The (job, agent name) pairs of all the builds' jobs, in order.
pub open spec fn builds_agents(builds: Seq<Build>) -> Seq<(u128, Seq<char>)>
    decreases builds.len(),
{
    if builds.len() == 0 {
        seq![]
    } else {
        builds_agents(builds.drop_last()) + jobs_agents(builds.last().jobs@)
    }
}

/// Pairing a job with the agent it was assigned to: when the agent is one the
/// jobifier is waiting for, it is no longer waited for and, if the job is known,
/// the job is recorded as running on it.
pub open spec fn pair_step(
    known: Map<u128, Option<Seq<char>>>,
    pending: Set<Seq<char>>,
    p: (u128, Seq<char>),
) -> (Map<u128, Option<Seq<char>>>, Set<Seq<char>>) {
    if pending.contains(p.1) {
        (
            if known.contains_key(p.0) {
                known.insert(p.0, Some(p.1))
            } else {
                known
            },
            pending.remove(p.1),
        )
    } else {
        (known, pending)
    }
}

/// The known jobs and awaited agents after pairing, in order, every pair.
pub open spec fn paired(
    known: Map<u128, Option<Seq<char>>>,
    pending: Set<Seq<char>>,
    ps: Seq<(u128, Seq<char>)>,
) -> (Map<u128, Option<Seq<char>>>, Set<Seq<char>>)
    decreases ps.len(),
{
    if ps.len() == 0 {
        (known, pending)
    } else {
        let (k, p) = paired(known, pending, ps.drop_last());
        pair_step(k, p, ps.last())
    }
}

/// The UUIDs of the jobs that have an exit status.
pub open spec fn jobs_exited(jobs: Seq<Job>) -> Seq<u128>
    decreases jobs.len(),
{
    if jobs.len() == 0 {
        seq![]
    } else {
        let rest = jobs_exited(jobs.drop_last());
        if jobs.last().exit_status is Some {
            rest.push(jobs.last().uuid)
        } else {
            rest
        }
    }
}

/// The UUIDs of all the builds' jobs that have an exit status, in order.
pub open spec fn builds_exited(builds: Seq<Build>) -> Seq<u128>
    decreases builds.len(),
{
    if builds.len() == 0 {
        seq![]
    } else {
        builds_exited(builds.drop_last()) + jobs_exited(builds.last().jobs@)
    }
}

/// The known jobs after forgetting the exited ones, and how many of those had been
/// running on an agent the jobifier spawned.
pub open spec fn retire(known: Map<u128, Option<Seq<char>>>, ids: Seq<u128>) -> (
    Map<u128, Option<Seq<char>>>,
    nat,
)
    decreases ids.len(),
{
    if ids.len() == 0 {
        (known, 0)
    } else {
        let (k, n) = retire(known, ids.drop_last());
        let id = ids.last();
        (
            k.remove(id),
            n + if k.contains_key(id) && k[id] is Some {
                1nat
            } else {
                0nat
            },
        )
    }
}

/// Every configuration cached, of those that could be had, is well formed.
pub open spec fn configs_wf(configs: Map<Seq<char>, Option<Config>>) -> bool {
    forall|k: Seq<char>| #[trigger]
        configs.contains_key(k) && configs[k] is Some ==> configs[k].unwrap().wf()
}

/// The bookkeeping of the jobifier between the batches of builds it is handed: the
/// jobs it spawned a Kubernetes job for, with the agent each is running on once known;
/// the agents it spawned and still waits to see; and the agent configurations it
/// fetched, by checksum, of which it keeps the ten most recently used.
pub struct JobifyState {
    known_jobs: std::collections::HashMap<u128, Option<String>>,
    pending_agents: Vec<String>,
    configs: lru_time_cache::LruCache<String, Option<Config>>,
}

impl JobifyState {
    /// The jobs a Kubernetes job was spawned for, with the agent each runs on once known.
    pub closed spec fn known(self) -> Map<u128, Option<Seq<char>>> {
        self.known_jobs@.map_values(|v: Option<String>| opt_text(v))
    }

    /// The agents spawned and not yet seen running a job.
    pub closed spec fn pending(self) -> Set<Seq<char>> {
        texts_view(self.pending_agents@).to_set()
    }

    /// The cached agent configurations, by checksum; `None` for one that could not be had.
    pub closed spec fn configs(self) -> Map<Seq<char>, Option<Config>> {
        cached_configs(self.configs)
    }

    /// The state's invariant: the cache keeps at most ten entries, which do not expire,
    /// the configurations it holds are well formed, and no agent is awaited twice.
    pub closed spec fn wf(self) -> bool {
        &&& !cache_expires(self.configs)
        &&& cache_capacity(self.configs) == 10
        &&& texts_view(self.pending_agents@).no_duplicates()
        &&& configs_wf(cached_configs(self.configs))
    }

    /// The state before any build was handed over.
    pub fn new() -> (s: JobifyState)
        ensures
            s.wf(),
            s.known() == Map::<u128, Option<Seq<char>>>::empty(),
            s.pending() == Set::<Seq<char>>::empty(),
            s.configs() == Map::<Seq<char>, Option<Config>>::empty(),
    {
        let s = JobifyState {
            known_jobs: std::collections::HashMap::new(),
            pending_agents: Vec::new(),
            configs: new_config_cache(10),
        };
        assert(s.known() =~= Map::<u128, Option<Seq<char>>>::empty());
        assert(s.pending() =~= Set::<Seq<char>>::empty());
        assert(s.configs() =~= Map::<Seq<char>, Option<Config>>::empty());
        s
    }

    /// The configuration to fetch for a build, as `config_request_for` describes it.
    pub fn config_request(&self, build: &Build) -> (r: Option<(String, String)>)
        requires
            self.wf(),
        ensures
            match r {
                Some((c, a)) => config_request_for(self.configs(), *build) == Some((c@, a@)),
                None => config_request_for(self.configs(), *build) is None,
            },
    {
        let chksum = match pair_value(&build.metadata, "jobify-artifact-chksum") {
            Some(c) => c,
            None => return None,
        };
        let mut scheduled = false;
        let mut i: usize = 0;
        while i < build.jobs.len()
            invariant
                i <= build.jobs.len(),
                scheduled == exists|j: int|
                    0 <= j < i && (#[trigger] build.jobs@[j]).state == JobStates::Scheduled,
            decreases build.jobs.len() - i,
        {
            if build.jobs[i].state == JobStates::Scheduled {
                scheduled = true;
            }
            i = i + 1;
        }
        if !scheduled || config_cache_contains(&self.configs, chksum.as_str()) {
            return None;
        }
        match pair_value(&build.metadata, "jobify-artifact-id") {
            Some(a) => Some((chksum.clone(), a.clone())),
            None => None,
        }
    }

    /// Caches the configuration fetched for a checksum, `None` when it could not be had.
    pub fn record_config(&mut self, chksum: String, config: Option<Config>)
        requires
            old(self).wf(),
            config matches Some(c) ==> c.wf(),
        ensures
            final(self).wf(),
            final(self).known() == old(self).known(),
            final(self).pending() == old(self).pending(),
            final(self).configs().contains_key(chksum@),
            final(self).configs()[chksum@] == config,
            forall|k: Seq<char>| #[trigger]
                final(self).configs().contains_key(k) && k != chksum@ ==> old(
                    self,
                ).configs().contains_key(k) && final(self).configs()[k] == old(self).configs()[k],
            old(self).configs().contains_key(chksum@) || old(self).configs().len() < 10
                ==> final(self).configs() == old(self).configs().insert(chksum@, config),
    {
        config_cache_insert(&mut self.configs, chksum, config);
    }

    /// Decides what to do with a job of a build. A scheduled job of a build that names
    /// its configuration's checksum, and for which no Kubernetes job was spawned yet, is
    /// given the agent that `get_best_agent` chooses in the cached configuration.
    pub fn decide_job(&mut self, build: &Build, job: &Job) -> (d: JobDecision)
        requires
            old(self).wf(),
        ensures
            final(self).wf(),
            final(self).known() == old(self).known(),
            final(self).pending() == old(self).pending(),
            final(self).configs() == old(self).configs(),
            kind_of(d) == job_decision_kind(old(self).known(), old(self).configs(), *build, *job),
            d matches JobDecision::Spawn { agent, .. } ==> agent.wf(),
            match meta_value(*build, "jobify-artifact-chksum"@) {
                None => d is Skip,
                Some(c) => if job.state != JobStates::Scheduled || old(self).known().contains_key(
                    job.uuid,
                ) {
                    d is Skip
                } else if !old(self).configs().contains_key(c) || old(self).configs()[c] is None {
                    d is NoConfiguration
                } else {
                    let cfg = old(self).configs()[c].unwrap();
                    &&& choice_in_range(cfg, *job)
                    &&& match agent_choice(cfg, *job) {
                        Ok((i, j)) => d matches JobDecision::Spawn { agent, template } && agent
                            == cfg.agents.agents@[i] && template == cfg.k8s_specs@[j].1,
                        Err(e) => d == JobDecision::NoAgent(e),
                    }
                }
            },
    {
        broadcast use vstd::std_specs::hash::group_hash_axioms;

        let chksum = match pair_value(&build.metadata, "jobify-artifact-chksum") {
            Some(c) => c,
            None => return JobDecision::Skip,
        };
        if job.state != JobStates::Scheduled {
            return JobDecision::Skip;
        }
        if self.known_jobs.contains_key(&job.uuid) {
            return JobDecision::Skip;
        }
        match config_cache_get(&mut self.configs, chksum.as_str()) {
            Some(Some(mut cfg)) => match choose_agent(&cfg, job) {
                Err(e) => JobDecision::NoAgent(e),
                Ok((i, j)) => {
                    let agent = cfg.agents.agents.remove(i);
                    let (_, template) = cfg.k8s_specs.remove(j);
                    JobDecision::Spawn { agent, template }
                },
            },
            _ => JobDecision::NoConfiguration,
        }
    }

    /// Records that a Kubernetes job, named `agent_name`, was spawned for a job: the
    /// job is known, not yet running on an agent, and the agent is awaited.
    pub fn record_spawn(&mut self, job_uuid: u128, agent_name: String)
        requires
            old(self).wf(),
        ensures
            final(self).wf(),
            final(self).known() == old(self).known().insert(job_uuid, None),
            final(self).pending() == old(self).pending().insert(agent_name@),
            final(self).configs() == old(self).configs(),
    {
        broadcast use vstd::std_specs::hash::group_hash_axioms;

        let ghost before = texts_view(self.pending_agents@);
        self.known_jobs.insert(job_uuid, None);
        assert(self.known() =~= old(self).known().insert(job_uuid, None));
        if !contains_text(&self.pending_agents, agent_name.as_str()) {
            self.pending_agents.push(agent_name);
            proof {
                let after = texts_view(self.pending_agents@);
                assert(after =~= before.push(agent_name@));
                assert(after.to_set() =~= before.to_set().insert(agent_name@)) by {
                    assert forall|x: Seq<char>| after.to_set().contains(x) <==> before.to_set().insert(
                        agent_name@,
                    ).contains(x) by {
                        if x == agent_name@ {
                            assert(after[before.len() as int] == x);
                        }
                        if before.to_set().contains(x) {
                            let i = choose|i: int| 0 <= i < before.len() && before[i] == x;
                            assert(after[i] == x);
                        }
                        if after.to_set().contains(x) {
                            let i = choose|i: int| 0 <= i < after.len() && after[i] == x;
                            if i < before.len() {
                                assert(before[i] == x);
                            }
                        }
                    }
                }
                assert(after.no_duplicates()) by {
                    assert forall|i: int, j: int|
                        0 <= i < after.len() && 0 <= j < after.len() && i != j implies after[i]
                        != after[j] by {
                        if i < before.len() && j < before.len() {
                            assert(before[i] == after[i] && before[j] == after[j]);
                        } else if i < before.len() {
                            assert(before[i] == after[i]);
                        } else if j < before.len() {
                            assert(before[j] == after[j]);
                        }
                    }
                }
            }
        } else {
            assert(before.to_set().insert(agent_name@) =~= before.to_set());
        }
    }
}

/// After retiring the exited jobs, none of them is known any more, and every other
/// job is known as before.
pub proof fn lemma_retired_jobs_forgotten(known: Map<u128, Option<Seq<char>>>, ids: Seq<u128>)
    ensures
        forall|i: int| 0 <= i < ids.len() ==> !retire(known, ids).0.contains_key(#[trigger] ids[i]),
        forall|u: u128|
            !ids.contains(u) ==> (#[trigger] retire(known, ids).0.contains_key(u) == known.contains_key(
                u,
            ) && (known.contains_key(u) ==> retire(known, ids).0[u] == known[u])),
    decreases ids.len(),
{
    if ids.len() > 0 {
        let init = ids.drop_last();
        lemma_retired_jobs_forgotten(known, init);
        assert forall|i: int| 0 <= i < ids.len() implies !retire(known, ids).0.contains_key(
            #[trigger] ids[i],
        ) by {
            if i < ids.len() - 1 {
                assert(ids[i] == init[i]);
            }
        }
        assert forall|u: u128| !ids.contains(u) implies (#[trigger] retire(known, ids).0.contains_key(u)
            == known.contains_key(u) && (known.contains_key(u) ==> retire(known, ids).0[u]
            == known[u])) by {
            if init.contains(u) {
                let k = choose|k: int| 0 <= k < init.len() && init[k] == u;
                assert(ids[k] == u);
            }
            assert(ids[ids.len() - 1] == ids.last());
            assert(u != ids.last());
            assert(retire(known, init).0.contains_key(u) == known.contains_key(u));
        }
    }
}

/// After pairing, no agent seen running a job is still awaited, and no agent is
/// awaited that was not awaited before.
pub proof fn lemma_paired_agents_not_awaited(
    known: Map<u128, Option<Seq<char>>>,
    pending: Set<Seq<char>>,
    ps: Seq<(u128, Seq<char>)>,
)
    ensures
        forall|i: int| 0 <= i < ps.len() ==> !paired(known, pending, ps).1.contains(#[trigger] ps[i].1),
        paired(known, pending, ps).1.subset_of(pending),
    decreases ps.len(),
{
    if ps.len() > 0 {
        let init = ps.drop_last();
        lemma_paired_agents_not_awaited(known, pending, init);
        assert forall|i: int| 0 <= i < ps.len() implies !paired(known, pending, ps).1.contains(
            #[trigger] ps[i].1,
        ) by {
            if i < ps.len() - 1 {
                assert(ps[i] == init[i]);
            }
        }
    }
}

/// Removing the element at `i` from a sequence without duplicates removes that
/// element from its set.
proof fn lemma_remove_unique(s: Seq<Seq<char>>, i: int)
    requires
        s.no_duplicates(),
        0 <= i < s.len(),
    ensures
        s.remove(i).to_set() == s.to_set().remove(s[i]),
        s.remove(i).no_duplicates(),
{
    let r = s.remove(i);
    assert forall|x: Seq<char>| r.to_set().contains(x) <==> s.to_set().remove(s[i]).contains(x) by {
        if r.to_set().contains(x) {
            let k = choose|k: int| 0 <= k < r.len() && r[k] == x;
            if k < i {
                assert(s[k] == x);
            } else {
                assert(s[k + 1] == x);
            }
        }
        if s.to_set().remove(s[i]).contains(x) {
            let k = choose|k: int| 0 <= k < s.len() && s[k] == x;
            assert(k != i);
            if k < i {
                assert(r[k] == x);
            } else {
                assert(r[k - 1] == x);
            }
        }
    }
    assert(r.to_set() =~= s.to_set().remove(s[i]));
    assert forall|a: int, b: int| 0 <= a < r.len() && 0 <= b < r.len() && a != b implies r[a]
        != r[b] by {
        let sa = if a < i { a } else { a + 1 };
        let sb = if b < i { b } else { b + 1 };
        assert(r[a] == s[sa] && r[b] == s[sb]);
    }
}

/// Finds the position of the text `t`.
fn position_of_text(texts: &Vec<String>, t: &str) -> (r: Option<usize>)
    ensures
        match r {
            Some(i) => i < texts@.len() && texts@[i as int]@ == t@,
            None => !texts_view(texts@).contains(t@),
        },
{
    let mut i: usize = 0;
    while i < texts.len()
        invariant
            i <= texts.len(),
            forall|j: int| 0 <= j < i ==> texts@[j]@ != t@,
        decreases texts.len() - i,
    {
        if crate::text::text_equals(texts[i].as_str(), t) {
            return Some(i);
        }
        i = i + 1;
    }
    assert(!texts_view(texts@).contains(t@)) by {
        if texts_view(texts@).contains(t@) {
            let j = choose|j: int| 0 <= j < texts@.len() && texts_view(texts@)[j] == t@;
            assert(texts@[j]@ == t@);
        }
    }
    None
}

impl JobifyState {
    /// One pairing step: the agent of a job, if awaited, is no longer awaited and the
    /// job, if known, is recorded as running on it.
    fn pair_one(&mut self, job_uuid: u128, agent: &String)
        requires
            old(self).wf(),
        ensures
            final(self).wf(),
            final(self).configs() == old(self).configs(),
            (final(self).known(), final(self).pending()) == pair_step(
                old(self).known(),
                old(self).pending(),
                (job_uuid, agent@),
            ),
    {
        broadcast use vstd::std_specs::hash::group_hash_axioms;

        match position_of_text(&self.pending_agents, agent.as_str()) {
            None => {},
            Some(i) => {
                let ghost before = texts_view(self.pending_agents@);
                proof {
                    assert(before[i as int] == agent@);
                    assert(before.to_set().contains(agent@));
                }
                self.pending_agents.remove(i);
                proof {
                    assert(texts_view(self.pending_agents@) =~= before.remove(i as int));
                    lemma_remove_unique(before, i as int);
                }
                if self.known_jobs.contains_key(&job_uuid) {
                    self.known_jobs.insert(job_uuid, Some(agent.clone()));
                    assert(self.known() =~= old(self).known().insert(job_uuid, Some(agent@)));
                }
            },
        }
    }

    /// Pairs the jobs of the builds with the agents they were assigned to: each agent
    /// the jobifier awaited and now sees running a job is no longer awaited and, when
    /// the jobifier spawned a Kubernetes job for that job, the job is recorded as
    /// running on it.
    pub fn pair_agents(&mut self, builds: &Builds)
        requires
            old(self).wf(),
        ensures
            final(self).wf(),
            final(self).configs() == old(self).configs(),
            (final(self).known(), final(self).pending()) == paired(
                old(self).known(),
                old(self).pending(),
                builds_agents(builds.builds@),
            ),
    {
        let ghost k0 = self.known();
        let ghost p0 = self.pending();
        let bs = &builds.builds;
        let mut i: usize = 0;
        assert(bs@.take(0) =~= seq![]);
        while i < bs.len()
            invariant
                self.wf(),
                self.configs() == old(self).configs(),
                k0 == old(self).known(),
                p0 == old(self).pending(),
                i <= bs.len(),
                (self.known(), self.pending()) == paired(k0, p0, builds_agents(bs@.take(i as int))),
            decreases bs.len() - i,
        {
            let jobs = &bs[i].jobs;
            let ghost prefix = builds_agents(bs@.take(i as int));
            let mut k: usize = 0;
            assert(jobs@.take(0) =~= seq![]);
            assert(prefix + jobs_agents(jobs@.take(0)) =~= prefix);
            while k < jobs.len()
                invariant
                    self.wf(),
                    self.configs() == old(self).configs(),
                    k <= jobs.len(),
                    (self.known(), self.pending()) == paired(
                        k0,
                        p0,
                        prefix + jobs_agents(jobs@.take(k as int)),
                    ),
                decreases jobs.len() - k,
            {
                let job = &jobs[k];
                proof {
                    assert(jobs@.take(k + 1).drop_last() =~= jobs@.take(k as int));
                    assert(jobs@.take(k + 1).last() == *job);
                }
                match &job.agent {
                    Some(a) => {
                        let ghost ps = prefix + jobs_agents(jobs@.take(k as int));
                        self.pair_one(job.uuid, a);
                        proof {
                            assert(prefix + jobs_agents(jobs@.take(k + 1)) =~= ps.push(
                                (job.uuid, a@),
                            ));
                            assert(ps.push((job.uuid, a@)).drop_last() =~= ps);
                        }
                    },
                    None => {
                        assert(prefix + jobs_agents(jobs@.take(k + 1)) =~= prefix + jobs_agents(
                            jobs@.take(k as int),
                        ));
                    },
                }
                k = k + 1;
            }
            proof {
                assert(jobs@.take(jobs.len() as int) =~= jobs@);
                assert(bs@.take(i + 1).drop_last() =~= bs@.take(i as int));
                assert(bs@.take(i + 1).last() == bs@[i as int]);
            }
            i = i + 1;
        }
        assert(bs@.take(bs.len() as int) =~= bs@);
    }

    /// Forgets the jobs of the builds that have exited and tells whether any of them had
    /// been running on an agent the jobifier spawned, in which case the exited
    /// Kubernetes jobs should be cleaned up.
    pub fn retire_exited(&mut self, builds: &Builds) -> (needs_cleanup: bool)
        requires
            old(self).wf(),
        ensures
            final(self).wf(),
            final(self).pending() == old(self).pending(),
            final(self).configs() == old(self).configs(),
            final(self).known() == retire(old(self).known(), builds_exited(builds.builds@)).0,
            needs_cleanup == (retire(old(self).known(), builds_exited(builds.builds@)).1 > 0),
    {
        broadcast use vstd::std_specs::hash::group_hash_axioms;

        let ghost k0 = self.known();
        let bs = &builds.builds;
        let mut any = false;
        let mut i: usize = 0;
        assert(bs@.take(0) =~= seq![]);
        while i < bs.len()
            invariant
                self.wf(),
                self.configs() == old(self).configs(),
                self.pending() == old(self).pending(),
                k0 == old(self).known(),
                i <= bs.len(),
                self.known() == retire(k0, builds_exited(bs@.take(i as int))).0,
                any == (retire(k0, builds_exited(bs@.take(i as int))).1 > 0),
            decreases bs.len() - i,
        {
            let jobs = &bs[i].jobs;
            let ghost prefix = builds_exited(bs@.take(i as int));
            let mut k: usize = 0;
            assert(jobs@.take(0) =~= seq![]);
            assert(prefix + jobs_exited(jobs@.take(0)) =~= prefix);
            while k < jobs.len()
                invariant
                    self.wf(),
                    self.configs() == old(self).configs(),
                    self.pending() == old(self).pending(),
                    k <= jobs.len(),
                    self.known() == retire(k0, prefix + jobs_exited(jobs@.take(k as int))).0,
                    any == (retire(k0, prefix + jobs_exited(jobs@.take(k as int))).1 > 0),
                decreases jobs.len() - k,
            {
                let job = &jobs[k];
                proof {
                    assert(jobs@.take(k + 1).drop_last() =~= jobs@.take(k as int));
                    assert(jobs@.take(k + 1).last() == *job);
                }
                if job.exit_status.is_some() {
                    let ghost ids = prefix + jobs_exited(jobs@.take(k as int));
                    let ghost kb = self.known();
                    let removed = self.known_jobs.remove(&job.uuid);
                    match removed {
                        Some(Some(_)) => {
                            any = true;
                        },
                        _ => {},
                    }
                    proof {
                        assert(prefix + jobs_exited(jobs@.take(k + 1)) =~= ids.push(job.uuid));
                        assert(ids.push(job.uuid).drop_last() =~= ids);
                        assert(self.known() =~= kb.remove(job.uuid));
                    }
                } else {
                    assert(prefix + jobs_exited(jobs@.take(k + 1)) =~= prefix + jobs_exited(
                        jobs@.take(k as int),
                    ));
                }
                k = k + 1;
            }
            proof {
                assert(jobs@.take(jobs.len() as int) =~= jobs@);
                assert(bs@.take(i + 1).drop_last() =~= bs@.take(i as int));
                assert(bs@.take(i + 1).last() == bs@[i as int]);
            }
            i = i + 1;
        }
        assert(bs@.take(bs.len() as int) =~= bs@);
        any
    }
}

/// Whether one of the texts equals `t`.
fn contains_text(texts: &Vec<String>, t: &str) -> (r: bool)
    ensures
        r == texts_view(texts@).contains(t@),
{
    let mut i: usize = 0;
    while i < texts.len()
        invariant
            i <= texts.len(),
            forall|j: int| 0 <= j < i ==> texts@[j]@ != t@,
        decreases texts.len() - i,
    {
        if crate::text::text_equals(texts[i].as_str(), t) {
            assert(texts_view(texts@)[i as int] == t@);
            return true;
        }
        i = i + 1;
    }
    assert(!texts_view(texts@).contains(t@)) by {
        if texts_view(texts@).contains(t@) {
            let j = choose|j: int| 0 <= j < texts@.len() && texts_view(texts@)[j] == t@;
            assert(texts@[j]@ == t@);
        }
    }
    false
}

/// Why a jobify configuration could not be assembled.
#[derive(Debug, Clone, PartialEq, Eq)]
pub enum ConfigError {
    /// The artifact's checksum is not the one the build's metadata names
    ChecksumMismatch,
    /// The path of a file in the configuration archive could not be read
    BadArchivePath,
    /// The configuration archive holds no `agents.toml`
    MissingAgents,
    /// The configuration archive's entries could not be listed
    UnreadableArchive,
    /// The file at this path is not a Kubernetes job description
    InvalidJobSpec(String),
}

/// Checks that the artifact's stated checksum is the one the build's metadata names.
pub fn check_checksum(artifact_sha1: &str, chksum: &str) -> (r: Result<(), ConfigError>)
    ensures
        r is Ok <==> artifact_sha1@ == chksum@,
        r is Err ==> r == Err::<(), ConfigError>(ConfigError::ChecksumMismatch),
{
    if crate::text::text_equals(artifact_sha1, chksum) {
        Ok(())
    } else {
        Err(ConfigError::ChecksumMismatch)
    }
}

/// What the configuration assembly reads of an entry of the configuration archive.
#[derive(Debug, Clone)]
pub struct ArchiveEntry {
    /// The entry's path, or `None` when it could not be read
    pub path: Option<String>,
    /// Whether the entry is a regular file
    pub regular: bool,
    /// The entry's contents as text, or `None` when they are not text or were not read
    pub contents: Option<String>,
}

/// An entry of the configuration archive, as text.
pub struct ArchiveEntryView {
    pub path: Option<Seq<char>>,
    pub regular: bool,
    pub contents: Option<Seq<char>>,
}

impl View for ArchiveEntry {
    type V = ArchiveEntryView;

    open spec fn view(&self) -> ArchiveEntryView {
        ArchiveEntryView {
            path: opt_text(self.path),
            regular: self.regular,
            contents: opt_text(self.contents),
        }
    }
}

/// The views of archive entries.
pub open spec fn entries_view(es: Seq<ArchiveEntry>) -> Seq<ArchiveEntryView> {
    es.map_values(|e: ArchiveEntry| e@)
}

/// The index of the first file whose path is the same path as `p`.
pub open spec fn file_index(files: Seq<PairView>, p: Seq<char>) -> Option<int>
    decreases files.len(),
{
    if files.len() == 0 {
        None
    } else if same_path(files[0].0, p) {
        Some(0)
    } else {
        match file_index(files.drop_first(), p) {
            Some(i) => Some(i + 1),
            None => None,
        }
    }
}

/// The files with the file at path `p` holding `c`: a file at the same path gets the
/// new contents, otherwise the file is added.
pub open spec fn put_file(files: Seq<PairView>, p: Seq<char>, c: Seq<char>) -> Seq<PairView> {
    match file_index(files, p) {
        Some(i) => files.update(i, (files[i].0, c)),
        None => files.push((p, c)),
    }
}

/// The contents of the file at path `p`, if any.
pub open spec fn file_contents(files: Seq<PairView>, p: Seq<char>) -> Option<Seq<char>> {
    match file_index(files, p) {
        Some(i) => Some(files[i].1),
        None => None,
    }
}

/// The text files of the configuration archive, by path without a leading `./`; the
/// regular entries that are not text are left out, and `None` when the path of a
/// text entry could not be read.
pub open spec fn archive_files(entries: Seq<ArchiveEntryView>) -> Option<Seq<PairView>>
    decreases entries.len(),
{
    if entries.len() == 0 {
        Some(seq![])
    } else {
        match archive_files(entries.drop_last()) {
            None => None,
            Some(fs) => {
                let e = entries.last();
                if e.regular && e.contents is Some {
                    match e.path {
                        None => None,
                        Some(p) => Some(
                            put_file(fs, crate::outside::curdir_stripped(p), e.contents.unwrap()),
                        ),
                    }
                } else {
                    Some(fs)
                }
            },
        }
    }
}

/// Finds the index of the file at a path.
fn find_file(files: &Vec<(String, String)>, p: &str) -> (r: Option<usize>)
    ensures
        match r {
            Some(i) => file_index(pairs_view(files@), p@) == Some(i as int) && i < files@.len(),
            None => file_index(pairs_view(files@), p@) is None,
        },
{
    let ghost fv = pairs_view(files@);
    let mut i: usize = 0;
    assert(fv.skip(0) =~= fv);
    while i < files.len()
        invariant
            fv == pairs_view(files@),
            i <= files.len(),
            file_index(fv, p@) == (match file_index(fv.skip(i as int), p@) {
                Some(j) => Some(j + i),
                None => None,
            }),
        decreases files.len() - i,
    {
        assert(fv.skip(i as int).drop_first() =~= fv.skip(i + 1));
        assert(fv.skip(i as int)[0] == fv[i as int]);
        if paths_equal(files[i].0.as_str(), p) {
            return Some(i);
        }
        i = i + 1;
    }
    None
}

/// Gathers the text files of the configuration archive by path, a later file at the
/// same path replacing an earlier one; fails when the path of a text file cannot be read.
pub fn collect_archive_files(entries: Vec<ArchiveEntry>) -> (r: Result<
    Vec<(String, String)>,
    ConfigError,
>)
    ensures
        match r {
            Ok(fs) => archive_files(entries_view(entries@)) == Some(pairs_view(fs@)),
            Err(e) => archive_files(entries_view(entries@)) is None && e == ConfigError::BadArchivePath,
        },
{
    let mut files: Vec<(String, String)> = Vec::new();
    let mut i: usize = 0;
    assert(entries_view(entries@).take(0) =~= seq![]);
    assert(pairs_view(files@) =~= seq![]);
    while i < entries.len()
        invariant
            i <= entries.len(),
            archive_files(entries_view(entries@).take(i as int)) == Some(pairs_view(files@)),
        decreases entries.len() - i,
    {
        let e = &entries[i];
        proof {
            let ev = entries_view(entries@);
            assert(ev.take(i + 1).drop_last() =~= ev.take(i as int));
            assert(ev.take(i + 1).last() == e@);
        }
        if e.regular && e.contents.is_some() {
            match &e.path {
                None => {
                    proof {
                        lemma_archive_files_none_stays(entries_view(entries@), i as int + 1);
                    }
                    return Err(ConfigError::BadArchivePath);
                },
                Some(p) => {
                    let path = crate::outside::strip_curdir(p.as_str());
                    let contents = e.contents.as_ref().unwrap().clone();
                    let ghost fv = pairs_view(files@);
                    match find_file(&files, path.as_str()) {
                        Some(k) => {
                            let key = files[k].0.clone();
                            files.set(k, (key, contents));
                            assert(pairs_view(files@) =~= fv.update(k as int, (fv[k as int].0, contents@)));
                        },
                        None => {
                            files.push((path, contents));
                            assert(pairs_view(files@) =~= fv.push((path@, contents@)));
                        },
                    }
                },
            }
        }
        i = i + 1;
    }
    assert(entries_view(entries@).take(entries.len() as int) =~= entries_view(entries@));
    Ok(files)
}

/// Reads the configuration archive, gzip-compressed tar, and gathers its text files by
/// path as `collect_archive_files` does; fails when the archive's entries cannot be
/// listed.
pub fn read_config_archive(bytes: &[u8]) -> (r: Result<Vec<(String, String)>, ConfigError>)
    ensures
        match archive_listing(bytes@) {
            None => r == Err::<Vec<(String, String)>, ConfigError>(ConfigError::UnreadableArchive),
            Some(es) => match archive_files(es) {
                Some(fs) => r matches Ok(v) && pairs_view(v@) == fs,
                None => r == Err::<Vec<(String, String)>, ConfigError>(ConfigError::BadArchivePath),
            },
        },
{
    match read_archive(bytes) {
        Some(entries) => collect_archive_files(entries),
        None => Err(ConfigError::UnreadableArchive),
    }
}

/// Once a prefix of the entries fails, every longer prefix fails.
proof fn lemma_archive_files_none_stays(entries: Seq<ArchiveEntryView>, n: int)
    requires
        0 <= n <= entries.len(),
        archive_files(entries.take(n)) is None,
    ensures
        archive_files(entries) is None,
    decreases entries.len() - n,
{
    if n < entries.len() {
        assert(entries.take(n + 1).drop_last() =~= entries.take(n));
        lemma_archive_files_none_stays(entries, n + 1);
    } else {
        assert(entries.take(n) =~= entries);
    }
}

/// The text of `agents.toml`, which every configuration must hold.
pub fn agents_file(files: &Vec<(String, String)>) -> (r: Result<&String, ConfigError>)
    ensures
        match r {
            Ok(c) => file_contents(pairs_view(files@), "agents.toml"@) == Some(c@),
            Err(e) => file_contents(pairs_view(files@), "agents.toml"@) is None && e
                == ConfigError::MissingAgents,
        },
{
    match find_file(files, "agents.toml") {
        Some(i) => Ok(&files[i].1),
        None => Err(ConfigError::MissingAgents),
    }
}

/// Where the Kubernetes job description of an agent is to be read from.
#[derive(Debug, Clone)]
pub enum SpecSource {
    /// The agent, the description's path and its text
    Found { agent: String, path: String, contents: String },
    /// The agent names a path the archive does not hold
    Missing { agent: String, path: String },
}

/// Whether an agent belongs to the cluster the jobifier serves: both name the same
/// cluster, or neither names one.
pub open spec fn in_cluster(a: Agent, cluster: Option<Seq<char>>) -> bool {
    opt_text(a.cluster) == cluster
}

/// The source an agent's description is read from, for an agent of the cluster that
/// names a description.
pub open spec fn spec_source_of(a: Agent, files: Seq<PairView>) -> (
    Seq<char>,
    Seq<char>,
    Option<Seq<char>>,
) {
    let p = a.kubernetes.unwrap()@;
    (a.name@, p, file_contents(files, p))
}

/// The view of a description source: the agent, the path and, when found, the text.
pub open spec fn source_view(s: SpecSource) -> (Seq<char>, Seq<char>, Option<Seq<char>>) {
    match s {
        SpecSource::Found { agent, path, contents } => (agent@, path@, Some(contents@)),
        SpecSource::Missing { agent, path } => (agent@, path@, None),
    }
}

/// The description sources of the agents of the cluster that name one, in order.
pub open spec fn spec_sources_of(
    agents: Seq<Agent>,
    cluster: Option<Seq<char>>,
    files: Seq<PairView>,
) -> Seq<(Seq<char>, Seq<char>, Option<Seq<char>>)>
    decreases agents.len(),
{
    if agents.len() == 0 {
        seq![]
    } else {
        let rest = spec_sources_of(agents.drop_last(), cluster, files);
        let a = agents.last();
        if in_cluster(a, cluster) && a.kubernetes is Some {
            rest.push(spec_source_of(a, files))
        } else {
            rest
        }
    }
}

/// Finds, for each agent of the cluster that names a Kubernetes job description, that
/// description in the configuration archive.
pub fn spec_sources(agents: &JobifyAgents, cluster: Option<&str>, files: &Vec<(String, String)>) -> (r:
    Vec<SpecSource>)
    ensures
        r@.map_values(|s: SpecSource| source_view(s)) == spec_sources_of(
            agents.agents@,
            match cluster {
                Some(c) => Some(c@),
                None => None,
            },
            pairs_view(files@),
        ),
{
    let ghost cl = match cluster {
        Some(c) => Some(c@),
        None => None::<Seq<char>>,
    };
    let as_ = &agents.agents;
    let mut out: Vec<SpecSource> = Vec::new();
    let mut i: usize = 0;
    assert(as_@.take(0) =~= seq![]);
    assert(out@.map_values(|s: SpecSource| source_view(s)) =~= seq![]);
    while i < as_.len()
        invariant
            i <= as_.len(),
            cl == (match cluster {
                Some(c) => Some(c@),
                None => None::<Seq<char>>,
            }),
            out@.map_values(|s: SpecSource| source_view(s)) == spec_sources_of(
                as_@.take(i as int),
                cl,
                pairs_view(files@),
            ),
        decreases as_.len() - i,
    {
        let a = &as_[i];
        proof {
            assert(as_@.take(i + 1).drop_last() =~= as_@.take(i as int));
            assert(as_@.take(i + 1).last() == *a);
        }
        let same_cluster = match (&a.cluster, cluster) {
            (Some(x), Some(y)) => crate::text::text_equals(x.as_str(), y),
            (None, None) => true,
            _ => false,
        };
        if same_cluster {
            match &a.kubernetes {
                Some(p) => {
                    let ghost before = out@.map_values(|s: SpecSource| source_view(s));
                    let src = match find_file(files, p.as_str()) {
                        Some(k) => SpecSource::Found {
                            agent: a.name.clone(),
                            path: p.clone(),
                            contents: files[k].1.clone(),
                        },
                        None => SpecSource::Missing { agent: a.name.clone(), path: p.clone() },
                    };
                    let ghost sv = source_view(src);
                    out.push(src);
                    assert(out@.map_values(|s: SpecSource| source_view(s)) =~= before.push(sv));
                    assert(sv == spec_source_of(*a, pairs_view(files@)));
                },
                None => {},
            }
        }
        i = i + 1;
    }
    assert(as_@.take(as_.len() as int) =~= as_@);
    out
}

/// Adds a job description under its path; a description already held under the same
/// path is replaced.
pub fn insert_spec(specs: &mut Vec<(String, JobTemplate)>, path: String, t: JobTemplate)
    ensures
        ({
            let old_specs = old(specs)@;
            match spec_index(old_specs, path@) {
                Some(i) => final(specs)@ == old_specs.update(i, (old_specs[i].0, t)),
                None => final(specs)@ == old_specs.push((path, t)),
            }
        }),
        specs_view(final(specs)@) == put_spec(specs_view(old(specs)@), path@, t@),
        one_spec_per_path(specs_view(old(specs)@)) ==> one_spec_per_path(
            specs_view(final(specs)@),
        ),
{
    let ghost before = specs@;
    let ghost tv = t@;
    let ghost p = path@;
    match find_spec(specs, path.as_str()) {
        Some(i) => {
            let key = specs[i].0.clone();
            specs.set(i, (key, t));
        },
        None => {
            specs.push((path, t));
        },
    }
    proof {
        lemma_spec_index_view(before, p);
        lemma_spec_view_index(specs_view(before), p);
        match spec_index(before, p) {
            Some(k) => {
                assert(specs_view(specs@) =~= specs_view(before).update(
                    k,
                    (specs_view(before)[k].0, tv),
                ));
            },
            None => {
                assert(specs_view(specs@) =~= specs_view(before).push((p, tv)));
            },
        }
        if one_spec_per_path(specs_view(before)) {
            lemma_put_spec_unique(specs_view(before), p, tv);
        }
    }
}

/// The job descriptions of a configuration, as text: each path with its description.
pub open spec fn specs_view(specs: Seq<(String, JobTemplate)>) -> Seq<(Seq<char>, JobTemplateView)> {
    specs.map_values(|s: (String, JobTemplate)| (s.0@, s.1@))
}

/// The index of the first description, as text, whose path is the same path as `path`.
pub open spec fn spec_view_index(sv: Seq<(Seq<char>, JobTemplateView)>, path: Seq<char>) -> Option<
    int,
>
    decreases sv.len(),
{
    if sv.len() == 0 {
        None
    } else if same_path(sv[0].0, path) {
        Some(0)
    } else {
        match spec_view_index(sv.drop_first(), path) {
            Some(i) => Some(i + 1),
            None => None,
        }
    }
}

/// The descriptions with `t` held under `path`: one already held under the same path is
/// replaced, otherwise `t` is added at the end.
pub open spec fn put_spec(
    sv: Seq<(Seq<char>, JobTemplateView)>,
    path: Seq<char>,
    t: JobTemplateView,
) -> Seq<(Seq<char>, JobTemplateView)> {
    match spec_view_index(sv, path) {
        Some(i) => sv.update(i, (sv[i].0, t)),
        None => sv.push((path, t)),
    }
}

/// No two descriptions are held under the same path.
pub open spec fn one_spec_per_path(sv: Seq<(Seq<char>, JobTemplateView)>) -> bool {
    forall|i: int, j: int| 0 <= i < j < sv.len() ==> !same_path(#[trigger] sv[i].0, #[trigger] sv[j].0)
}

/// The descriptions read from the sources, in order: the text of each found file
/// parsed and held under its path, missing files skipped; the path of the first found
/// file that is not a job description, when there is one.
pub open spec fn assembled_specs(srcs: Seq<(Seq<char>, Seq<char>, Option<Seq<char>>)>) -> Result<
    Seq<(Seq<char>, JobTemplateView)>,
    Seq<char>,
>
    decreases srcs.len(),
{
    if srcs.len() == 0 {
        Ok(seq![])
    } else {
        match assembled_specs(srcs.drop_last()) {
            Err(p) => Err(p),
            Ok(sv) => {
                let (agent, path, contents) = srcs.last();
                match contents {
                    None => Ok(sv),
                    Some(text) => match parsed_job_spec(text) {
                        None => Err(path),
                        Some(t) => Ok(put_spec(sv, path, t)),
                    },
                }
            },
        }
    }
}

/// `spec_index` finds in the descriptions what `spec_view_index` finds in their text.
proof fn lemma_spec_index_view(specs: Seq<(String, JobTemplate)>, path: Seq<char>)
    ensures
        spec_index(specs, path) == spec_view_index(specs_view(specs), path),
    decreases specs.len(),
{
    if specs.len() > 0 {
        assert(specs_view(specs.drop_first()) =~= specs_view(specs).drop_first());
        lemma_spec_index_view(specs.drop_first(), path);
    }
}

/// Where `spec_view_index` finds a path, that is the path of the description there.
proof fn lemma_spec_view_index(sv: Seq<(Seq<char>, JobTemplateView)>, path: Seq<char>)
    ensures
        match spec_view_index(sv, path) {
            Some(i) => 0 <= i < sv.len() && same_path(sv[i].0, path),
            None => forall|j: int| 0 <= j < sv.len() ==> !same_path(#[trigger] sv[j].0, path),
        },
    decreases sv.len(),
{
    if sv.len() > 0 {
        lemma_spec_view_index(sv.drop_first(), path);
        if !same_path(sv[0].0, path) {
            assert forall|j: int| 0 <= j < sv.len() && spec_view_index(sv, path) is None implies !same_path(
                #[trigger] sv[j].0,
                path,
            ) by {
                if j > 0 {
                    assert(sv[j] == sv.drop_first()[j - 1]);
                }
            }
        }
    }
}

/// Holding a description under a path keeps one description per path.
proof fn lemma_put_spec_unique(sv: Seq<(Seq<char>, JobTemplateView)>, path: Seq<char>, t: JobTemplateView)
    requires
        one_spec_per_path(sv),
    ensures
        one_spec_per_path(put_spec(sv, path, t)),
{
    lemma_spec_view_index(sv, path);
    let r = put_spec(sv, path, t);
    match spec_view_index(sv, path) {
        Some(k) => {
            assert forall|i: int, j: int| 0 <= i < j < r.len() implies !same_path(
                #[trigger] r[i].0,
                #[trigger] r[j].0,
            ) by {
                assert(r[i].0 == sv[i].0 && r[j].0 == sv[j].0);
                assert(!same_path(sv[i].0, sv[j].0));
            }
        },
        None => {
            assert forall|i: int, j: int| 0 <= i < j < r.len() implies !same_path(
                #[trigger] r[i].0,
                #[trigger] r[j].0,
            ) by {
                if j < sv.len() {
                    assert(!same_path(sv[i].0, sv[j].0));
                } else {
                    assert(r[j].0 == path);
                    assert(r[i].0 == sv[i].0);
                    assert(!same_path(sv[i].0, path));
                }
            }
        },
    }
}

/// Once a prefix of the sources fails, every longer prefix fails with the same path.
proof fn lemma_assembled_specs_err_stays(
    srcs: Seq<(Seq<char>, Seq<char>, Option<Seq<char>>)>,
    n: int,
    p: Seq<char>,
)
    requires
        0 <= n <= srcs.len(),
        assembled_specs(srcs.take(n)) == Err::<Seq<(Seq<char>, JobTemplateView)>, Seq<char>>(p),
    ensures
        assembled_specs(srcs) == Err::<Seq<(Seq<char>, JobTemplateView)>, Seq<char>>(p),
    decreases srcs.len() - n,
{
    if n < srcs.len() {
        assert(srcs.take(n + 1).drop_last() =~= srcs.take(n));
        lemma_assembled_specs_err_stays(srcs, n + 1, p);
    } else {
        assert(srcs.take(n) =~= srcs);
    }
}

/// Assembles a jobify configuration: its agents, and for each agent of the cluster
/// whose description the archive holds, that description parsed and held under its
/// path, as `insert_spec` does. A description that is not a Kubernetes job fails the
/// whole configuration, naming the first such path; agents whose description is
/// missing are left without one.
pub fn assemble_config(agents: JobifyAgents, cluster: Option<&str>, files: &Vec<(String, String)>) -> (r:
    Result<Config, ConfigError>)
    requires
        agents.wf(),
    ensures
        r matches Ok(c) ==> c.wf(),
        match assembled_specs(
            spec_sources_of(
                agents.agents@,
                match cluster {
                    Some(c) => Some(c@),
                    None => None,
                },
                pairs_view(files@),
            ),
        ) {
            Ok(sv) => r matches Ok(c) && c.agents == agents && specs_view(c.k8s_specs@) == sv
                && one_spec_per_path(sv),
            Err(p) => r matches Err(ConfigError::InvalidJobSpec(q)) && q@ == p,
        },
{
    let srcs = spec_sources(&agents, cluster, files);
    let ghost sv = srcs@.map_values(|s: SpecSource| source_view(s));
    let mut specs: Vec<(String, JobTemplate)> = Vec::new();
    let mut i: usize = 0;
    assert(sv.take(0) =~= seq![]);
    assert(specs_view(specs@) =~= seq![]);
    while i < srcs.len()
        invariant
            i <= srcs.len(),
            sv == srcs@.map_values(|s: SpecSource| source_view(s)),
            sv == spec_sources_of(
                agents.agents@,
                match cluster {
                    Some(c) => Some(c@),
                    None => None,
                },
                pairs_view(files@),
            ),
            assembled_specs(sv.take(i as int)) == Ok::<Seq<(Seq<char>, JobTemplateView)>, Seq<char>>(
                specs_view(specs@),
            ),
            one_spec_per_path(specs_view(specs@)),
        decreases srcs.len() - i,
    {
        proof {
            assert(sv.take(i + 1).drop_last() =~= sv.take(i as int));
            assert(sv.take(i + 1).last() == source_view(srcs@[i as int]));
        }
        match &srcs[i] {
            SpecSource::Found { path, contents, .. } => match crate::outside::parse_job_spec(
                contents.as_str(),
            ) {
                None => {
                    proof {
                        lemma_assembled_specs_err_stays(sv, i + 1, path@);
                    }
                    return Err(ConfigError::InvalidJobSpec(path.clone()));
                },
                Some(t) => {
                    insert_spec(&mut specs, path.clone(), t);
                },
            },
            SpecSource::Missing { .. } => {},
        }
        i = i + 1;
    }
    assert(sv.take(srcs.len() as int) =~= sv);
    Ok(Config { agents, k8s_specs: specs })
}

/// The agent chosen for a job has, for the key of every one of the job's query rules, a
/// tag, holding the rule's value when the rule names one: a rule whose key the agent
/// lacks is never satisfied, wildcard or not.
pub proof fn lemma_chosen_agent_has_every_rule_key(cfg: Config, job: Job)
    ensures
        chosen_agent(cfg, job) matches Some(i) ==> forall|k: int|
            0 <= k < query_rules_of(job.query_rules@).len() ==> {
                let rule = #[trigger] query_rules_of(job.query_rules@)[k];
                let tags = pairs_view(cfg.agents.agents@[i].tags@);
                &&& value_of(tags, rule.0) is Some
                &&& rule.1 matches Some(v) ==> value_of(tags, rule.0) == Some(v)
            },
        forall|a: int|
            0 <= a < cfg.agents.agents@.len() && (chosen_agent(cfg, job) matches Some(i) ==> a < i)
                ==> query_rules_of(job.query_rules@).len() == 0 || lacks_a_rule(
                pairs_view(#[trigger] cfg.agents.agents@[a].tags@),
                query_rules_of(job.query_rules@),
            ),
{
    let rules = query_rules_of(job.query_rules@);
    let agents = agents_tags(cfg.agents.agents@);
    lemma_best_agent_is_first_satisfying(rules, agents);
    if let Some(i) = chosen_agent(cfg, job) {
        assert(agents[i] == pairs_view(cfg.agents.agents@[i].tags@));
        assert forall|k: int| 0 <= k < rules.len() implies {
            let rule = #[trigger] rules[k];
            let tags = pairs_view(cfg.agents.agents@[i].tags@);
            &&& value_of(tags, rule.0) is Some
            &&& rule.1 matches Some(v) ==> value_of(tags, rule.0) == Some(v)
        } by {
            assert(rule_matches(rules[k], agents[i]));
        }
    }
    assert forall|a: int|
        0 <= a < cfg.agents.agents@.len() && (chosen_agent(cfg, job) matches Some(i) ==> a < i)
            implies query_rules_of(job.query_rules@).len() == 0 || lacks_a_rule(
            pairs_view(#[trigger] cfg.agents.agents@[a].tags@),
            query_rules_of(job.query_rules@),
        ) by {
        assert(agents[a] == pairs_view(cfg.agents.agents@[a].tags@));
        if rules.len() > 0 {
            assert(!rules_satisfied(rules, agents[a]));
            let k = choose|k: int| 0 <= k < rules.len() && !rule_matches(#[trigger] rules[k], agents[a]);
            assert(!tag_satisfies(pairs_view(cfg.agents.agents@[a].tags@), rules[k]));
        }
    }
}

/// Whether tags fail one of the rules: they lack its key, or hold another value than the
/// one it names.
pub open spec fn lacks_a_rule(tags: Seq<PairView>, rules: Seq<QueryRuleView>) -> bool {
    exists|k: int| 0 <= k < rules.len() && !tag_satisfies(tags, #[trigger] rules[k])
}

/// Whether tags have the key of a rule, holding the rule's value when it names one.
pub open spec fn tag_satisfies(tags: Seq<PairView>, rule: QueryRuleView) -> bool {
    &&& value_of(tags, rule.0) is Some
    &&& rule.1 matches Some(v) ==> value_of(tags, rule.0) == Some(v)
}

/// The container of a job description with a single container gets, as arguments, its
/// own arguments (or `start --disconnect-after-job` when it has none) followed by
/// `--acquire-job` and the job's UUID.
pub proof fn lemma_prepared_args_extend_the_template(
    t: JobTemplateView,
    tags: Seq<char>,
    name: Seq<char>,
    job_uuid: u128,
    org: Seq<char>,
    pipeline: Seq<char>,
)
    requires
        has_single_container(t),
    ensures
        ({
            let c = t.template.unwrap().containers.unwrap()[0];
            let p = prepared_job(t, tags, name, job_uuid, org, pipeline);
            let own = match c.args {
                Some(a) => a,
                None => seq!["start"@, "--disconnect-after-job"@],
            };
            p.template.unwrap().containers.unwrap()[0].args == Some(
                own + seq!["--acquire-job"@, crate::outside::uuid_text(job_uuid)],
            )
        }),
{
    let c = t.template.unwrap().containers.unwrap()[0];
    let own = match c.args {
        Some(a) => a,
        None => seq!["start"@, "--disconnect-after-job"@],
    };
    assert(own.push("--acquire-job"@).push(crate::outside::uuid_text(job_uuid)) =~= own
        + seq!["--acquire-job"@, crate::outside::uuid_text(job_uuid)]);
}

/// Every job of the builds with an exit status, whatever its value, is one of the UUIDs
/// handed to `retire`.
proof fn lemma_builds_exited_members(builds: Seq<Build>)
    ensures
        forall|b: int, j: int|
            0 <= b < builds.len() && 0 <= j < builds[b].jobs@.len() && (#[trigger] builds[b].jobs@[j]).exit_status is Some
                ==> builds_exited(builds).contains(builds[b].jobs@[j].uuid),
    decreases builds.len(),
{
    if builds.len() > 0 {
        let init = builds.drop_last();
        let last = builds.len() - 1;
        lemma_builds_exited_members(init);
        lemma_jobs_exited_members(builds[last].jobs@);
        let ie = builds_exited(init);
        let je = jobs_exited(builds[last].jobs@);
        assert(builds_exited(builds) == ie + je);
        assert forall|b: int, j: int|
            0 <= b < builds.len() && 0 <= j < builds[b].jobs@.len() && (#[trigger] builds[b].jobs@[j]).exit_status is Some
                implies builds_exited(builds).contains(builds[b].jobs@[j].uuid) by {
            let u = builds[b].jobs@[j].uuid;
            if b < last {
                assert(init[b] == builds[b]);
                let k = choose|k: int| 0 <= k < ie.len() && ie[k] == u;
                assert((ie + je)[k] == u);
            } else {
                let k = choose|k: int| 0 <= k < je.len() && je[k] == u;
                assert((ie + je)[ie.len() + k] == u);
            }
        }
    } else {
        assert(builds_exited(builds).len() == 0);
    }
}

/// Every job with an exit status has its UUID listed by `jobs_exited`.
proof fn lemma_jobs_exited_members(jobs: Seq<Job>)
    ensures
        forall|j: int| 0 <= j < jobs.len() && (#[trigger] jobs[j]).exit_status is Some ==> jobs_exited(jobs).contains(jobs[j].uuid),
    decreases jobs.len(),
{
    if jobs.len() > 0 {
        let init = jobs.drop_last();
        let last = jobs.len() - 1;
        lemma_jobs_exited_members(init);
        let ie = jobs_exited(init);
        assert(jobs.last() == jobs[last]);
        assert forall|j: int| 0 <= j < jobs.len() && (#[trigger] jobs[j]).exit_status is Some implies jobs_exited(jobs).contains(jobs[j].uuid) by {
            if j < last {
                assert(init[j] == jobs[j]);
                let k = choose|k: int| 0 <= k < ie.len() && ie[k] == jobs[j].uuid;
                assert(jobs_exited(jobs)[k] == jobs[j].uuid);
            } else {
                assert(jobs_exited(jobs) == ie.push(jobs[j].uuid));
                assert(jobs_exited(jobs)[ie.len() as int] == jobs[j].uuid);
            }
        }
    }
}

/// Each UUID `jobs_exited` lists is that of a job with an exit status.
proof fn lemma_jobs_exited_source(jobs: Seq<Job>, k: int)
    requires
        0 <= k < jobs_exited(jobs).len(),
    ensures
        exists|j: int| 0 <= j < jobs.len() && (#[trigger] jobs[j]).exit_status is Some && jobs[j].uuid == jobs_exited(jobs)[k],
    decreases jobs.len(),
{
    let init = jobs.drop_last();
    let last = jobs.len() - 1;
    let ie = jobs_exited(init);
    assert(jobs.last() == jobs[last]);
    if k < ie.len() {
        lemma_jobs_exited_source(init, k);
        assert(jobs_exited(jobs)[k] == ie[k]);
        let j = choose|j: int| 0 <= j < init.len() && (#[trigger] init[j]).exit_status is Some && init[j].uuid == ie[k];
        assert(init[j] == jobs[j]);
    } else {
        assert(jobs[last].exit_status is Some);
        assert(jobs[last].uuid == jobs_exited(jobs)[k]);
    }
}

/// Each UUID `builds_exited` lists is that of a job, of one of the builds, with an exit
/// status.
proof fn lemma_builds_exited_source(builds: Seq<Build>, k: int)
    requires
        0 <= k < builds_exited(builds).len(),
    ensures
        exists|b: int, j: int|
            0 <= b < builds.len() && 0 <= j < builds[b].jobs@.len() && (#[trigger] builds[b].jobs@[j]).exit_status is Some
                && builds[b].jobs@[j].uuid == builds_exited(builds)[k],
    decreases builds.len(),
{
    let init = builds.drop_last();
    let last = builds.len() - 1;
    let ie = builds_exited(init);
    let je = jobs_exited(builds[last].jobs@);
    assert(builds.last() == builds[last]);
    assert(builds_exited(builds) == ie + je);
    if k < ie.len() {
        lemma_builds_exited_source(init, k);
        assert(builds_exited(builds)[k] == ie[k]);
        let (b, j) = choose|b: int, j: int|
            0 <= b < init.len() && 0 <= j < init[b].jobs@.len() && (#[trigger] init[b].jobs@[j]).exit_status is Some
                && init[b].jobs@[j].uuid == ie[k];
        assert(init[b] == builds[b]);
        assert(builds[b].jobs@[j].exit_status is Some);
    } else {
        lemma_jobs_exited_source(builds[last].jobs@, k - ie.len());
        assert(builds_exited(builds)[k] == je[k - ie.len()]);
        let j = choose|j: int| 0 <= j < builds[last].jobs@.len() && (#[trigger] builds[last].jobs@[j]).exit_status is Some
            && builds[last].jobs@[j].uuid == je[k - ie.len()];
        assert(builds[last].jobs@[j].exit_status is Some);
    }
}

/// Retiring counts a job as running on an agent exactly when one of the retired UUIDs
/// was known with an agent.
proof fn lemma_retire_count(known: Map<u128, Option<Seq<char>>>, ids: Seq<u128>)
    ensures
        (retire(known, ids).1 > 0) <==> exists|k: int|
            0 <= k < ids.len() && known.contains_key(#[trigger] ids[k]) && known[ids[k]] is Some,
    decreases ids.len(),
{
    if ids.len() > 0 {
        let init = ids.drop_last();
        let id = ids.last();
        lemma_retire_count(known, init);
        lemma_retired_jobs_forgotten(known, init);
        let kk = retire(known, init).0;
        if exists|k: int| 0 <= k < init.len() && known.contains_key(#[trigger] init[k]) && known[init[k]] is Some {
            let k = choose|k: int| 0 <= k < init.len() && known.contains_key(#[trigger] init[k]) && known[init[k]] is Some;
            assert(ids[k] == init[k]);
        } else {
            if init.contains(id) {
                let k = choose|k: int| 0 <= k < init.len() && init[k] == id;
                assert(!kk.contains_key(init[k]));
                if known.contains_key(id) && known[id] is Some {
                    assert(known.contains_key(init[k]) && known[init[k]] is Some);
                }
            } else {
                assert(kk.contains_key(id) == known.contains_key(id));
            }
            assert forall|k: int| 0 <= k < init.len() implies !(known.contains_key(#[trigger] ids[k]) && known[ids[k]] is Some) by {
                assert(ids[k] == init[k]);
            }
            assert(ids[ids.len() - 1] == id);
        }
    }
}

/// Whether one of the builds has a job with this UUID and an exit status.
pub open spec fn has_exited_job(builds: Seq<Build>, u: u128) -> bool {
    exists|b: int, j: int|
        0 <= b < builds.len() && 0 <= j < builds[b].jobs@.len() && (#[trigger] builds[b].jobs@[j]).exit_status
            is Some && builds[b].jobs@[j].uuid == u
}

/// After retiring the exited jobs of the builds, no job of theirs that has an exit
/// status, whatever its value, is known any more, and every other job is known as
/// before; and cleanup is needed exactly when one of them was known as running on an
/// agent the jobifier spawned.
pub proof fn lemma_exited_jobs_retired(known: Map<u128, Option<Seq<char>>>, builds: Seq<Build>)
    ensures
        forall|b: int, j: int|
            0 <= b < builds.len() && 0 <= j < builds[b].jobs@.len() && (#[trigger] builds[b].jobs@[j]).exit_status is Some
                ==> !retire(known, builds_exited(builds)).0.contains_key(builds[b].jobs@[j].uuid),
        (retire(known, builds_exited(builds)).1 > 0) <==> exists|b: int, j: int|
            0 <= b < builds.len() && 0 <= j < builds[b].jobs@.len() && (#[trigger] builds[b].jobs@[j]).exit_status is Some
                && known.contains_key(builds[b].jobs@[j].uuid) && known[builds[b].jobs@[j].uuid] is Some,
        forall|u: u128|
            !has_exited_job(builds, u) ==> (#[trigger] retire(known, builds_exited(builds)).0.contains_key(u)
                == known.contains_key(u) && (known.contains_key(u) ==> retire(known, builds_exited(builds)).0[u]
                == known[u])),
{
    let ids = builds_exited(builds);
    lemma_builds_exited_members(builds);
    lemma_retired_jobs_forgotten(known, ids);
    lemma_retire_count(known, ids);
    assert forall|b: int, j: int|
        0 <= b < builds.len() && 0 <= j < builds[b].jobs@.len() && (#[trigger] builds[b].jobs@[j]).exit_status is Some
            implies !retire(known, ids).0.contains_key(builds[b].jobs@[j].uuid) by {
        let k = choose|k: int| 0 <= k < ids.len() && ids[k] == builds[b].jobs@[j].uuid;
    }
    if retire(known, ids).1 > 0 {
        let k = choose|k: int| 0 <= k < ids.len() && known.contains_key(#[trigger] ids[k]) && known[ids[k]] is Some;
        lemma_builds_exited_source(builds, k);
        let (b, j) = choose|b: int, j: int|
            0 <= b < builds.len() && 0 <= j < builds[b].jobs@.len() && (#[trigger] builds[b].jobs@[j]).exit_status is Some
                && builds[b].jobs@[j].uuid == ids[k];
        assert(builds[b].jobs@[j].exit_status is Some);
    }
    if exists|b: int, j: int|
        0 <= b < builds.len() && 0 <= j < builds[b].jobs@.len() && (#[trigger] builds[b].jobs@[j]).exit_status is Some
            && known.contains_key(builds[b].jobs@[j].uuid) && known[builds[b].jobs@[j].uuid] is Some {
        let (b, j) = choose|b: int, j: int|
            0 <= b < builds.len() && 0 <= j < builds[b].jobs@.len() && (#[trigger] builds[b].jobs@[j]).exit_status is Some
                && known.contains_key(builds[b].jobs@[j].uuid) && known[builds[b].jobs@[j].uuid] is Some;
        let k = choose|k: int| 0 <= k < ids.len() && ids[k] == builds[b].jobs@[j].uuid;
        assert(known.contains_key(ids[k]) && known[ids[k]] is Some);
    }
    assert forall|u: u128|
        !has_exited_job(builds, u) implies (#[trigger] retire(known, builds_exited(builds)).0.contains_key(u)
            == known.contains_key(u) && (known.contains_key(u) ==> retire(known, builds_exited(builds)).0[u]
            == known[u])) by {
        if ids.contains(u) {
            let k = choose|k: int| 0 <= k < ids.len() && ids[k] == u;
            lemma_builds_exited_source(builds, k);
        }
    }
}

/// A build asks for a configuration exactly when one of its jobs is scheduled, its
/// metadata names a checksum and an artifact, and that checksum's configuration is not
/// cached; it then asks for that checksum and artifact.
pub proof fn lemma_config_requested_only_when_scheduled(
    configs: Map<Seq<char>, Option<Config>>,
    b: Build,
)
    ensures
        config_request_for(configs, b) matches Some((c, a)) ==> {
            &&& exists|i: int| 0 <= i < b.jobs@.len() && (#[trigger] b.jobs@[i]).state
                == JobStates::Scheduled
            &&& value_of(pairs_view(b.metadata@), "jobify-artifact-chksum"@) == Some(c)
            &&& value_of(pairs_view(b.metadata@), "jobify-artifact-id"@) == Some(a)
            &&& !configs.contains_key(c)
        },
        (forall|i: int| 0 <= i < b.jobs@.len() ==> (#[trigger] b.jobs@[i]).state
            != JobStates::Scheduled) ==> config_request_for(configs, b) is None,
        (exists|i: int| 0 <= i < b.jobs@.len() && (#[trigger] b.jobs@[i]).state
            == JobStates::Scheduled) ==> match (
            value_of(pairs_view(b.metadata@), "jobify-artifact-chksum"@),
            value_of(pairs_view(b.metadata@), "jobify-artifact-id"@),
        ) {
            (Some(c), Some(a)) => !configs.contains_key(c) ==> config_request_for(configs, b)
                == Some((c, a)),
            _ => true,
        },
{
}

} // verus!
