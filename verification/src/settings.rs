//! The settings of the program: what the configuration file says, overridden by the
//! command line, with the API token taken from the environment as a last resort.
use crate::text::texts_view;
use vstd::prelude::*;
use vstd::string::*;

verus! {

/// What the configuration file says.
#[derive(Debug, Clone)]
pub struct FileConfig {
    /// The API token used for communicating with the Buildkite API
    pub api_token: Option<String>,
    /// The namespace under which kubernetes jobs are created
    pub namespace: Option<String>,
    /// The pipeline identifiers to watch
    pub pipelines: Vec<String>,
    /// Only agents specified with the same cluster will be spawned
    pub cluster: Option<String>,
}

/// What the command line says.
#[derive(Debug, Clone)]
pub struct Overrides {
    pub api_token: Option<String>,
    pub namespace: Option<String>,
    pub cluster: Option<String>,
    pub pipelines: Vec<String>,
}

/// The settings the program runs with.
#[derive(Debug, Clone)]
pub struct Settings {
    pub api_token: String,
    pub namespace: String,
    pub pipelines: Vec<String>,
    pub cluster: Option<String>,
}

/// Why the program cannot run.
#[derive(Debug, Clone)]
pub enum SettingsError {
    /// No API token was given and `BUILDKITE_API_TOKEN` could not be read; the reason
    MissingToken(String),
    /// No pipeline was given to watch
    NoPipelines,
}

/// The command line's value where it gives one, else the file's.
pub open spec fn pick(file: Option<String>, arg: Option<String>) -> Option<String> {
    match arg {
        Some(a) => Some(a),
        None => file,
    }
}

/// The namespace when none is given.
pub open spec fn default_namespace() -> Seq<char> {
    "buildkite"@
}

/// A value of the file, when there is a file.
pub open spec fn from_file(file: Option<FileConfig>, get: spec_fn(FileConfig) -> Option<String>) -> Option<
    String,
> {
    match file {
        Some(f) => get(f),
        None => None,
    }
}

/// The pipelines to watch: the command line's when it names any, else the file's.
pub open spec fn pipelines_of(file: Option<FileConfig>, args: Overrides) -> Seq<Seq<char>> {
    if args.pipelines@.len() > 0 {
        texts_view(args.pipelines@)
    } else {
        match file {
            Some(f) => texts_view(f.pipelines@),
            None => seq![],
        }
    }
}

/// Resolves the settings. The command line overrides the file, value by value; its
/// pipelines replace the file's when it names any. The API token comes from the
/// command line, else the file, else the environment, and one is required; so is at
/// least one pipeline. The namespace defaults to `buildkite`.
pub fn resolve_settings(
    file: Option<FileConfig>,
    args: Overrides,
    env_token: Result<String, String>,
) -> (r: Result<Settings, SettingsError>)
    ensures
        ({
            let token = pick(from_file(file, |f: FileConfig| f.api_token), args.api_token);
            if token is None && env_token is Err {
                r matches Err(SettingsError::MissingToken(m)) && env_token == Err::<String, String>(m)
            } else if pipelines_of(file, args).len() == 0 {
                r matches Err(SettingsError::NoPipelines)
            } else {
                r matches Ok(s) && s.api_token == (match token {
                    Some(t) => t,
                    None => env_token->Ok_0,
                }) && texts_view(s.pipelines@) == pipelines_of(file, args) && s.cluster == pick(
                    from_file(file, |f: FileConfig| f.cluster),
                    args.cluster,
                ) && s.namespace@ == (match pick(
                    from_file(file, |f: FileConfig| f.namespace),
                    args.namespace,
                ) {
                    Some(n) => n@,
                    None => default_namespace(),
                })
            }
        }),
{
    let ghost file0 = file;
    let f = match file {
        Some(f) => f,
        None => FileConfig { api_token: None, namespace: None, pipelines: Vec::new(), cluster: None },
    };
    assert(pipelines_of(file0, args) == if args.pipelines@.len() > 0 {
        texts_view(args.pipelines@)
    } else {
        texts_view(f.pipelines@)
    }) by {
        if file0 is None {
            assert(texts_view(f.pipelines@) =~= seq![]);
        }
    }
    let api_token = match args.api_token {
        Some(t) => Some(t),
        None => f.api_token,
    };
    let namespace = match args.namespace {
        Some(n) => Some(n),
        None => f.namespace,
    };
    let cluster = match args.cluster {
        Some(c) => Some(c),
        None => f.cluster,
    };
    let pipelines = if args.pipelines.len() > 0 {
        args.pipelines
    } else {
        f.pipelines
    };
    let api_token = match api_token {
        Some(t) => t,
        None => match env_token {
            Ok(t) => t,
            Err(e) => return Err(SettingsError::MissingToken(e)),
        },
    };
    if pipelines.len() == 0 {
        return Err(SettingsError::NoPipelines);
    }
    let namespace = match namespace {
        Some(n) => n,
        None => "buildkite".to_owned(),
    };
    Ok(Settings { api_token, namespace, pipelines, cluster })
}

} // verus!
