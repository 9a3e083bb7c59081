# buildkite_jobify

Watches Buildkite pipelines through the GraphQL API and spawns a Kubernetes job for
every scheduled Buildkite job, running an agent that acquires exactly that job.

## Layout

- `src/` is the library, verified with Verus. It holds the decisions:
  - `monitor`: build and job states, agent query rules, how the answers of the
    GraphQL API become the sorted list of builds handed to the jobifier, which
    builds are remembered as running, the response digest that skips unchanged
    answers, and the polling back-off.
  - `jobifier`: choosing the agent for a job, preparing the Kubernetes job
    description, reading the configuration archive, the bookkeeping between two
    batches of builds (`JobifyState`), and which Kubernetes jobs are cleaned up.
  - `settings`: how the configuration file, the command line and the environment
    combine.
  - `k8s`: choosing the current kubeconfig context, the client's credentials and
    TLS setup, and the error of a failed API request.
  - `headers`, `text`: `Authorization` values and text helpers with their proofs.
  - `outside`: every call into another crate, each with the contract the proofs
    rely on.
- `app/` is the program around the library: command line, HTTP and Kubernetes
  requests, the polling and spawning loops, and the serde forms of the files and
  answers it reads.
- `tests/` runs the library on concrete values.
