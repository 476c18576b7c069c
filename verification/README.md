# foc_devnet

The verified core of `foc-devnet`, the command-line tool that manages a local
filecoin-onchain-cloud cluster in Docker.

- `src/` is the library, verified with Verus:
  - `cli`: the command-line grammar (`Cli::try_parse_from`), with the rule
    that `logs --tail` needs `--follow` proved over every argument list;
  - `commands::logs`: the combined log of a run: validating the request,
    selecting and ordering the run's containers, parsing timestamped log
    lines and ordering them (a stable sort whose result is proved unique);
  - `commands::proof_parameters`: the provisioning steps of the proof
    parameters (cache, `lotus fetch-params`, S3 fallback) as a transition
    function, the judgement of each step's outcome, and a model of merging
    a downloaded directory tree into the cache (existing files are kept,
    new files move in, a successful download leaves the cache filled);
  - `docker::logs`: reading `docker ps` output, selecting foc-devnet and
    dead containers, and naming captured log files;
  - `order`, `text`: the lexicographic order of texts, a verified stable
    sort, and the string operations these rest on.
- `tests/` runs the library on concrete values.
- `app/` is the program: it reads the command line with the library's
  grammar (clap prints help and errors), and does the Docker and file-system
  work, the logging, and the loops that carry out what the library decides.
