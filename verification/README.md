# jj-agentic-aspect

A command-line client for the tracking of specs, tasks, asks and agent sessions. Its logic is a
library verified with Verus; a thin program around it reads, writes and sends.

| Directory | What it holds |
|---|---|
| `src/` | the verified library |
| `tests/` | its tests |
| `app/` | the programs `jj-agentic-aspect` and `jj-status`, one executable with two names |

## The library

| Module | What it is about |
|---|---|
| `text`, `paths`, `uri` | strings, Unix paths and percent-encoding |
| `number`, `json`, `codec` | JSON values, and their text, which serde_json reads and writes |
| `payload`, `body` | making the payload of an event small enough to be uploaded |
| `turn`, `goal`, `rollout` | what the transcript of a Codex session says, and where it is |
| `upload`, `hook`, `status`, `sessions` | the events, the commands around them and their arguments |
| `complaint`, `checks`, `flags`, `dispatch`, `help` | arguments, and what is said of wrong ones |
| `config`, `api`, `installer` | the configuration, requests and replies, the installer |

Functions that find something wrong return the line to say on standard error; nothing in the
library ends the process.

## Building the program

The build sets three variables: `JJ_VERSION`, the version; `JJ_DEFAULT_SOURCE`, the agent that
events come from where a hook line names none; and `JJ_PROJECT_DIR_VAR`, the variable in which
that agent names the directory that a session started in. Where the build leaves one of the last
two out, the program takes it from the environment that it runs in.
