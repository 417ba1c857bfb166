# ci_tracer

The recorder of CI operations: a privileged agent, started once per CI job, that observes
which processes a build, test or deploy runs and which files they read and write, and turns
each operation into one execution run record with a content digest for every file in scope.
Records are submitted to a pipeline; whatever could not be submitted is reported as unknown
coverage, never as a clean build.

`src/` is the library. Everything in it is verified with Verus.

| Module | What it holds |
|--------|---------------|
| `common`, `kernel`, `events` | the records that the kernel side writes, and how they are decoded |
| `observe`, `scope` | the process tree, operations, and what counts as an input or output |
| `hash`, `hashing` | content digests, file by file and for a whole operation |
| `assemble`, `runrecord` | the run record and its sidecar |
| `adapter`, `config`, `env` | what the CI platform and the action inputs say |
| `resolve`, `detect` | process metadata, host facts, and what the kernel offers |
| `submit`, `reconcile` | delivery with bounded retries, and observed-vs-submitted accounting |
| `agent` | how the agent starts, the order in which it works, and what becomes of each operation |
| `mock_pipeline`, `xtask` | a stand-in pipeline, and the build of the kernel-side object |
| `text`, `order`, `strmap`, `time`, `json`, `command` | what the other modules are made of |

Functions that alternate between deciding and doing (hashing through `git`, submitting with
retries, the agent's life) are state machines: they say what to do next and are told what came
of it. `app/` does it: it reads files, runs commands, talks HTTP, loads the kernel programs and
turns records into JSON.

Calls into other crates stand behind small functions whose contracts say what is relied on:
SHA-256 (`sha2`), JSON members (`serde_json`), the clock and the form of instants (`chrono`),
trace ids (`uuid`), and a few functions of the standard library.
