# gen2

A facade for local inference whose decisions are proved with Verus.

`src/` decides and records: what a conversation holds and what of it the
engine still lacks, what a stream of tokens amounts to, which calls of an
agent run beside which, whose weights leave memory first, which file of a Hub
repo a reference means, and whether a model fits a machine. It reads nothing,
sends nothing and waits for nothing.

`app/` is ordinary Rust around it: threads, channels, a Tokio bridge, the Hub
client, the file system, and the copies of types that serde reads and writes.
A few small tests stand where the reading is done: an empty environment
variable counts as unset, an empty list is not sent to a reranker, and only
`.gguf` files are taken off the disk. The inference backend itself is behind
two traits, `Controller` and `Machine`.

| Module | What it decides |
| --- | --- |
| `session`, `session_model`, `session_facts`, `session_laws` | a conversation: its event log, its records, and what of them is shown |
| `matching` | which messages an edit left unchanged |
| `rounds`, `round_laws` | that no tool call is shown without its answer, or an answer without its call |
| `event`, `event_stream`, `event_laws`, `channels`, `bridge` | what a stream of tokens amounts to, and the message it leaves |
| `chat`, `inference`, `spawned`, `generation` | turns: what is sent, what is recorded |
| `agent`, `agent_config`, `agent_run`, `agent_loop`, `agent_laws` | an agent's run |
| `engine`, `runtime`, `model`, `fit` | engines, models, and the memory they share |
| `hf`, `hf_files`, `hf_resolve` | references to models on the Hub |
| `classify`, `extract` | labels and values out of text |
| `input`, `output`, `response`, `message`, `stream`, `error`, `tools`, `tool_defs` | what all of these speak of |
| `json`, `text`, `seqs` | JSON values, characters, sequences |

What is believed rather than proved stands in functions marked
`external_body`, each beside the outside call it makes: JSON values read,
written and compared, a regular expression, lower case, `Debug` of a text, and
a random id. One more is a specification assumed of the standard library:
`String::push`, in `text`.
