# onetcli core

The verified core of the onetcli terminal and database client, written in Verus.

`src/` holds the logic, each public function with a `requires`/`ensures` contract over
mathematical models (`Seq`, `Map`, views of the data types), and the laws that relate
functions as public proof functions:

- `history`, `history_prompt`: shell command history (history files, recording,
  suggestions, ranked search) and the prompt that follows the shell line.
- `osc`, `shell_setup`, `ssh_session`: shell integration markers in terminal output,
  quoting for `sh` and the setup script, and the decisions of an SSH session.
- `er_model`, `er_graph`, `er_tab`, `levels`: ER diagrams of database schemas
  (relationships from foreign keys and `<table>_id` columns, layered layout, graph) and
  the validation and levels of entity-relationship diagrams.
- `decorations`: editor decorations on UTF-8 byte offsets and how they follow edits.
- `jsonrpc`: the JSON-RPC messages of external database drivers.
- `update`: the updater's command line, install decisions and dialog state.
- `canvas`, `settings`, `icon`, `mfa`: canvas tools, view settings, icon sizes, and
  jump-server MFA prompts.
- `text`, `seqs`: string and sequence helpers.

`app/` is ordinary Rust around the library: file and process operations of the
updater, the JSON wire format, running the shell setup over a channel, and the
floating-point geometry of the diagram canvas.

`tests/` exercises the library on concrete values.
