# rapstat

Project observability for git repositories: `rapstat scan` writes a
`STATUS.md` (YAML frontmatter and a Markdown body) with the facts of a
project — last commit, push activity, CONTEXT.md drift, workflow progress and
contributors — and `rapstat status`, `check` and `projects` read them back.

The library in `src/` is verified with Verus:

- `status_model` — the STATUS.md document and the exact text it is written as;
- `status_view` — how `rapstat status` reads that text back, line by line;
- `frontmatter_law` — what is written into the frontmatter reads back unchanged;
- `workflow`, `tally` — sprint and tranche summaries of the workflow state;
- `git` — the contributor tally and the repository facts;
- `registry` — the global project registry;
- `config`, `context_check`, `commands` — the decisions behind the commands;
- `timestamp` — UTC instants, with their texts taken from `chrono`;
- `text`, `order` — character-level helpers and the order of texts.

`app/` is the command-line program around it: argument parsing, the file
system, libgit2, YAML and TOML files, and coloured output.
