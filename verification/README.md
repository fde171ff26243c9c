# pig_core

The engine of a coding agent: conversations with a language model, the tools
that the model may call, the rules on what it may do without asking, and the
records from which a conversation is taken up again.

## Layout

- `src/` decides. Every function of it has a contract that Verus proves. What
  the world answers (a file, a process, a reply of the model service) comes in
  as a plain value, and what is to be done goes out as one.
- `app/` does. It reads and writes files, runs commands, talks to the model
  service and keeps the database; it takes each decision from the library.
- `tests/` runs the library on concrete values.

## Where things are

| Concern | Modules |
| --- | --- |
| A turn and its steps | `session`, `effect`, `state`, `compact`, `title` |
| All sessions together | `manager`, `store`, `project` |
| Asking before acting | `gate`, `permissions`, `command` |
| The tools | `tool`, `schemas`, `files`, `edit`, `search`, `fetch`, `shell`, `media`, `task` |
| Agents that work for a session | `agent`, `subagent` |
| The model service | `provider`, `stream`, `models_registry`, `mock`, `probe` |
| Records and what is shown of them | `rollout`, `replay`, `tracker`, `diff`, `git` |
| Settings and prompts | `config`, `prompt` |
| Texts, paths and values | `chars`, `text`, `lossy`, `json`, `paths`, `patterns`, `order`, `ranking`, `protocol` |

## What is proved and what is trusted

Each function states what it returns, or how it changes what it is handed, for
every input. Properties that span functions stand beside them as proof
functions whose names begin with `law_`.

Calls into other crates stand behind small wrappers marked `external_body`.
The comment above each says what is claimed of the outside function.
