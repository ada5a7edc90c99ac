# work_ledger

A ledger of outcomes for agents that work in threads, and the parts of a session that live beside
it: messages between agents, changes of a thread's directory, accounts and their credentials,
encrypted secrets, and conversation history that belongs to one account.

`src/` is the library, verified with Verus. It decides and computes; it reads no file, asks no
keyring and waits for nothing. Where outside work and decisions take turns, the library holds the
decisions as a state with the step being taken (`doing`) and a function `next` from the event that
the step ended in to the next state.

| module | what it is about |
| --- | --- |
| `ledger` | the plan: tasks, dependencies, batches of changes, splitting and merging, rendering |
| `tool`, `details` | the `ledger` tool: requests, writes, recall and its pages |
| `completion`, `presentation`, `world_state` | reminders, the user's view, the section of the world state |
| `storage`, `control`, `extension` | documents of ledgers, capacity, and how a thread takes part |
| `agents`, `directory` | messages, transitions and notices of agents; the directory of a thread |
| `history`, `history_notes` | history that belongs to an account; calls of the notes backend |
| `auth` | credentials, the bank of named accounts, where it is kept and how it changes |
| `secrets`, `secrets_document`, `sealing`, `vault`, `atomic` | secrets, how they are written down, their encryption, loading and saving, replacing files |
| `cur`, `transcripts` | finding the transcripts of another agent and their projects |
| `commands` | what the user types and picks |
| `text`, `table`, `time`, `json`, `codec` | shared foundations |

`tests/` runs the library on concrete values, with the outside crates linked. `app/` is the host:
files, locks, the keyring, serde, and the loops that carry out what the library asks for.
