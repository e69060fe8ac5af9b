# hermes_os

The logic of HermesOS, the desktop shell around the Hermes agent, verified with Verus.

- `src/` is the library. Every public function states in its contract what it returns, and the
  functions named `law_...` state what holds of several of them together, such as that a variable
  that was set is read back, or that saving the form as it was shown gives the file back.
- `tests/` runs the library on concrete values.
- `app/` is the shell: it reads and writes files, asks the database, runs processes, and hands the
  library what they gave.

| Module | What it holds |
| --- | --- |
| `text`, `value` | texts, and the values of YAML and JSON documents |
| `config`, `models`, `env_vars`, `skills` | what stands in `config.yaml` and `.env` |
| `profiles`, `paths` | profiles, and where files lie |
| `sessions`, `fts`, `fts_proof`, `analytics` | sessions, searching them, and what they cost |
| `sidecar`, `ipc`, `log_rotator`, `logs` | the processes beside the shell, and their logs |
| `status`, `updater` | what the shell tells of itself |

The functions marked `external_body` call `regex`, `chrono`, `serde_yaml` or the standard library;
what they promise is believed, not proved, and stands in their contracts.
