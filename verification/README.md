# kaneo_core

The agent-run core of Kaneo, verified with Verus: a bounded, observable scheduler for agent
processes.

- `src/` is the library. `manager` keeps the runs and bounds how many are active; `worker` decides
  step by step what to do with an agent's process; `life` says how each step changes a run; `system`
  states what holds of all runs and their workers in every state that they reach; `event` keeps the
  log, `redact` takes the secrets out of it, `output` and `json` read what agents print. `env_file`
  and `desktop` hold the choices of the desktop shell. Laws that relate several functions are the
  public proof functions whose names begin with `law_`.
- `app/` holds the programs around it: the command-line runner, which starts and watches processes,
  and the desktop shell.
- `tests/` runs the library on concrete values.
