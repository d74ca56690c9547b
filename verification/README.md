# sm — Secrets Machine

Secrets Machine injects secrets into the environment of a command
(`sm exec 'cmd'`, or `sm run NAME` for a command named in
`secrets_machine.toml`). Variables come from, in this order of precedence:
aliases, a `.env` file, the process environment, secrets sources
(Bitwarden Secrets Manager) and the system keyring.

## Layout

- `src/` — the library, verified with Verus:
  - `library/utils/str_map.rs`: a string-keyed map kept in ascending key
    order (the order of `BTreeMap<String, _>`), with its view as a `Map`.
  - `library/utils/env_vars.rs`: lookup across sources, expansion of
    `$NAME` / `${NAME}` (plain or redacted), names of secrets, and the
    table of variables.
  - `library/secrets_sources/`: the variables of each source and how they
    are combined (aliases, process variables, precedence), the Bitwarden
    `env` output format and the keyring's JSON document.
  - `library/secrets/keyring.rs`: the secrets stored in the keyring (a
    JSON document), and the text `sm secret add` / `remove` write back and
    the names `sm secret list` prints.
  - `library/system/full_config.rs`: the user configuration merged with
    the project configuration.
  - `library/commands/run.rs`, `library/config/commands.rs`,
    `library/utils/updater.rs`: what `sm run` runs and in which steps, and
    the decisions of `sm update`.
  - `models/`: the configuration types.
- `app/` — the program: command line, files, keyring, processes, network.
- `tests/` — tests of the library.
