# chezmage

chezmoi + age encryption with GPG (YubiKey) protected age secret keys that never
touch disk.

`chezmage <args>` reads `chezmoi.toml`, decrypts the identity files with gpg,
puts the keys into `$CHEZMOI_AGE_KEY` and executes chezmoi. chezmoi calls
`chezmage --shim` in place of `age`; the shim hands the key to the real `age`
through a pipe.

## Layout

- `src/` is the library, verified with Verus: the rules by which the program
  discovers, loads, combines and delivers keys, with a contract for each.
- `tests/` runs the library on concrete values.
- `app/` is the program around it: environment, files, processes, pipes,
  telemetry, and the messages of what goes wrong there.

## Identity discovery priority

1. `chezmoi.toml`, `[age] identity` / `identities`, without `/dev/null` and `NUL`
2. `CHEZMOI_AGE_GPG_KEY_FILE`, separated by commas or semicolons
3. `*.gpg` and `*.asc` files in the config directories

## What is proved

Besides the contract of each function, the public `law_*` functions state what
holds across them, among others:

- a later `--exclude` or `--include` flag overrides an earlier one, and an
  unknown subcommand needs decryption unless such a flag is given;
- rewriting an `age` command line leaves one identity, the key source, keeps all
  other arguments in order, and does nothing more when done again;
- the first identity file that fails to load ends the run with its error, and
  where all load, exactly their contents together are handed on;
- joining the identities, and trimming them, loses no secret key;
- combined keys are used: wrapper mode does not decrypt again, and shim mode
  delivers exactly what was combined;
- the debug text of a secret shows no key;
- two pipe names are the same only where both the process id and the random
  part are, and the scan has one order only.

What is trusted is marked in the sources: a few functions of the standard
library, and the zeroing buffer of the `zeroize` crate.
