# shipfe

A deployment tool for static front-end builds: it builds a project, packs the
dist directory, uploads it over SSH into a timestamped release directory,
switches a `current` link to it, shares hashed assets between releases and
cleans up old releases. Rollback points `current` back at an older release.

## Layout

- `src/` is the library, verified with Verus:
  - `config.rs`: the configuration model, the default configuration, the
    `.gitignore` update, and what a `deploy` or `rollback` command acts on
    (environments, sub-environments, `--all-sub`).
  - `deploy.rs`: the remote commands of a release, file names, hashed-asset
    detection and the snapshot, SSH authentication choice, step outcomes,
    rollback commands and log lines.
  - `progress.rs`: byte counts as the log writes them and the upload loop's
    bookkeeping.
  - `license.rs`: license paths, machine ids, the signed JSON form of a
    payload, signature checks, issuing, and the capabilities a license grants.
  - `codec.rs`, `text.rs`: JSON string literals, hexadecimal, Base64, and
    string helpers with their specifications.
  - `outside.rs`: the calls into `glob`, `sha2`, `hex`, `base64` and
    `ed25519-dalek`, each with the contract the library relies on.
- `tests/` runs the library on concrete values.
- `app/` is the command-line program: argument parsing, files, SSH, the build
  process, the clock and the serialized forms of the configuration, snapshot
  and license. Run under the name `issuer`, it issues a license.
