# sitectl

`sitectl` administers the projects of a web server: one system user, one
PHP-FPM pool and one nginx vhost per site under `/var/www`, plus `.env`
hygiene, a security audit, backups and removal.

## Layout

- `src/` — the library, verified with Verus. Each module states its
  behaviour in `requires`/`ensures` over specification functions:
  - `text`, `numfmt`, `order`: string splitting, trimming, number
    formatting and parsing, and sorting, specified as std does them;
  - `system`: user names for domains, pool and socket paths, service
    reload commands;
  - `nginx`: the generated vhost and the readers of existing vhosts;
    `vhost_readback` proves what the readers give back of a generated
    vhost and of a vhost whose socket was set;
  - `audit`: the findings of the security audit and the verdicts;
  - `backup`: `.env` parsing, the database dump plan, paths and archive
    commands;
  - `project`, `env_files`, `site_exec`, `provision`, `removal`: the
    decisions and command lines of the other subcommands.
- `app/` — the command-line program: argument parsing, file system and
  process work, colours, and the calls into the library.
- `tests/` — tests of the library on concrete values, many against std.
