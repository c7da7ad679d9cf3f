# jjunction

Tools for the [Jujutsu](https://github.com/jj-vcs/jj) (jj) version control
system, built on `jj-lib`: vendored sub-repos, links and devenv/direnv files that
follow a workspace around. The library is written in Verus; what its functions
promise stands in their contracts and is proved.

```sh
jjn trust                                   # trust this workspace
jjn apply                                   # repos, then links, then workspaces
jjn doctor                                  # check wiring, repos and links
jjn init                                    # wire the reaction loop

jjn repo add <url> [--target p] [--rev r]   # materialize + append, all or nothing
jjn repo list                               # entries with their state
jjn repo sync                               # converge everything to the lock
jjn repo update [name...]                   # fetch, re-resolve, advance the lock
jjn repo remove <name>                      # drop the entry; files stay on disk
```

## Layout

- `src/` is the library. It never touches a disk, a network or a terminal: it is
  told what was seen, decides, and hands back what to do.
  - `text`, `path`, `order`, `toml`, `files` are the ground it stands on;
  - `config` holds the layers, the sections and the trust gate;
  - `lock` holds the lock file;
  - `repo` holds `[[repo]]` entries, `link` holds `[[link]]` entries;
  - `workspace` mirrors files between workspaces, `hooks` wires them;
  - `cli` holds what the commands say and in which order they act.
- `app/` is the program around it: arguments, files, `git`, `direnv`, progress
  bars.
- `tests/` runs the library on files and repositories in memory.

What is proved of the library as a whole stands in the public proof functions,
each under the sentence that it states; `repo/laws.rs` has those on sub-repos.
That what is saved is loaded as it was stands in the contracts of the functions
that save.
`toml_edit`, `jj-lib`, `gix` and `dirs` are called through small functions whose
contracts are believed, not proved; each says what it claims.
