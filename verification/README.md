# Tycho

Tycho captures watched paths into a bare git store and pushes that store to bare
repositories in synced cloud folders and on external drives.

The name is Tycho Brahe's. He spent two decades at Uraniborg recording star and planet
positions with the naked eye; his own model of the solar system was wrong, but the records
outlived him and were exact enough for Kepler to derive the real one from them. That is what
a backup is for: data that survives whoever made it.

`src/` is the library. Verus proves every function with a contract against it, but for the
wrappers: small functions that make one call into another crate or into std, marked
`external_body`, whose contracts Verus takes on trust. There are almost eighty trusted items
with the declarations of outside types and the names of outside results; each says in its doc
comment which function it stands for and what it claims of it. They cover TOML
documents (`config_edit::document`, `config::local`, `bootstrap`), globs (`config::rules`), the
clock and the time zone (`config::moment`), Unicode composition and case (`primitives::refs`), and
UTF-8 (`octets`).

The library reads the clock and the machine's time zone and nothing else, runs nothing and prints
nothing: a function that needs another program says what to run (`process::Call`) and takes what
came back (`process::Output`), and a command answers with the text to print, what to say on
stderr, and its exit. Where the clock or the zone decides, the contract says what holds for every
answer it can give, and a function one call down takes the answer as an argument. `app/` is the
program around the library.

| Modules | What they hold |
| --- | --- |
| `text`, `lines`, `octets`, `textmap` | texts, lines, bytes, and maps in key order |
| `primitives` | paths, names, object ids, encodings, ref collisions |
| `process`, `git` | what git is asked, and what its answers are read as |
| `config` | the config file: its shape, its validation, the rule tree, schedules |
| `plan` | walking a root, and the guards on what a walk found |
| `capture`, `metadata`, `remote` | what a repository adds, what a file system holds beside the bytes, and pushing |
| `store`, `restore` | what a run and a restore came to |
| `config_edit` | editing the config file in place |
| `platform` | launchd, Task Scheduler, notifications and logs |
| `doctor`, `bootstrap`, `cli` | health, installation, and the commands |

The precedence of rules is in `config::precedence` and `config::order`, the traversal in `plan::walk`, and the laws
of a definition read back from Task Scheduler in `platform::schtasks::reading`. A law that spans
several functions is a public proof function at the end of the module it is about.
