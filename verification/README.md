# agent-gh

`agent-gh` runs the GitHub CLI (`gh`) with a GitHub App installation token, so
that what an agent creates is attributed to the App's bot, and a harness hook
blocks Bash commands that run `gh` directly.

The library in `src/` holds the logic, each function with a proved contract:

- `bash_model` and `bash`: the scanner that finds a direct invocation of `gh`
  in a Bash command line. `bash_model` states each step as a spec function;
  every method of `bash::Parser` is proved to compute its step.
- `hook`: the message that blocks a command, from the scanner's answer.
- `git`: reading `git` output, checking the Git version, and the `git config`
  commands that install and remove the commit hook, with laws on what they
  leave in the local configuration.
- `co_author`, `identity`: the co-author trailer value and when it is printed.
- `cache`, `time`: when a cached installation token is reused, and how the
  cache is described.
- `config`, `path`, `github`, `proxy`, `cli`: the configuration file and its
  `run_as_user` commands, the App JWT (its claims as JSON, signed with
  `jsonwebtoken`), API errors, the environment of `gh`, and the command line.
- `text`: conversions between strings and characters, decimal numbers,
  trimming.

`app/` is the program around it: argument handling, the environment, files,
processes, HTTP, and the TOML and JSON formats.
