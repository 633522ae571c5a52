# on9au tools

The decisions behind a small family of personal command-line tools, as a library whose contracts
are proved with Verus, and the tools themselves around it.

| Tool | What it does |
| --- | --- |
| `cdgit` | finds a git repository under a root by a few letters and prints its path |
| `pdupload` | pushes NuGet packages to a feed, with rewritten versions where that is asked for |
| `reaper` | finds the processes that hold a lock on a file or directory, and ends them |
| `tool-installer` | installs a binary into the directory of managed binaries |
| `toolctl` | builds tools from their source repository and keeps them installed |
| `upstream-migration-planner` | orders a dependency graph into migration phases |

## Layout

- `src/` is the library. Every item in it is verified; what it takes from other crates stands behind
  wrappers that say in their doc comments what is trusted.
- `app/` reads files and the environment, runs other programs and talks to the user. It asks the
  library what to do next and hands back what came of it.
- `tests/` runs the library on concrete values.

## The library

Text, numbers and paths: `text`, `ascii`, `lowercase`, `spaces`, `digits`, `decoding`, `text_map`,
`prefixes`, `paths`, `path_order`, `path_laws`, `listing`, `order`, `sorting`, `tables`, `platform`.

Migration plans: `graph`, `renumbering`, `ranking`, `planner`, `planner_laws`, `plan_order_laws`,
`plan_text`.

Packages: `dates`, `version`, `xml`, `xml_document`, `nuspec`, `manifest`, `manifest_laws`,
`archive`, `package`, `package_laws`, `config_paths`, `upload_options`, `uploads`, `upload_laws`,
`pushing`.

Repositories: `matching`, `repos`.

Managed tools: `exe_names`, `discovery`, `layout`, `record_laws`, `installing`, `commands`,
`tool_versions`, `catalog`, `selection`, `tool_installs`, `building`, `toolctl`, `reports`.

Lock holders: `reaper`.

Paths are text, and are read by the rules of the platform that is given with them: on Windows both
slashes part components, and drives, shares, devices and verbatim prefixes are known.

Functions whose name begins with `law_` state what holds of several functions together.
