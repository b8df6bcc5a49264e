# cubil

Tasks as Markdown files in a `.cubil/` directory: each subdirectory is a
status (`backlog/`, `doing/`, `done/`, ...), a task is a `<slug>.md` file
with optional `---` frontmatter, and roadmaps in `.cubil/roadmaps/` list
task slugs under `## Milestone: <name>` headings.

The library in `src/` is written in Verus. Its functions state in their
contracts what they return, over a model of text as `Seq<char>`, and Verus
proves them:

- `text`: trimming, `split_inclusive('\n')` and `lines()`, decimals, text order.
- `frontmatter`: reading and writing the `---` block; what is written reads back.
- `slug`: slugs from titles, finding a task by slug, which folders and files are tasks.
- `roadmap`: task reference lines, milestone and title headings.
- `slug_map`: a map keyed by slug in which the first entry wins.
- `commands`: what each command decides — listing order and rendering, new
  task files and dates, status moves, `$EDITOR` splitting, and the roadmap
  commands (`add`, `list`, `new`, `next`, `show`).
- `updater`: release targets, version comparison, the update cache, release
  URLs and the release API's answer.

`app/main.rs` is the command-line program around it: argument parsing, the
file system, the network, and printing.
