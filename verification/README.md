# mindcache

MindCache is a filesystem-first personal knowledge base: a vault of Markdown
files with a small front matter block, sorted into `inbox/`, `todo/`,
`ideas/`, `notes/` and `archive/`, and a command `mind` that creates, checks,
searches, marks and publishes them as a static dashboard.

The library under `src/` is written in Verus. Each function states what it
returns in its `requires` / `ensures` contract and Verus proves it; the laws
that tie several functions together are public proof functions named `law_*`.

- `text` — sequences of characters: trimming, lines, searching, ordering.
- `frontmatter` — finding the front matter block and reading its fields.
- `state`, `state_laws` — `done` / `reopen` as rewrites of the block, and
  what the rewritten file reads back as.
- `dates` — reading `created` stamps with chrono and their short forms.
- `entry` — entries, file names, slugs, the per-entry check and sorting.
- `escape` — HTML and JSON escaping, and what a reader gets back.
- `render`, `pages`, `dashboard`, `site_build` — the dashboard's HTML, from
  single rows up to the whole set of files a build writes.
- `site`, `lists`, `tags` — counts, the lists the pages show and their order.
- `cli`, `config` — command line arguments and the config file's `vault`.
- `newentry` — the file name and text of a new entry.
- `report` — the vault check's report and the search.
- `serve` — request targets, percent decoding and response heads.

`app/` holds the `mind` program: argument handling, the file system, the
clock, the network, and the two drawings of the dashboard that use floating
point. `tests/` runs the library on concrete values.

The dashboard's style sheet and fonts are read at run time from the
directory named by `MIND_ASSETS`, or from `assets/` beside the executable.
