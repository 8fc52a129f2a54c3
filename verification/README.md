# bbn

Tools for the blog at <https://blog.bouzuya.net/>: `bbn`, which lists, shows
and publishes the posts of a data directory `YYYY/MM/YYYY-MM-DD(-ID).{json,md}`,
and `bejson`, a reader of JSON with command strings `` $`...` ``.

The library in `src/` is verified with Verus. Its modules:

- `json_grammar`, `json`, `json_laws`: the bejson grammar as spec functions,
  its readers and printer, and the proof that a printed value reads back as
  itself.
- `query`, `query_laws`: queries `date:...`, their matchers, and the proof
  that the walk of the data directory misses no selected post.
- `date`, `date_like`, `date_range`, `timestamp`, `checked_timestamp`,
  `entry_id`, `entry`: dates, week dates, date-times (one timestamp type takes
  any `i64`, the other only the seconds from 1970 to 9999) and entries.
- `post`, `repository`, `names`, `listing`, `site`: which files hold which
  posts, their order, and what `list`, `view`, `json` and `sitemap-xml` make of
  them.
- `hatena_blog`, `hatena_sync`, `content_diff`: the decisions of the commands
  that keep the blog and Hatena Blog in step.
- `config`, `command`, `text`: configuration paths, command arguments and
  string helpers.

`app/` holds the programs: command lines, files, and printing.
