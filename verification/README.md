# yagsdb

The verified core of YAGSDB, a Discord forum assistant that indexes GitHub
issues, Markdown documentation from Git repositories and Discord forum
threads, and suggests related results when someone opens a new forum post.

`src/` is a Verus library. Its functions carry contracts that Verus proves,
except for a few small trusted functions marked `#[verifier::external_body]`:
the calls into std (`char::is_alphanumeric`, `str::to_lowercase`,
`String::push`), chrono (RFC 3339 parsing, adding seconds, formatting) and
regex (the emoji replacement). Their contracts are taken on trust and stated
in their doc comments. The modules:

- `text`: strings as character sequences, trimming, splitting, decimal
  numbers and UTF-8 byte lengths.
- `search`: tokenisation, term and document frequencies, release-tag
  versions, and the release index that measures how far apart two points of
  a project's release history are.
- `time`: RFC 3339 timestamps, read and written by chrono.
- `config`: the configuration types the library reads, and how the
  configuration file is obtained.
- `git`: clone directories, documentation files, public URLs and
  `_meta.json` titles of documentation repositories.
- `github`: sync counters, pagination, API URLs and stored rows.
- `events`: the decisions taken on Discord events and the suggestion message.
- `sync`: the message import of a forum thread as a state machine.

`app/` is the bot itself: configuration loading, SQLite, HTTP, git
processes, the Discord client, and the floating-point scoring of search
results. It calls the library for every decision and every piece of text it
builds.
