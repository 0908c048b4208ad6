# tah

A command-line chat between two people over a shared GitHub Gist. Each
person appends JSON lines (`{"id", "ts", "text"}`) to a file of their own,
`<name>.jsonl`; reading merges both files into one conversation.

- `src/` is the verified core (Verus): configuration checks, the line
  framing of message files and how a record is appended, the merged and
  ordered conversation, the default window with its unread handling, the
  rendered layout and the choice of each line's time label, the API's status and retry decisions, decimal text of
  timestamps, and command-line dispatch.
- `app/` is the binary around it: argument parsing, files, HTTP, terminal
  colours, and the serde forms of the data.
