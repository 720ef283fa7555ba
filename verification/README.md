# runtime_cache

The cache of a runtime that a binary carries as a compressed archive. On its first
run the binary unpacks the archive once to a directory named after its version, and
every later run finds that directory with one probe for each candidate up to it: a
single one for a copy in the user's cache directory.

- `src/` decides everything: where to look, what to build under which name, when a
  copy is published or withdrawn, and which old versions are swept away. It is a
  state machine that names the next action and is told its outcome.
  - `path`, `names`, `suffix`: paths, directory names, and the suffix that keeps
    concurrent builds apart.
  - `protocol`: actions and replies.
  - `sweep`, `attempt`, `extraction`: the sweep of old versions, one attempt under one
    candidate directory, and the whole search.
  - `unpack`: inflating the blob.
  - `search_laws`, `publish_laws`: what holds of a search from beginning to end, and of
    the published directories while searches run side by side.
- `app/` carries the actions out on the file system.
