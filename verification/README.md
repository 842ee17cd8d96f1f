# song_class

The classroom server of song-class (爽課啦～): teachers run it on their
desktop, students join from a browser, and the teacher keeps the roster,
the contact book and its LINE rich menu in one place.

The logic of the server is a Verus library whose functions carry
`requires`/`ensures` contracts proved by Verus:

- `src/text.rs` – whitespace trimming as `str::trim` does it, decimal
  rendering, UTF-8 byte lengths and substring search.
- `src/api.rs` – how a refused request is answered.
- `src/roster.rs` – classrooms and students: display names, credential
  masking, classroom updates and deletions, roster saves.
- `src/roster_save.rs` – the writes of a roster save, proved to leave
  exactly the requested students without ever giving two students one seat
  (so two students can swap seats).
- `src/sessions.rs` – the connected students keyed by connection id:
  joining, leaving, forced logout, admission to a free seat, the refresh
  after a roster save.
- `src/tasks.rs` – contact-book task validation, the task list query and
  completion derived from submissions.
- `src/line_sync.rs` – the contact-book text placed behind the LINE rich
  menu (at most 300 bytes, room kept for the note that ends a text cut
  short), the steps of publishing it (update the stored menu; when LINE
  reports it gone, delete it and build a new one) and the messages for
  each outcome.
- `src/schema.rs` – the catalog of versioned migrations and what start-up
  does with a new, legacy or current database.
- `src/server.rs` – the server's state, addresses, redirects and the
  classification of realtime messages.

Laws that relate several operations are public `law_*` proof functions next
to the functions they speak of.

`app/` holds what Verus does not check: the HTTP routes (axum), the
realtime sockets, SQLite access (rusqlite), the LINE API calls (reqwest)
and JSON shapes (serde). It calls the library for every decision.

`tests/` exercises the library on concrete values.
