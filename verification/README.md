# twitch_notify

A terminal notifier for Twitch: it watches the channels that a user follows,
prints which of them are live (with viewers, game, title and how long they
have been live), and speaks when a followed channel starts or ends a stream,
when the user follows or unfollows a channel, and when a favourite user goes
live.

- `src/` is the library, verified with Verus: text splitting and joining,
  decimal numbers, the saved files (credentials, favourite users), the command
  line, the live-time arithmetic, reading the Twitch API's JSON answers,
  batching and ordering streams, and what each refresh prints and says.
- `app/` is the program around it: the command line, files, HTTP requests,
  speech, and the refresh loop.
- `tests/` runs the library on concrete values.
