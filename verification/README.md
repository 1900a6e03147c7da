# codec

A Matrix chat client. The library (`src/`) holds its logic, verified with Verus:

- `strmap` — an insertion-ordered string-keyed map whose keys are distinct (type invariant).
- `room` — rooms, members, messages, join rules.
- `matrix` — the values of the client-server API and the kept session.
- `clock` — a message's local time of day: its timestamp in seconds, moved by the machine's offset from UTC, written `HH:MM:SS`.
- `events` — what each event means for its room; reading the rooms of a sync.
- `display` — applying events to a room, and what the window is asked to show.
- `ui` — which room the window shows; requests to the window.
- `connection` — the login/sync state machine.
- `api` — the URLs and bodies of the requests to the server.
- `client` — the client state: start from a session, save it, log in, apply syncs and history.

`app/` is the program around it: the EFL window through its C interface, HTTP through
hyper, JSON through serde, the session file, and the threads that join them.
