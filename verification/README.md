# Portside

A menu bar application for macOS that shows the servers running on the machine: which
are the user's own development servers, what project each belongs to, whether it still
answers, and how heavy it is on the machine. Development servers can be stopped; what
belongs to the system or to the user's own tools is only watched.

## Layout

- `src/` is the library, verified with Verus: parsing what `lsof` and `ps` print,
  finding projects, classifying listeners, the scan with its caches and windows, the
  stop flow with its guards, and everything that is shown. It does no I/O.
- `app/` is the application around it: the tools it runs, the connections it opens, the
  signals it sends, the file it keeps, and the window and tray (Tauri).
- `tests/` runs the library on concrete values.

## What the library promises

Each function states what it returns for every input. On top of that the library states
what holds across calls, as public proof functions; among them:

- nothing is signalled unless a listing taken right before shows the very same process
  on the very same addresses, none more and none less, and a signal reaches a process
  group only where the process leads it (`guarantees`, `platform::macos`);
- a forced stop needs a polite stop of the same server that failed within the last two
  minutes, and uses that up once it is carried out (`guarantees`);
- what is watch only is never stopped, alone or with the rest (`guarantees`);
- a bundled application is never taken for a development server, and a guess at a
  project is never shown as a fact (`domain::classify`);
- pressure is reported only after a whole unbroken window above the threshold by one and
  the same process (`scanner::pressure`);
- readings alone never redraw the list, and small differences between readings of a
  start time are never taken for another process (`scanner::state`, `scanner::refresh`);
- what quits with an application is announced by that application's name
  (`scanner::server`);
- every server is shown exactly once (`scanner::snapshot`), and every scan that succeeds
  tells its figures (`scanner::turn`);
- only programs from a closed set are run to open a project, one after the other up to
  the first that works (`guarantees`).

The one fact taken on trust is what `String::push` does (`text`).
