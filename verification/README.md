# note-embedding

Watches a directory for notes, stores an embedding of each of them in SQLite, moves the file to a
directory for processed files, and answers searches for the notes on Telegram.

- `src/` is the library: the configuration and its checks, the texts of commands and answers,
  what the bot does with a message or the press of a button, the ranking of matches, the order of
  the steps in which a document is stored, the screening of webhook requests, the rendering of
  Markdown, the checks of the setup and the steps that manage the service. All of it is verified
  with Verus; each module states what its functions do over spec functions, and the functions whose
  names begin with `law_` state what holds of several of them together.
- `app/` is the program around the library: files, the database, the network and the terminal. What
  is computed in floating point stays there too, and the library keeps scores as bits.
- `tests/` runs the library on concrete values.
