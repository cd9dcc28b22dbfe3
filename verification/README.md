# mc_server_wrapper

A wrapper around a Java Minecraft server, whose logic is written in Verus and
proved against its contracts.

- `src/` is the verified library:
  - `text`, `render`, `order`: byte-level scanning, number reading and
    writing, and the `String` order of names.
  - `parse`, `specific`: reading the server's console lines and the messages
    the wrapper reacts to (logins, chat, the EULA notice, loading progress).
  - `players`: the online players and the sentences about them (channel
    topic, chat command answer, the bot's status line).
  - `mention`: the spans of a Discord message and writing its mentions out by
    name.
  - `ui`: the state of the terminal interface (tabs, log pane, progress bar,
    input line).
  - `server`, `wrapper`, `bridge`: the manager's decisions on commands and
    server output, the wrapper's reactions, and the chat bridge's decision on
    each Discord message (`!mc list` is answered with who is playing) and its
    texts.
  - `logging`: the log level of each target, in the log file and on the
    terminal.
  - `mc_wrapper`: the simpler `mc-wrapper` tool and its console format.
- `app/` is a terminal front end: it runs the server process and feeds the
  library's decisions with what it reads.
- `tests/` runs the library on concrete inputs.
