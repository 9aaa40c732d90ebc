# ugdb

A front-end for gdb: a console with its own commands and completion, a
source and assembly view, a table of watched expressions, and a socket
through which editors set breakpoints.

The library (`src/`) holds the logic, verified with Verus:

- `mi`: the gdb machine interface — parsing its output lines, writing its
  commands, building gdb's command line;
- `gdb_expression_parsing`: values as gdb prints them, and their formats;
- `completion`: the cycling completion state, the analysis of the
  expression before the cursor, gdb's command names, variable objects;
- `breakpoints`: breakpoints as gdb describes them, and the known set;
- `command_state`, `console`: the console's commands and confirmations;
- `code_window`, `expression_table`, `input_mode`, `layout`,
  `pseudo_terminal`: the decisions
  of the terminal interface;
- `ipc`: framing and dispatch of editor requests;
- `unsegen`: text attributes, space demands and line-editing widgets;
- `numbers`, `text`, `chars`, `serial`, `logging`, `options`: support.

`app/` runs the program on a plain terminal: it starts gdb, moves lines
between gdb, the user and the library, and serves the socket.
