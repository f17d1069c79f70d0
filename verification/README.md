# debug_console

A serial-console debugger for embedded Linux targets. A server connects to a
target's console through a TCP serial port (ser2net), keeps a log of every boot,
recognises boot stages and crashes, logs in, runs shell commands, interrupts the
boot loader, and operates the target's buttons through a relay. Clients talk to it
over JSON-RPC; `dutabo` is a command-line client.

## Layout

- `src/` decides. It is written in Verus: a function states what it returns and
  how it changes its state, and that statement is proved. There are two
  exceptions: what the functions of `bridge` state of the libraries that they call
  is believed, and a function that only reads the clock promises nothing of the
  reading. It does no input or output.
- `app/` acts. It opens connections and files, runs programs, and hands the
  library what came of it.
- `tests/` runs the library on concrete values.

## Modules of the library

| Module | What it decides |
| --- | --- |
| `config`, `config_map` | what `.target.toml` means, for one target or several |
| `serial_engine`, `engine_tools` | what the engine does with output, silence, errors and requests |
| `boot_detector`, `stage_learner` | which boot stage or crash a line shows |
| `command_queue`, `marker` | where a command's output begins and ends |
| `state_manager`, `reconnect` | the target's state, its files, hangs, when to connect again |
| `log_manager` | what is logged where, and which logs are kept |
| `connection_learner` | whether several boots look alike |
| `power_control`, `relay_manager`, `restart` | the buttons, the relay's packets, resets with retries |
| `console` | the queue of writes |
| `mcp`, `mcp_tools`, `task_manager` | requests, tools, prompts, resources, long tasks |
| `lock_manager` | who holds a line |
| `dutabo`, `highlight` | the client: arguments, terminal output, flashing |
| `serial_sim` | a simulated board |
| `inotify_watcher`, `statusline_watch` | which file changes matter |
| `text`, `error` | text functions, errors |
| `bridge` | calls into other crates, whose contracts are believed |

Times are nanoseconds since a clock was started. A function that reads the clock
has a twin, named `.._at`, that takes the time as an argument and has the exact
contract.
