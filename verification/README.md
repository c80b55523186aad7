# azalea_bot

An idle bot for Minecraft servers. It keeps looking in one direction and uses its
item or attacks at fixed intervals, as set in `config.yml` or on the command line.

- `src/`: the decisions of the program, verified with Verus. Every function says
  in its contract what it returns; the laws of the library are proof functions
  whose names start with `law_`.
- `app/`: the program around the library: the game client, the web console, the
  files, the terminal.
- `tests/`: tests of the library.

What is trusted rather than proved: the formatting of the local time by `chrono`
(`src/clock.rs`) and `String::push` (`src/text.rs`).

## Use

    azalea_bot <email> <alias>
        log in and keep the account in <alias>.key
    azalea_bot
        write config.yml if there is none; otherwise start every bot in it and
        serve the web console on port 14217
    azalea_bot <server> <alias> [look <yaw> <pitch>] [use [<ticks>]] [atk [<ticks>]]
        connect with the account that is kept under the alias

In `config.yml` a bot has up to three fields. `look` holds two angles. `use` and
`atk` hold a number of ticks; left blank they mean every tick, and left out they are
off.

What is typed at the terminal is said by every bot that is in the game.
