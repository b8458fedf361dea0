# thther

The logic of a TCP-based, mosh-like persistent remote terminal, written in
Verus: every function of the library is proved to meet its contract. SSH is used
only to authenticate and to start the server; the terminal then runs over an
independent, encrypted TCP channel that survives network blips, and sessions can
be detached from and attached to again.

## Layout

- `src/` is the verified library. It works on plain values and does no I/O.
  - `proto/`: sealed records, frames, the handshake, control messages
  - `server/`: the replay buffer, sessions, the registry, who is let in, the
    decisions of the daemon (control requests, connections, coming up) and of
    the agent
  - `client/`: the interactive session, reconnects, bootstrap over SSH
  - `config`, `psk`, `text`, `bytes`, `random`: what the others share
- `app/` is the program around it: argument parsing, sockets, the PTY, the
  terminal, JSON and TOML.
- `tests/` run the library on concrete values.

Messages are read step by step: a reader is handed what was received so far and
says either how many bytes it still needs, or what the message is.

## What is proved

Besides what each function returns, laws relate them (`law_...`): frames arrive
in order and unchanged; resuming is exact within the retained output, and what
has been evicted is reported to the byte; every byte of output is shown exactly
once, whatever is sent again; a superseded connection never becomes current
again; a connection becomes active only once its first record proves that the
peer knows the key; a refused request changes no session and no key; a daemon is started only
where there is none; the control socket is published only once the port is bound.

## What is trusted

The contracts of the cipher, the key derivation, the hexadecimal codec, the
random number generator and `String::from_utf8` are taken from their
documentation and source. The functions that call them say in their doc comments
what is claimed.
