# shvcall

A command line client for SHV RPC: it makes single calls, runs sessions of calls that are typed
in, makes bursts of calls, and opens TCP tunnels through a broker.

`src/` is the library. It holds what the client decides and computes, as functions with contracts
that Verus proves:

- `opts`, `endpoint`: what a run does, and which broker a URL leads to
- `wire`: frames as bytes, and requests
- `cpon`, `chainpack`, `walk`: which parameters can be packed and which frames can be unpacked
  without a number that overflows
- `output`: how messages are printed
- `call`, `session`, `burst`: calls and their answers
- `tunnel`, `socket`: tunnels, the routing of their frames, and the data of one connection
- `direct`, `pending`: the client without timeouts and data numbers
- `text`, `number`: text primitives and decimal numbers

Functions named `law_*` state what holds of the library as a whole.

Packing, unpacking and Cpon come from `shvproto` and `shvrpc`, URLs from `url`. The functions that
call them are marked `external_body`; their doc comments say what is taken for granted of each
call.

`app/` is the program around the library: the command line, sockets, the terminal and the tasks.
Installed as `shvcall-direct` it runs the client without timeouts and data numbers.
