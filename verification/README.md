# snmidi

A small network MIDI server: clients choose one of the host's MIDI ports over TCP and play on it
with UDP datagrams, either at once or queued ahead of time.

The rules of the protocol are a library, verified with [Verus](https://github.com/verus-lang/verus);
the server around it does the input and output.

## The library (`src/`)

- `data_packet`: the header of a datagram, and the parser for the records of queue packets
- `message_queue`: the messages that wait, and when each of them is due
- `session`: an established session: sequence numbers, resets, what is played at once and what when
- `client`: a session from the client's first message to its end, as events and actions
- `connection`: what is played before a connection is closed
- `ports`: the list of ports that a client can choose from
- `protocol`, `error`, `text`: the control messages, and errors in words
- `json_lines`: how lines are framed, and how they are read so that a read can be given up at any
  time
- `midi`: MIDI messages and streams, as `midly` reads and writes them; what is taken on trust of
  `midly` stands there

Each function says in its contract what it returns. Functions named `law_..` state what holds of
the protocol as a whole: that packets may be split anywhere, that delays run on from record to
record, that nothing is played before its time, that a reset forgets everything but the numbering.

## The server (`app/`)

    snmidi [--debug] [--bind 0.0.0.0] [--port 4836]

`client` performs the actions that the library decides on, `driver` talks to the host's MIDI ports,
`json_lines` is the control connection, and `protocol` holds the control messages in JSON.

## Tests (`tests/`)

They run the library on concrete datagrams: notes at once, two notes one after
the other, split and refused packets, and whole sessions.
