# bentos-execd

The guest agent that runs commands inside BentOS VMs for the host: one connection, one process,
TLV frames with protobuf messages or raw bytes in them.

`src/` is the library, verified with Verus. It decides and does nothing itself:

- `wire`: frames, and messages in frames
- `proto`, `protobuf`: the messages and their bytes, through prost's field functions
- `exec`: command line, environment, descriptors, signals and exit status of a process
- `session`: what to do on a connection, step by step
- `conversation`: what holds of a whole connection
- `listener`, `options`: the accept loop and the command line
- `env`, `failure`, `text`: variables, failures, numbers as text

`app/` is the program around it: sockets, processes, terminals, logging.

`tests/` runs the library on examples.

The fields of the messages have these numbers, which are chosen here:

| Message | Fields |
|---------|--------|
| `ExecRequest` | 1 `repeated string cmd`, 2 `map<string, string> env`, 3 `string cwd`, 4 `bool tty`, 5 `uint32 rows`, 6 `uint32 cols` |
| `ExecStarted` | 1 `uint32 pid` |
| `ExitStatus` | 1 `int32 code`, 2 `int32 signal` |
| `ExecError` | 1 `string error` |
| `WindowResize` | 1 `uint32 rows`, 2 `uint32 cols` |
| `Signal` | 1 `int32 signal` |
