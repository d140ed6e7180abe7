# lite_server

The core of a model inference server, written in Verus. Requests for a model
version wait in a priority queue, are collected into batches and go to one of
the version's workers. Workers that fail are ejected for a while and tried
again. Results come back whole, as server-sent events or over a WebSocket, and
large model files are uploaded in chunks.

## Layout

`src/` is the library. Verus proves its functions against their contracts.

| Module      | What it holds                                                        |
|-------------|----------------------------------------------------------------------|
| `queue`     | the queues of all model versions, submission, draining               |
| `priority`  | the bounded priority queue                                           |
| `collector` | batches, their deadlines, requests that waited too long              |
| `batch`     | the choice of a worker for a batch, its request, answers and retries |
| `picker`    | least load, two random choices, rendezvous hashing, affinity         |
| `outlier`   | the circuit of each worker                                           |
| `health`    | active probes and the replacement of workers                         |
| `message`   | requests and responses                                               |
| `stream`    | streams of events and WebSocket streams, step by step                |
| `utf8`      | text that arrives in pieces                                          |
| `kserve`    | binary tensor output                                                 |
| `floats`    | floating-point formats, on bits                                      |
| `nearest`   | the values of the formats, and that conversions give the nearest     |
| `json`      | JSON documents                                                       |
| `upload`    | upload sessions                                                      |
| `range`     | byte ranges and entity tags                                          |
| `routes`    | the table of routes                                                  |
| `http`      | layers, admission, connections                                       |
| `ids`       | identifiers                                                          |
| `options`   | start-up settings and the slot of the running server                 |
| `text`      | texts and numbers in them                                            |
| `time`      | lengths of time and the clock                                        |

The public proof functions state what holds of several functions together: that
a batch is answered as a whole or left as a whole to be sent again, that cutting
a text into pieces makes no difference, that only the sequences of a lost worker
move.

What is not proved is marked `external_body`, `assume_specification` or
`uninterp`, and says which function of which crate it stands for.

`tests/` runs the library. `app/` is the server around it: sockets, files,
tasks and HTTP. It waits, reads and sends, and asks the library what follows.
