# mini-db

A key-value database on a write-ahead log, written in Verus: what the library does is
stated in `requires` and `ensures` clauses and proved.

A server holds databases by name. Each keeps its keys in memory and logs every change
before it makes it. A log is read from its start up to the first entry that is torn or
corrupt; what stands behind is cut off.

The library in `src/` does no I/O. It is told what happened and says what to do next.

| module | what it holds |
| --- | --- |
| `wal`, `wal_laws` | the log: its entries, reading, appending, and what a crash costs |
| `index`, `checksum` | the keys in memory, and the checksum of an entry |
| `worker` | the worker of a database, from event to action |
| `manager` | the databases of a server by name |
| `server_laws` | a server as a whole, and what a restart keeps |
| `session`, `session_laws` | a client's connection: what is read, refused and carried out |
| `protocol`, `codec`, `text`, `format` | requests and responses as bytes, numbers, texts |
| `client` | the commands of the client, and how answers read |
| `bench` | the benchmark: its settings, requests and times |

`app/` is the program around it: sockets, files, tasks and the command line. It is the
server, and the client and the benchmark under the names `mini-client` and `mini-bench`.

## Protocol

A request is `(1B op|1B db_name_len|4B key_length|4B value_length|db_name|key|value)`,
without the fields that its operation has no use for:
STATS/PING/CLOSE/CREATE/INFO/DROP/GET/SET/DELETE = 0x00 to 0x08.

A response is `(1B status|4B value_length|value)`:
OK/Pong/DbNotFound/DbAlreadyExists/KeyValue/KeyNotFound/InvalidRequest/PayloadTooLarge/InternalError
= 0x00 to 0x08.

Numbers are little-endian, except in the six numbers that INFO answers with, which are
big-endian.

## What is trusted

Proofs rest on the contracts of the functions marked `external_body`. Each calls one
function of `bytes`, `crc32fast`, `rand`, `rustc_hash` or the standard library, and its
comment says what is claimed of it.
