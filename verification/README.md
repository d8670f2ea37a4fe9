# The Mule

The Mule runs end-to-end tests of peer-to-peer programs. A test is described by one file: the
machines to use, the peers to run on them, and the commands to send to the peers at given times. The
Mule brings the Docker images to the machines, starts one container for each peer, watches what the
peers report through Redis, sends them their commands, and stops and removes everything in the end.

What it decides is in a library, `src/`, which is verified with [Verus](https://github.com/verus-lang/verus):
every function there says in its contract what it computes. What it does to the outside world is in
`app/`, which asks the library what to do and then does it.

| Module | What it holds |
| --- | --- |
| `config`, `assignment` | the test file with its defaults; which peer runs on which host and port |
| `client`, `reference_peer` | what a peer under test needs: keys, commands, status and log messages |
| `peer_monitor`, `orchestrator` | what is known of the peers; waiting for them; introducing them |
| `run` | the course of a run, from the first command to the last peer that stops |
| `docker_mgr`, `distribution`, `containers` | images and where they are missing; containers |
| `ssh_mgr`, `redis_mgr` | logging in on hosts; the local Redis server |
| `ui`, `console` | the screen, line by line; log lines |
| `text`, `text_map`, `order`, `show` | texts, maps with text keys, sorting, lists in messages |
| `outside` | calls into other crates, with what is taken for granted of them |

The promises that span several functions, such as that no two peers on a host share a port or that a
run comes to an end, are public proof functions beside the functions that they are about.

The tests in `tests/` run the library on examples.
