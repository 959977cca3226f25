# EventFS

EventFS shows an event store as a file system: key-value buckets, streams, object
stores, and views over them (event logs, tasks, agents, semantic records). This crate
holds the rules of that file system, each with a contract that Verus proves.

## Layout

- `src/` is the verified library.
  - Paths: `path` (the grammar), `mount_paths` (normal forms), `file_names`, `subjects`,
    `plan` (what an operation on a path asks for), `affected` (which paths a change
    touches), with `path_laws`, `normal_laws`, `listing_laws`, `target_laws`,
    `affected_laws`, `shown_laws`, `priority_laws` and `reason_laws`.
  - The mount: `inquiry` (conversations with the storage), `durable`, `overlay`,
    `directories`, `files`, `kinds`, `commit`, `mutations`, `handles`, `upkeep`, with
    `overlay_laws` and `mount_laws`.
  - What the kernel is told: `adapter`, `attr`, `path_cache`, `stale`, `errno`, `errors`.
  - Setting up: `cli`, `identity`, `keys`.
  - Helpers: `text`, `chars`, `numbers`, `encoding`, `json`, `jsonl`, `documents`,
    `entries`, `versions`, with `jsonl_laws`.
- `app/` is the program around it: command line, FUSE, and the connection to the
  storage.
- `tests/` runs the library over a storage in memory.

## Conversations

No operation of the library does input or output. An operation is a function of the
replies that it has so far. Where it needs one more, it stops with `Pause::Ask` and the
request; the caller carries the request out, adds the reply, and runs the operation
again. Until an operation is settled it changes nothing that the caller keeps. Contracts
state exactly which requests come in which order and what each reply leads to.

## What is trusted

Functions marked `external_body` are the edge to other crates and to the parts of the
standard library that have no specification: JSON (`json`, `documents`), UTF-8 and the
quoting of text (`encoding`), and the numbers of the C library (`errno`). One more is the
specification of `String::push` (`text`). Each says in its comment what is taken for
granted.
