# stryke-app

App automation for stryke: call a running GUI app's verbs, read its state and subscribe to its
events over the GUI automation bus, and run one transaction over several apps. The library is
written in Verus: its functions carry contracts, and Verus proves them.

## Layout

- `src/` is the verified library. It does no input or output: it decides what goes over a
  connection and what an answer means.
- `app/` is ordinary Rust around it: sockets and named pipes, the process-wide pool and registry,
  and the C exports.
- `tests/` runs the library against fake apps in memory.

## Protocol

Newline-delimited JSON over the app's endpoint. A request carries a fresh `id`; the client reads
until the matching `reply` and keeps the `event` frames in between for `poll`. A transport failure
is met by connecting once more and sending the request again, after joining an open transaction
on the fresh connection; the events that were kept are kept on. An app's refusal is an answer: it
is not retried, and a refused `begin` opens nothing.
To open an app is to dial it, so the answer tells whether the app can be reached now.

## Transactions over several apps

The first call to an app sends `begin`, so that the app refuses a verb that it cannot undo before
the verb runs. Every call that succeeds is journaled. `abort` undoes the journal from the last
step to the first, over all apps, and then sends each app one `commit`, which releases the app's
own journal so that no inverse runs twice. A compensation that fails does not stop the unwind; it
is reported under `failed` and again under its app.

## What is proved, and what is trusted

The contracts stand at the functions; what relates several of them stands in `src/laws.rs`,
`src/exchange_laws.rs` and `src/saga_laws.rs`. What is trusted is the reading and writing of JSON
by `serde_json`, in `src/json.rs`.
