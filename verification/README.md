# fabrix_proxy

A local proxy that serves an in-house AI gateway through an OpenAI-compatible
surface: `POST /v1/chat/completions`, `GET /v1/models`, `GET /v1/models/{id}`,
`POST /v1/images/generations` and `POST /v1/images/edits`.

`src/` is the translation core, written in Verus. Its functions state in their
contracts what they return, and Verus proves it. Believed without proof are the
contracts of a few wrappers, each a call of `serde_json` (in `json`), `base64` (in
`proxy::b64`) or `uuid` (in `ids`), and of two functions of the standard library,
`String::from_utf8_lossy` (in `bytes`) and `String::push` (in `text`); the doc comment
of each says what is claimed. `app/` is the program around the library: the server, the
calls to the gateway, the files, the tray and the windows. `tests/` runs the library.

## Layout of `src/`

- `text`, `bytes`, `number`, `ids`, `json`: strings, bytes, doubles by their bit
  patterns, random ids, JSON trees. `json` is where `serde_json` is called.
- `openai`: the schema that clients see. `config`, `logstore`, `state`, `port`,
  `commands`, `tray`: settings and figures, the log of the latest calls, the state of
  the program, and what its windows are shown.
- `proxy::alias`, `proxy::models`: the gateway's models and their names.
- `proxy::fold`, `proxy::request`, `proxy::validate`, `proxy::chat_request`: from a
  client's request to the gateway's.
- `proxy::chunk`, `proxy::fields`, `proxy::decode`: the gateway's responses and its
  stream of server-sent events.
- `proxy::scan`, `proxy::think`, `proxy::tools`, `proxy::turn`, `proxy::turn_laws`:
  tool calls that the model writes into its answer or its reasoning, `<think>` blocks,
  and the assembly of a turn.
- `proxy::chat_reply`, `proxy::reply_laws`, `proxy::chat_log`, `proxy::usage`, `proxy::fingerprint`: what
  the client is answered and what the log is told.
- `proxy::images`, `proxy::image_backend`, `proxy::b64`: images.
- `proxy::gate`, `proxy::envelope`, `proxy::fabrix`: who may call, and errors.

## What is proved of the whole

- Where the gateway's stream is cut into chunks, and the answer into frames, makes no
  difference to what the client gets; nor does it whether a body that is a stream is
  read as it comes or as a whole.
- No text is lost or made up when tool calls and `<think>` blocks are taken out.
- A record of a call in the history is read back as that call, where its arguments are
  an object of at most 126 levels with whole numbers only, without the member name that
  `serde_json` reserves for raw values, and with no closing tag inside.
- Calls are numbered 0, 1, 2, … over both channels; each names a declared tool, has an
  id that is the same for the client and in what the turn keeps, and has arguments that
  are JSON, unless they hold the reserved name or more than 127 levels.
- The client is told a `finish_reason` that OpenAI defines, and `tool_calls` wherever
  there was a call.
- Turns alternate between user and assistant, and merging loses nothing.
- Aliases differ; a client finds a model under its alias, and no model under a name
  that none has.
