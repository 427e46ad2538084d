# KAIC backend

A local assistant that runs tasks on language models of one machine. The rules it
goes by are a library verified with Verus; the program around it does the input
and output.

## Layout

- `src/` is the library. Every function states in its contract what it returns or
  changes, and the laws that span several functions are public proof functions
  whose names begin with `law_`.
  - `router`, `capability_registry`, `resource_registry`: which models serve a
    task, and what they cost.
  - `scheduler`, `model_status`: placing models into the memory budget, handing
    them to tasks, and reporting on it.
  - `task_store`, `control_center_api`, `control_auth`: tasks, the requests on
    them, and the secret that requests have to show.
  - `model_backend`, `agent_loop`, `tool_gate`, `mcp`: the rounds between a model
    and its tools, and the permission each call needs.
  - `media`: from the words of a task to a video, with the license of every
    picture in order.
  - `telegram_bridge`: tasks and drafts by way of Telegram.
  - `text`, `numbers`, `keyed`, `clock`, `json`, `formats`: what the rest stands on.
- `app/` is the program: configuration, model server, database, HTTP, Telegram,
  tool server, downloads and rendering.
- `tests/` runs the library.

Identifiers and points in time are written and read by `uuid` and `chrono`, JSON by
`serde_json`; what is believed of those crates stands in `formats` and `json`, and
what is believed of the standard library in `text`.

`takecell` stands in `Cargo.toml` only to hold it to 0.1.1, the version with which
`teloxide` builds.
