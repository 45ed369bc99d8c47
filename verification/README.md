# maki

The decision core of a terminal coding agent that talks to language models, verified with Verus.
The library under `src/` decides; the code under `app/` reads, sends, waits and draws.

| Module | What it decides |
| --- | --- |
| `message` | what messages, models, answers and errors hold |
| `estimate` | how many tokens messages take, how many a history may take, when a context is full |
| `compaction` | how a long history is split, sent pass by pass and replaced by a summary |
| `streaming` | what to do after each attempt at a request, and what of it is passed on and recorded |
| `config`, `llama_cpp` | which servers and keys requests go to, and what is asked of a model |
| `llama_cpp_server` | the requests to a llama.cpp server and what its answers mean |
| `llama_cpp_sse` | the lines of a server's event stream, and how far a model has been loaded |
| `context_windows` | the context windows that providers have reported |
| `status_bar`, `step_slider`, `progress_bar` | what the terminal shows |
| `text`, `order`, `number`, `json`, `span` | text, its order, rounding, JSON values, styled text and areas |

What is taken on trust is marked `external_body`: the texts and bytes that `serde_json` writes
(`json`), the width of text by `unicode-width` and the parts of a row by `ratatui` (`span`).
