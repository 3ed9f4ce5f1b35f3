# tomato_plan

Plans the download of a novel from fanqienovel.com: reads what the pages and
directories of a book tell about it, lists its chapters, and decides what to ask
the site next. Written in Rust and verified with Verus.

- `src/` is the library. Its functions do no input or output; what they return is
  stated in their contracts and proved.
- `app/` asks the site and the official interface and hands the answers over. The
  program around it implements the traits in `app/host.rs`.
- `tests/` runs the library with the crates it calls (`regex`, `serde_json`,
  `reqwest`).

What is believed without proof of those crates and of the standard library stands
in functions marked `external_body`, in one `assume_specification` and in spec
functions without a body, each with a comment that says what is claimed. They are
in `text.rs`, `json.rs`, `pattern.rs` and `web.rs`.
