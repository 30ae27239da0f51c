# kit — chat message formatting

A verified library of the message formatting of a chat client: HTML
escaping, ASCII emoticons, emoji-only detection, markdown rendering on top of
`pulldown_cmark`, link detection with `regex`, and the decisions that the
message views make (CSS classes, labels, resend and edit rules, friend
requests).

Layout:

- `src/components/message/` — the library, verified with Verus:
  - `text.rs`: character-level string helpers (replace, trim, compare);
  - `html.rs`: the table of HTML escapes;
  - `emoji.rs`: the word processor, emoticons, emoji-only detection;
  - `pattern.rs`: the regular expressions and their wrappers;
  - `links.rs`: wrapping URLs and `mailto:` addresses in `<a>` tags;
  - `markdown.rs`: markdown rendering as a state machine over the parser's
    events;
  - `format.rs`: the formatting pipeline and its laws (escaping, no tag
    opened by user text);
  - `render.rs`: the decisions of the views.
- `tests/`: the tests, run against the compiled library.
- `app/`: the dioxus views and the mention step, which need the
  application's own crates.

Calls into outside crates go through small trusted wrappers whose contracts
name or state what the crate computes; everything else is proved.
