# Mast

Mast is a wiki engine. This crate is its core, written in Verus: the
functions in `src/` carry contracts that Verus proves, except the few
marked `#[verifier::external_body]`. Those make the calls into argon2 and
std (hashing and checking passwords, the clock, `Path::parent`, Unicode
lowercasing and classes, `String::push`); Verus takes their contracts on
trust, and each one's doc comment says what it claims.

- `token`, `handlers`, `lexer`, `parser`, `renderer`: the markup converter,
  from page text to tokens, to a page tree, to HTML with a table of
  contents (`render_page`, and `try_render_page` for texts that may not
  render). `lexer_laws` proves that the tokens of a text tile it, and
  that a tag token ends at the first `>` outside quotes.
- `iac`: Inherited Access Controls, the resolution of a requester's
  effective permission for a scope; `iac_laws` proves what the access
  rules promise (the first scope naming the requester decides, closest
  scope wins, highest grant wins, inheritance, sudo bypass, deepest
  per-user override wins, an access list with distinct scopes is a map).
- `rate_limit`: the sliding-window rate limiter, with its laws;
  `rate_limit_laws` proves that over a run of hits on a clock that does
  not go back, no key is allowed more than the limit in any stretch of
  time as long as the window.
- `auth`: sign-up and log-in decisions, the user file's new sections,
  password hashing and checking with argon2.
- `pages`, `admin`, `install`, `save`, `config`: page assembly in the
  shell, the settings form, the install files, the editor's saves and the
  configuration checks.
- `chars`, `text`: character and string helpers.

`app/` is the HTTP server (axum, sessions, files, git, SQLite) that calls
the library; `tests/` exercises the library on concrete values.
