# myrustutils

Helpers around HTTP requests and markdown files, verified with Verus.

- `src/curl_from_reqwest.rs`: the `curl` command for a `reqwest` blocking
  request (`to_curl`, from the request's parts) and for a multipart request
  (`to_curl_multipart`, from the builder's debug text plus the form parts and
  credentials that the caller gives).
- `src/url_builder.rs`: `create_url`, which joins URL parts with the trailing
  slashes that make `Url::join` append segments.
- `src/common.rs`: `select_entries`, the filter behind `read_dir`.
- `src/markdown_headers.rs`: the headers of a markdown document, and the
  indentation and colour with which each level is listed.
- `src/text.rs`, `src/pattern.rs`: character-sequence helpers and the
  regular-expression searches.
- `app/lib.rs`: the file system and terminal side (`read_dir`,
  `print_curl`, `print_curl_multipart`, `print_markdown_headers`, and the
  `create_url!` macro).
