# comment-warden

Comment what the code cannot say; delete the rest. The warden reads a source
file through its tree-sitter grammar, judges every comment (tagged `TRIPWIRE:`
or `CONTEXT:`, exempt, or untagged) and strips the untagged ones. A deletion is
kept only when the file's code tokens stay byte-identical.

The library is written in Verus and verified:

- `syntax` holds a tree-sitter tree as plain values (its nodes in preorder);
  `parse` reads comments, error regions and code tokens off it; `gather`,
  `attrs`, `generated`, `nix` and `script` are the parts of that reading.
- `comment` and `lang` hold what a comment and a language are.
- `strip` judges comments, builds blocks and strips them; `scan` holds the
  run totals and the exit codes; `config` the per-repo settings.
- `laws` states and proves what holds of the warden as a whole.

## Languages

Rust, Swift, Nix, Bash, HCL, Python, TypeScript, JavaScript, Go, C, C++, YAML,
TOML, CSS, SCSS, Ruby, HTML (MJML files are read as HTML) and ERB, each read
through its tree-sitter grammar crate (ERB through the embedded-template
grammar). An ERB `<%# %>` comment is judged like any other; the ruby inside
`<% %>` is never parsed, so its code regions are reported as unread, and a
comment-shaped line there is reported as unclassified rather than taken as
comment-free.

`app/` is the command line around it: argument parsing, the file walk, reading
and writing files, the settings file and the hook's JSON.
