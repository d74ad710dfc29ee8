# quarto_yaml

A YAML 1.2 parser that keeps the byte range of every node, and diagnostics for documents
that do not match a schema, verified with Verus.

`parse`, `parse_file` and `parse_with_parent` give a tree of `YamlWithSourceInfo`. Each node
holds its value, the place that it comes from, its tag with a place of its own, and what it
is made of. `ValidationDiagnostic` turns a validation error into JSON, into text with an
excerpt of the source, or into one compact line.

## Layout

| Module | What it holds |
| --- | --- |
| `text`, `source_text` | characters, their UTF-8 length, lines and markers |
| `extent` | how much of the source a scalar or a tag occupies |
| `scalar`, `yaml` | the values of scalars in the YAML 1.2 core schema, and YAML values |
| `source_info`, `node` | where text comes from, and values with their places |
| `event`, `stream` | the events of a stream, and reading them with `yaml_rust2` |
| `tree`, `builder`, `parser` | the tree that events describe, the builder that makes it, and the entry points |
| `laws`, `diagnostic_laws` | what holds of every tree and of every diagnostic |
| `path`, `validation_error`, `diagnostic`, `diagnostic_json` | validation errors and their diagnostics |
| `source_map`, `message`, `json` | the parts of `quarto_source_map`, `quarto_error_reporting` and `serde_json` that the library calls |

## What is proved

- A builder that takes in events one by one makes the tree that the events describe.
- Every place in a tree is a range of the text, and the text can be sliced with it.
- These places can be followed to their files, for texts within the limits of the machine.
- The value of every node agrees with what the node is made of.
- The nodes that come into a mapping are its keys and values in turn, and its tag leaves the
  mapping as it is. So it is with sequences.
- A quoted scalar's place covers its quotes, and a plain or block scalar's place all of its
  lines.
- A standard tag decides the value of a scalar, then its style, then the core schema.
- The range of a diagnostic is counted in the file that its place leads to.
- A compact diagnostic is one line, and a diagnostic as text tells its code and its title.

## What is taken on trust

Scanning YAML is the work of `yaml_rust2`, rendering that of `quarto_error_reporting`, and
finding lines in files that of `quarto_source_map`. Each call stands in a small function
whose comment says what is believed of it.

The library reads nothing from disk. Diagnostics are made and rendered from contexts that hold
the texts of their files; `are_files_settled` and `are_files_held` tell whether a context does.

`app/` holds copies of some types for serde and for `std::error::Error`, and reads the texts
of files from disk.
