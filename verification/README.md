# safebuster

The verified core of a web fuzzer that takes a raw HTTP request (or a URL),
puts each word of a word list in place of every `FUZZ` placeholder, sends the
request and reports the responses that are not filtered.

- `src/buster/text.rs`: substring search, split, join, replace, trim and
  word/line counts over the character view of strings.
- `src/buster/cli.rs`: the HTTP method and the settings of a run.
- `src/buster/filehandle.rs`: reading a raw request file into the settings.
- `src/buster/shared.rs`: building the header map from `Name: value` lines.
- `src/buster/safebuster.rs`: placeholder substitution, the request to send
  for a word, and the response filter.
- `app/main.rs`: command line, file and network I/O, and the async task loop.
