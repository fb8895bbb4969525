# dynamic_domain_set

A set of domain rules that can be changed while names are looked up in it. The
rules live in a text file, one per line; lookups go by a compiled snapshot of
them.

`src/` is the verified library:

- `text`, `rules`: the rule language and its canonical text
- `storage`: the text of a rule file
- `patterns`, `matcher`, `name`, `snapshot`: compiling rules and matching names
- `state`, `listing`: the ordered rule list and its pages
- `backend`, `requests`: the domain set and the answers to requests
- `worker`: the order in which the file and the rules change
- `laws`: what holds of all of these together
- `fixtures`: small values for trying the set out

What is trusted is in `patterns` (the `regex` crate) and one line of `text`
(`String::push`).

`app/` is the service around the library: the file, the queue, the worker task
and the lock-free cell that lookups read.
