# postal

A small server that answers HTTP POST requests by running commands. Each endpoint has a command and
an ordered list of parameters; a request has to bring exactly those fields, in that order. A
parameter may have a validator, a command that is given the values so far and accepts them with exit
code zero. The handler is given all values, and what it writes is the answer: a status code in the
first line, then headers, an empty line and the body.

* `src/` is the library, verified with Verus. It decides everything: what a command line and the
  description of an endpoint mean (`arguments`, `endpoint`), which command runs next for a request
  and what ends it (`submission`, `urlencoded`, `multipart`), how files are named (`naming`), and
  what an output is answered (`output`, `response`, `failure`). `text` holds what they share.
* `app/` is the program around it: sockets, processes, files and the log.
* `tests/` runs the library on examples.

The status codes, header names, header values and header maps are those of the `http` crate, as
`axum` hands it on.
