# connect

A server for USB source-measure units: the CEE and the M1K. It shares the devices
among several clients over a REST interface and WebSockets. What the server decides
is a library that Verus verifies; what it does to sockets and to the bus is a thin
program around it.

## Layout

- `src/`: the library. Every type has a ghost view, and every operation says which
  view it leaves behind.
  - `text`, `digits`, `float`, `wire`, `jsonutil`: strings, numbers as bit patterns,
    bytes and documents.
  - `source`, `form`: what a channel puts out.
  - `streaming`, `config`, `capture`, `state`: a device, its samples and its state.
  - `listener`, `delivery`: what clients are sent of the samples, and when.
  - `command`, `messages`, `ws`, `rest`, `net`: what clients ask for.
  - `device`: the devices and clients of a server.
  - `usb`: the packets, commands and start-up of the hardware.
  - `effect`: what a device asks its surroundings to do, in order.
  - `laws`: properties that span several operations.
- `tests/`: the library on concrete values.
- `app/`: sockets, the bus, and floating-point arithmetic.

## How the parts meet

A device never does anything to the outside. It appends effects to a queue, and the
program carries them out in order. Where a decision needs floating-point arithmetic or
an answer of the hardware, the library says what it needs, the program finds it out,
and a second function of the library takes the result.

What is believed without proof stands in three places: `String::push` and
`String::from_utf8_lossy` in `text`, and the parser of `serde_json` in `jsonutil`.
