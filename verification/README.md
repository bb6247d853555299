# xmodem_transfer

XMODEM and XMODEM-1K file transfer over a serial line, with a web page as its face.

- `src/` is the library, verified with Verus
  - `xmodem/`: packets and their checks, sending, receiving, and what holds of every transfer
    (`send_laws.rs`, `receive_laws.rs`, `wait_laws.rs`) and of transfers with a peer whose
    behaviour is known (`peer_laws.rs`)
  - `protocol/`: the messages between the page and the program, and base64
  - `serial/`: port settings, how ports are shown, and what the thread that owns a port does
  - `web.rs`: what is done for the page, and what it is told
  - `cli.rs`, `text.rs`: the command line, and numbers as text
- `app/` is the program around it: threads, the serial port, the web server and JSON
- `tests/` runs the library, also against lines in memory

## How transfers are described

What a serial line answers, and when, is not known in advance. The contracts of the functions
that talk to one (`send`, `receive` and the functions that wait) speak of a transcript: the
calls on the line, the reports and the looks at the clock, in order, each with its answer.

- A call on the line is tied to it by the relations of the trait `SerialIo`.
- A report is tied to its reporter by the relation of the trait `Reporter`, and a look at the
  clock to the clock by the relations of the trait `Clock`, both in number and order
  (`send_with`, `receive_with` and the functions that wait).
- `send` and `receive` take a plain function as reporter and go by the system's clock. Neither
  keeps a trace of how often it was called, so for these two a transcript says that its reports
  and readings came from such calls, and not that there were no more.
- What the clock shows is left open.

A small machine reads the transcript event by event; it is broken by an event that the function
would not cause next, and knows the result when it is done. The functions are proved to follow
their machines, and the laws are proved of the machines: that the packets go out in order and
are acknowledged, that retries are bounded, that a damaged packet is never taken, that only a
success reports its end, that cancelling is told to the other side, and that the file arrives.

A file that ends in 0x1A loses these bytes on the way: the protocol fills the last packet with
them. A file of no bytes cannot be received.

## Serving the page

The program serves the page from `static/index.html` in the directory it is started in.
