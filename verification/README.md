# peaplex

A minimal stream multiplexer, verified with Verus. One duplex connection
carries any number of independent, ordered, full-duplex substreams.

- `src/` is the library. It does no I/O: a `Multiplexer` is the state of one
  session, a `Stream` a handle to one substream, and `Drive` what the task that
  owns the transport does next. Whatever waits is represented by a waker of any
  type, which the library hands back when it is to be woken. `Frame` and
  `FrameCodec` alone are the wire format.
- `app/` puts the library behind locks and `tokio`'s traits: sessions over any
  `AsyncRead + AsyncWrite`, with one background task each.
- `tests/` runs sessions over in-memory transports.

## What is proved

Every operation is specified over a mathematical model of a session
(`mplex::MultiplexerView`), and of the task that drives the transport
(`drive::DriveView`). From these follow, as theorems:

- the codec: frames round-trip, however their bytes are cut (`codec`);
- delivery: a substream that is closed cleanly delivers exactly what was sent
  on it, whatever else is on its way or is lost, and one that is torn down a
  prefix; substreams do not affect one another (`session`, `operations`,
  `delivery`, `connection`). Exact delivery is of what one handle sent, on an
  identifier that was not opened a second time meanwhile;
- teardown: what shutting down, `GoAway`, closing and dropping do, and that
  they are final (`teardown`);
- waiting: no wake-up is lost: nobody waits for what is there already, nor at
  all in a session that was shut down. A reader whose substream the peer opened
  anew waits until then. Substreams are accepted in the order in which they
  were opened (`waiting`);
- identifiers: the two sides never mint the same one, and `0` is never minted
  (`minting`);
- the task that drives the transport: bytes leave and enter in order, frames
  collected together are offered to one write, and a shutdown flushes what was
  queued (`run`).

What is relied on of `bytes` and `tokio` is stated in `buffer` and `channel`.
