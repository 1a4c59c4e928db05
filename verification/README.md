# libbacnet

A sans-IO BACnet/IP client, written in Verus.  The protocol logic is a pure
state machine (`stack::Stack::process`): it takes an input (a received
datagram, a timer tick or a request to send) and returns the outputs (frames
to transmit, events for the application, the next deadline).  It never opens
a socket, reads a clock or spawns a thread.

Every function in `src/` carries a contract that Verus checks:

- `codec/` — BVLC, NPDU and APDU framing and the application-tagged property
  values.  Each encoder's result equals a spec function of its input; each
  decoder returns exactly the spec decoding of its input, with the error for
  each malformed input.  Round trips are proved as lemmas.
- `services/` — the request encoders and response decoders of Who-Is, I-Am,
  ReadProperty, ReadPropertyMultiple and WriteProperty.
- `stack/` — invoke-ID pools, segmentation (sending windows and
  reassembly) and the stack itself, specified over an abstract model
  (`StackView`).  `stack/laws.rs` states the properties that span several
  inputs: a reply ends its request, a send takes a fresh invoke ID, retries
  and timeouts on a tick.

`app/` holds the Python bindings (pyo3), which only convert between Python
objects and the library's types.
