# protocol

A reliable message transfer protocol over UDP, verified with Verus. Two hosts shake hands, and
then send each other files and texts of up to 4 GiB. A message is announced, sent in numbered
parts of which up to 128 may await their acknowledgement at the same time, in any order, and
ended by an exchange of its own. Frames carry a CRC-32C if both hosts agree on it.

The library holds every decision of the protocol and no input or output:

- `packet`, `frame`, `wire`, `text`, `checksum`: packets and the bytes that carry them.
- `message`, `sender`, `receiver`, `timeouts`: messages and the two sides of a transfer.
- `signal`, `event_loop`: a connection, as a reaction to signals that asks for actions.
- `handshake`: how two hosts come to a connection.
- `show`: how packets are shown.
- `mock`: which packets a network within one process loses.
- `measure`: what a measured transfer tells.
- `packet_laws`, `transfer_laws`, `delivery_laws`, `timer_laws`: what holds of these as a whole,
  up to a message that arrives as it was sent though its datagrams are lost, repeated and delayed,
  as long as none of an earlier transfer in the same direction is still on its way.

`app/` runs the library on tokio: sockets, timers and channels, and a program that measures how
fast a file travels.

## Choices

- One-byte packets leave the lower half of their byte zero.
- `Fin` is sent again after ten times the time within which a packet is to be acknowledged; a
  keep-alive is to be answered within the time that a connection may be silent.
- A text is sent in parts that fit a frame of either kind. An empty text has a payload size of 1.
- A file with an empty name arrives as a text: the announcement has no other way to tell them
  apart.
- A transfer of no bytes ends as soon as its announcement is answered.
- An acknowledgement of a part that is not in flight does nothing, nor does an answer to a `Fin`
  that was not sent. An announcement that agrees with the message that is arriving is answered,
  and what has arrived is kept.
- `Nak` makes its part be sent again, whether it is in flight or not, and `InitOk` once more makes
  the first parts be sent again. Such a part awaits its acknowledgement if it did so already, or
  if it was acknowledged while others were not and the window has room for it; otherwise it is
  sent and not waited for.
- A keep-alive that is sent while another awaits its answer gives that one no more time.
