# wiznet_rs

A driver for the WIZnet W6100, an Ethernet chip with a TCP/IP stack of its own:
eight hardware sockets behind one SPI link. Register accesses are short polled
transfers; socket data moves by DMA and is finished from an interrupt. The whole
driver is verified with Verus.

## Layout

- `src/` is the driver.
  - `spi_dma`: the transport that a platform supplies.
  - `bus`, `batch`: what a batch of SPI operations does on the bus.
  - `address`, `transiver`, `access`: framed register and buffer accesses, and
    the record of them that the contracts speak of.
  - `ring_buffer`, `spsc_ring`, `frame`: the byte rings of a socket, and
    datagrams in them.
  - `socket_common`, `socket`, `tcp_socket`, `udp_socket`: the state machines of
    the sockets, and the handles for I/O.
  - `w6100`: the chip, its eight slots and its background step.
  - `echo`, `loopback`, `spi_ops`, `atomic_cell`, `bytes`, `error`: an echo
    service, a device for trying things out, and small parts.
  - `access_laws`, `tcp_laws`, `tcp_stream`, `udp_laws`, `chip_laws`,
    `own_blocks`, `tick_facts`: what holds of these together.
  - `wire`, `stream_laws`: the chip's end of a connection, and what goes through
    the driver and the chip together.
- `tests/` runs the driver against simulated chips.
- `app/` is a TCP echo firmware for the STM32F103.

## How to read a contract

A call that talks to the chip is described by what it asks, as a function of what
the chip answers: `carried_out(script, done)` says that the accesses `done` are
the requests of `script`, in order, up to and with the first one that failed. The
results and the new state are functions of the same answers. `sound` says what an
access does on the bus, byte by byte.

## Sharing

The driver is used through exclusive references. Firmware that drives it both
from interrupts and from the main loop puts it behind a critical section, as
`app/main.rs` does.

A socket handle is the number of one of the chip's eight slots. It is not tied to
one chip, so it is to be used with the chip that handed it out, and it must be
given back with `release`: a handle that is just dropped leaves its hardware socket
occupied.
