//! A driver for the W6100 Ethernet chip: eight hardware sockets behind one SPI
//! link that moves its bulk data by DMA.
//!
//! From the wire up: `spi_dma` and `bus` say what a transfer does, `batch` cuts
//! operations into transfers, `address` and `transiver` frame register and buffer
//! accesses, and `access` keeps the record that the contracts speak of.
//! `socket_common` holds what every socket asks of the chip, `tcp_socket` and
//! `udp_socket` the two protocols, and `w6100` the chip with its eight slots. The
//! modules whose names end in `laws` say what holds of these together.
pub mod access;
pub mod access_laws;
pub mod address;
pub mod atomic_cell;
pub mod batch;
pub mod bus;
pub mod bus_laws;
pub mod bytes;
pub mod chip_laws;
pub mod chip_protocol_laws;
pub mod data_laws;
pub mod echo;
pub mod error;
pub mod frame;
pub mod loopback;
pub mod own_blocks;
pub mod ring_buffer;
pub mod socket;
pub mod socket_common;
pub mod spi_dma;
pub mod spi_ops;
pub mod spsc_ring;
pub mod stream_laws;
pub mod talk;
pub mod tcp_laws;
pub mod tcp_protocol_laws;
pub mod tcp_socket;
pub mod tcp_stream;
pub mod tick_facts;
pub mod transiver;
pub mod udp_laws;
pub mod udp_protocol_laws;
pub mod udp_socket;
pub mod w6100;
pub mod wire;
