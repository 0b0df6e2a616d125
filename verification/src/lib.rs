//! Host-side logic for talking to BES Bluetooth audio SoCs over their UART
//! boot protocol: message framing and checksums, parsing of programmer
//! blobs, the decisions taken while loading a programmer, flash read
//! planning and parsing of hexadecimal command-line values.

pub mod errors;
pub mod programmer;
pub mod message;
pub mod framing;
pub mod le;
pub mod loader;
pub mod flash_read;
pub mod hex;
