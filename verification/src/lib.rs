//! Moving a Bluetooth audio device between hosts of a local network: the
//! addresses involved, the command lines that reach a host's Bluetooth
//! controller, and how the controller's answers are read.

pub mod audio_device;
pub mod audio_source;
pub mod err;
pub mod numeral;
pub mod scan;
pub mod text;
pub mod types;
