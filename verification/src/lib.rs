pub mod codec;
pub mod device;
pub mod error;
pub mod frame;
pub mod presets;
pub mod transport;
pub mod usb;

pub use codec::Bit;
pub use device::Device;
pub use device::Recv;
pub use error::Error;
pub use transport::Transport;
pub use usb::open;
pub use usb::RusbTransport;
