//! The verified core of the vega68 console emulator: the memory map and
//! bus, the cart image format, the tile/sprite video processor, the
//! triangle processing unit, the audio register file and FM envelope logic,
//! the line-interrupt rules, the host-side presentation and audio-queue
//! logic, and the readers of the BIOS build's outputs.

pub mod apu;
pub mod bus;
pub mod cart;
pub mod elf;
pub mod exports;
pub mod fm;
pub mod linkmap;
pub mod system;
pub mod pacing;
pub mod present;
pub mod psg;
pub mod hash;
pub mod tpu;
pub mod raster;
pub mod ring;
pub mod vdp;
pub mod watch;
pub mod cpu;

pub use hash::fnv1a64;
