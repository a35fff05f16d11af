# vega68

An emulator for the vega68, a fantasy console built around a 68040: a tile
and sprite video processor, a triangle processing unit that draws into its
own RAM, an FM/PSG/PCM audio processor, and carts loaded from `.v68` images.

The machine's logic is a library whose functions carry contracts proved with
Verus:

- `bus` - the memory map, the device registers and the routing of CPU
  accesses, including the audio block and the TPU's command tail;
- `cart` - the cart image format and carts bundled onto an executable;
- `tpu`, `raster` - the TPU's command ring, its fills, and its textured,
  shaded, depth-tested triangles;
- `vdp` - composing the backdrop, the TPU framebuffer, the four tile planes
  and the sprites into a frame;
- `apu`, `fm`, `psg` - the audio register file, key on/off, the status word,
  the FM envelope generator and operator routing, the noise shift register;
- `system` - the per-scanline interrupt and CPU-time decisions;
- `present`, `ring`, `pacing` - scaling the frame onto a window, the host
  audio queue, and when the host runs the next frame;
- `watch`, `hash` - hot reload decisions and the frame hash of headless runs;
- `cpu` - the bookkeeping of a CPU core that is one shared global: the
  context it saves between calls, its interrupt level and its retired
  count (the program here drives the `m68k` crate's core, which keeps its
  own state, and does not use it);
- `elf`, `linkmap`, `exports` - reading the BIOS build's ELF image and linker
  map, checking that its code leaves the vector table's padding clear, and
  the `PROVIDE` lines carts link the BIOS's exports by.

`app/` is the program around it: the window, input and audio device, the
68040 core of the `m68k` crate driven a scanline at a time, and the APU's
floating-point synthesis. `tests/` exercises the library.
