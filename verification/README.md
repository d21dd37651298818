# epd_rs

A driver for the E0213A367 black and white e-paper panel (128 x 250
pixels), with its logic verified by Verus.

- `src/` is the verified library: the rotated frame buffer
  (`graphics`), how frame buffer words become panel bytes (`frame`), the
  controller's command sequences (`drivers`), how a run of transfers ends
  (`transfer`), the reset pulse and the wait for the busy line
  (`interface`). The frame buffer is a `fixedbitset::FixedBitSet`, used
  through the contracts in `bitset`.
- `app/` drives the hardware through `embedded-hal` and
  `display-interface`, and offers the `embedded-graphics` drawing target.
- `tests/` runs the library on concrete panels.
