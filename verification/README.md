# sdr-bullet

A software receiver for RTL2832U dongles with an R828D tuner, with its logic verified by Verus:
the register sequences that bring the hardware up and tune it, the bookkeeping of the signal
chain, and the data decoder for broadcast FM.

## Layout

- `src/` is the verified library.
  - `conversation`, `transport` and `replay` say what a driver call exchanges with the device.
  - `regs`, `rtl2832` and `r82xx` hold the register arithmetic and the two drivers;
    `receiver` and `survey` put them together.
  - `binary64`, `decimal` and `frequency` do double-precision arithmetic exactly, in integers,
    where a register value depends on its rounding.
  - `fir`, `resample`, `fft`, `nco`, `iq`, `spectrum` and `stage` decide which samples meet
    which coefficients. They are generic over the sample type and take the arithmetic as
    functions. `dft` shows that over exact arithmetic the transform is its defining sum.
  - `demod` holds the modes, the squelch and the radio data decoder.
  - `command`, `device`, `scan`, `wav` and `text` serve the terminal program.
- `app/` is ordinary Rust: floating point, USB and the browser's entry points.
- `tests/` runs the library on concrete values.

## How contracts speak of hardware

A transport keeps a ghost history of every transfer and its outcome. The contract of a driver
call says which plan of transfers it carried out and where it stopped at a failure. Work behind
the I2C repeater is bracketed: once the repeater is open it is closed again, whatever failed. Over
a transport that is steady, one that fails no transfer, the calls succeed. Laws about plans are
public proof functions beside the drivers.
