# crsf2pwm

CRSF-to-PWM converter for RC models on the Raspberry Pi Pico, with its
decision logic verified by Verus.

- `src/` is the verified library:
  - `fixed_point`: real numbers with 16 fractional bits (arithmetic of the
    `fixed` crate's `I48F16`);
  - `pt2`: the second-order low-pass filter and its gain;
  - `ramp`: the linear ramp with separate up and down rates;
  - `clock`: clock traits and a manual clock;
  - `pwm`: RC channel to pulse width mapping, external PWM override,
    pulse decoding and PWM slice outputs;
  - `control`: one turn of the PWM control loop as a state machine (RX loss
    failsafe, filter sample-rate detection, status reports);
  - `rx`: CRSF frame reception on top of the `crsf` crate's parser;
  - `led`: status LED colours, blinking and colour correction;
  - `temp`: DS18B20 CRC-8, device search and temperature decoding.
- `app/` is the embassy firmware that runs the hardware and calls the library.
- `tests/` holds the tests of the library.
