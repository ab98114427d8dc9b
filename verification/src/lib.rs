//! Verified core of a CRSF-to-PWM converter for RC models: fixed-point
//! filters and ramps, the mapping from RC channel values to servo pulse
//! widths, and the decisions of the control loop, the status LED and the
//! temperature sensors.

pub mod fixed_point;
pub mod pt2;
pub mod ramp;
pub mod clock;
pub mod pwm;
pub mod control;
pub mod temp;
pub mod led;
pub mod rx;
