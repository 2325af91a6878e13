//! Camera configuration requests: the payloads of the video endpoints.
//! Talking to a video device is I/O the caller owns.

use vstd::prelude::*;

verus! {

/// A request for the frame intervals a camera supports.
pub struct CameraIntervalRequest {
    /// Device path of the camera.
    pub camera: String,
    /// Four-character code of the pixel format.
    pub fourcc: [u8; 4],
    /// Width and height asked about.
    pub resolution: (u32, u32),
}

/// One camera-control value.
pub enum Value {
    Integer(i64),
    Bool(bool),
    Text(String),
}

/// One camera control with the value to set.
pub struct ControlValue {
    /// Driver identifier of the control.
    pub id: u32,
    /// The value to set it to.
    pub value: Value,
}

/// A request to set one control of one camera.
pub struct ConfigureCamera {
    /// Device path of the camera.
    pub camera: String,
    /// The control and its new value.
    pub control: ControlValue,
}

} // verus!
