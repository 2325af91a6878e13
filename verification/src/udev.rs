//! Device-tree records: the properties the udev endpoints serve for one
//! device, as plain key/value pairs. Enumerating devices is I/O the caller
//! owns.

use vstd::prelude::*;

verus! {

/// The device-tree properties of one device, as name/value pairs.
pub struct DeviceUdevProperties {
    pub properties: Vec<(String, String)>,
}

/// Carries a borrowed-in value through serialization at the caller's edge.
pub struct GenericSerializer<T>(pub T);

impl<T> GenericSerializer<T> {
    /// Wraps a value for serialization.
    pub fn from(value: T) -> (r: Self)
        ensures
            r.0 == value,
    {
        GenericSerializer(value)
    }
}

} // verus!
