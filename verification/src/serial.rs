//! Serial-port records: what the serial endpoint serves of each discovered
//! USB port. Discovering ports and querying the device tree is I/O the
//! caller owns.

use vstd::prelude::*;

verus! {

/// What a discovered USB serial port reports of itself.
pub struct UsbPortInfo {
    /// Vendor ID.
    pub vid: u16,
    /// Product ID.
    pub pid: u16,
    /// Serial number (arbitrary string).
    pub serial_number: Option<String>,
    /// Manufacturer (arbitrary string).
    pub manufacturer: Option<String>,
    /// Product name (arbitrary string).
    pub product: Option<String>,
}

impl UsbPortInfo {
    /// Assembles the record from the port's reported values.
    pub fn new(
        vid: u16,
        pid: u16,
        serial_number: Option<String>,
        manufacturer: Option<String>,
        product: Option<String>,
    ) -> (r: UsbPortInfo)
        ensures
            r.vid == vid,
            r.pid == pid,
            r.serial_number.deep_view() == serial_number.deep_view(),
            r.manufacturer.deep_view() == manufacturer.deep_view(),
            r.product.deep_view() == product.deep_view(),
    {
        UsbPortInfo { vid, pid, serial_number, manufacturer, product }
    }
}

/// Query parameters of the serial endpoint.
pub struct SerialQuery {
    /// Whether to include device-tree properties with each port.
    pub udev: Option<bool>,
}

} // verus!
