//! The structured record of one known serial port, as the registry holds it
//! and as listeners receive it.
use vstd::prelude::*;

verus! {

/// One serial port: its node name under /dev, its bus classification, the
/// type of the driver serving it, and its USB identity (`-1` stands for
/// "unknown or not applicable").
pub struct SerialPortInfo {
    pub name: String,
    pub subsystem: String,
    pub driver_type: String,
    pub vendor_id: i32,
    pub product_id: i32,
}

/// Mathematical image of a `SerialPortInfo`.
pub ghost struct SerialPortInfoView {
    pub name: Seq<char>,
    pub subsystem: Seq<char>,
    pub driver_type: Seq<char>,
    pub vendor_id: i32,
    pub product_id: i32,
}

impl View for SerialPortInfo {
    type V = SerialPortInfoView;

    open spec fn view(&self) -> SerialPortInfoView {
        SerialPortInfoView {
            name: self.name@,
            subsystem: self.subsystem@,
            driver_type: self.driver_type@,
            vendor_id: self.vendor_id,
            product_id: self.product_id,
        }
    }
}

impl DeepView for SerialPortInfo {
    type V = SerialPortInfoView;

    open spec fn deep_view(&self) -> SerialPortInfoView {
        self.view()
    }
}

impl Clone for SerialPortInfo {
    fn clone(&self) -> (r: Self)
        ensures
            r == *self,
    {
        SerialPortInfo {
            name: self.name.clone(),
            subsystem: self.subsystem.clone(),
            driver_type: self.driver_type.clone(),
            vendor_id: self.vendor_id,
            product_id: self.product_id,
        }
    }
}

} // verus!
