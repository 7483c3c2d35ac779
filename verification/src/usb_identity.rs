//! USB vendor/product identification: walks the chain of a device's USB
//! ancestors in the attribute tree, nearest first, and takes the first
//! ancestor with a readable vendor id. Absence of data is no failure: it
//! yields `-1` for either number.
use vstd::prelude::*;

use crate::text::{parse_hex_i32, trim_spec, parse_hex_i32_str, trim_str};

verus! {

/// One ancestor of the device whose subsystem is "usb", reduced to the two
/// attributes the identification reads: the raw text of its `idVendor` and
/// `idProduct` files, where present.
pub struct UsbAncestor {
    /// Text of the ancestor's vendor-id attribute file.
    pub vendor_attr: Option<String>,
    /// Text of the ancestor's product-id attribute file.
    pub product_attr: Option<String>,
}

/// Mathematical image of a `UsbAncestor`.
pub ghost struct UsbAncestorView {
    pub vendor_attr: Option<Seq<char>>,
    pub product_attr: Option<Seq<char>>,
}

impl View for UsbAncestor {
    type V = UsbAncestorView;

    open spec fn view(&self) -> UsbAncestorView {
        UsbAncestorView {
            vendor_attr: self.vendor_attr.deep_view(),
            product_attr: self.product_attr.deep_view(),
        }
    }
}

impl DeepView for UsbAncestor {
    type V = UsbAncestorView;

    open spec fn deep_view(&self) -> UsbAncestorView {
        self.view()
    }
}

/// A USB device identity; `-1` stands for "unknown or not applicable".
pub struct UsbDeviceId {
    pub vendor_id: i32,
    pub product_id: i32,
}

/// An attribute read as a hexadecimal number: present, and after trimming
/// whitespace a non-empty string of hex digits within `i32`.
pub open spec fn read_hex_attr_spec(attr: Option<Seq<char>>) -> Option<i32> {
    match attr {
        None => None,
        Some(s) => parse_hex_i32(trim_spec(s)),
    }
}

/// The identity the ancestor chain yields: the first ancestor with a
/// readable vendor id wins, its product id defaulting to `-1`; a chain with
/// no readable vendor id yields `(-1, -1)`.
pub open spec fn usb_id_of(anc: Seq<UsbAncestorView>) -> (i32, i32)
    decreases anc.len(),
{
    if anc.len() == 0 {
        (-1i32, -1i32)
    } else {
        match read_hex_attr_spec(anc[0].vendor_attr) {
            Some(v) => (
                v,
                match read_hex_attr_spec(anc[0].product_attr) {
                    Some(p) => p,
                    None => -1i32,
                },
            ),
            None => usb_id_of(anc.drop_first()),
        }
    }
}

/// Reads an attribute as a hexadecimal number, trimming surrounding
/// whitespace; a missing or malformed attribute yields `None`.
pub fn read_hex_attr(attr: &Option<String>) -> (r: Option<i32>)
    ensures
        r == read_hex_attr_spec(attr.deep_view()),
{
    match attr {
        None => None,
        Some(s) => parse_hex_i32_str(trim_str(s.as_str())),
    }
}

impl UsbDeviceId {
    /// Resolves the identity of a device from its chain of USB ancestors,
    /// nearest first; never fails.
    pub fn find_for_device(ancestors: &Vec<UsbAncestor>) -> (r: UsbDeviceId)
        ensures
            (r.vendor_id, r.product_id) == usb_id_of(ancestors.deep_view()),
    {
        let ghost anc = ancestors.deep_view();
        let n = ancestors.len();
        let mut i: usize = 0;
        proof {
            assert(anc.subrange(0, n as int) =~= anc);
        }
        while i < n
            invariant
                0 <= i <= n,
                n == ancestors.len(),
                anc == ancestors.deep_view(),
                usb_id_of(anc) == usb_id_of(anc.subrange(i as int, n as int)),
            decreases n - i,
        {
            let ghost rest = anc.subrange(i as int, n as int);
            proof {
                assert(rest[0] == anc[i as int]);
                assert(rest.drop_first() =~= anc.subrange(i as int + 1, n as int));
                assert(anc[i as int] == ancestors@[i as int]@);
            }
            let a = &ancestors[i];
            match read_hex_attr(&a.vendor_attr) {
                Some(vendor_id) => {
                    let product_id = match read_hex_attr(&a.product_attr) {
                        Some(p) => p,
                        None => -1,
                    };
                    return UsbDeviceId { vendor_id, product_id };
                },
                None => {},
            }
            i += 1;
        }
        proof {
            assert(anc.subrange(i as int, n as int) =~= Seq::<UsbAncestorView>::empty());
        }
        UsbDeviceId { vendor_id: -1, product_id: -1 }
    }
}

} // verus!
