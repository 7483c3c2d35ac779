//! Classification of device events: each add or remove event from the
//! device-node watcher is turned into at most one port change. Events that
//! cannot be classified are dropped; classification is never attempted for
//! a remove event, whose node may already be gone.
use vstd::prelude::*;

use crate::driver_type_finder::{find_spec, opt_str_view, DriverInfoView, DriverTypeFinder};
use crate::serial_port_info::{SerialPortInfo, SerialPortInfoView};
use crate::usb_identity::{usb_id_of, UsbAncestor, UsbAncestorView, UsbDeviceId};

verus! {

/// Whether a device appeared or went away.
pub enum EventType {
    Add,
    Remove,
}

/// The shape of the event: only device-node events, which carry the node's
/// path, hold actionable information.
pub enum DeviceKind {
    DeviceNode { devnode_path: String },
    Other,
}

/// Mathematical image of a `DeviceKind`.
pub ghost enum DeviceKindView {
    DeviceNode { devnode_path: Seq<char> },
    Other,
}

impl View for DeviceKind {
    type V = DeviceKindView;

    open spec fn view(&self) -> DeviceKindView {
        match self {
            DeviceKind::DeviceNode { devnode_path } => DeviceKindView::DeviceNode {
                devnode_path: devnode_path@,
            },
            DeviceKind::Other => DeviceKindView::Other,
        }
    }
}

/// What the attribute tree and the filesystem report of the device behind
/// an event: the stat outcome on its node (`None` where the metadata could
/// not be read), the basename of its own subsystem link where present, and
/// its chain of USB ancestors, nearest first.
pub struct DeviceModel {
    pub rdev: Option<u64>,
    pub subsystem: Option<String>,
    pub usb_ancestors: Vec<UsbAncestor>,
}

/// Mathematical image of a `DeviceModel`.
pub ghost struct DeviceModelView {
    pub rdev: Option<u64>,
    pub subsystem: Option<Seq<char>>,
    pub usb_ancestors: Seq<UsbAncestorView>,
}

impl View for DeviceModel {
    type V = DeviceModelView;

    open spec fn view(&self) -> DeviceModelView {
        DeviceModelView {
            rdev: self.rdev,
            subsystem: self.subsystem.deep_view(),
            usb_ancestors: self.usb_ancestors.deep_view(),
        }
    }
}

/// One event of the ordered device-event stream.
pub struct DeviceEvent {
    pub event_type: EventType,
    pub device_kind: DeviceKind,
    pub device: DeviceModel,
}

/// Mathematical image of a `DeviceEvent`.
pub ghost struct DeviceEventView {
    pub event_type: EventType,
    pub device_kind: DeviceKindView,
    pub device: DeviceModelView,
}

impl View for DeviceEvent {
    type V = DeviceEventView;

    open spec fn view(&self) -> DeviceEventView {
        DeviceEventView {
            event_type: self.event_type,
            device_kind: self.device_kind@,
            device: self.device@,
        }
    }
}

/// The port change an event classifies to.
pub enum PortChange {
    /// A supported serial port appeared; the enriched record carries its
    /// classification.
    Added(SerialPortInfo),
    /// The port of this name went away.
    Removed(String),
}

/// Mathematical image of a `PortChange`.
pub ghost enum PortChangeView {
    Added(SerialPortInfoView),
    Removed(Seq<char>),
}

impl View for PortChange {
    type V = PortChangeView;

    open spec fn view(&self) -> PortChangeView {
        match self {
            PortChange::Added(info) => PortChangeView::Added(info@),
            PortChange::Removed(name) => PortChangeView::Removed(name@),
        }
    }
}

/// View of an optional port change.
pub open spec fn port_change_view(r: Option<PortChange>) -> Option<PortChangeView> {
    match r {
        Some(c) => Some(c@),
        None => None,
    }
}

/// The terminal segment of `p` read backwards, up to the nearest slash.
pub open spec fn tail_segment(p: Seq<char>) -> Seq<char>
    decreases p.len(),
{
    if p.len() == 0 {
        Seq::empty()
    } else if p.last() == '/' {
        Seq::empty()
    } else {
        tail_segment(p.drop_last()).push(p.last())
    }
}

/// The port name a device-node path carries: its last non-empty
/// slash-separated segment; a path of slashes alone, an empty path, and a
/// path ending in a dot segment name nothing.
pub open spec fn file_name_spec(p: Seq<char>) -> Option<Seq<char>>
    decreases p.len(),
{
    if p.len() == 0 {
        None
    } else if p.last() == '/' {
        file_name_spec(p.drop_last())
    } else {
        let seg = tail_segment(p);
        if seg == seq!['.'] || seg == seq!['.', '.'] {
            None
        } else {
            Some(seg)
        }
    }
}

pub proof fn lemma_tail_segment(p: Seq<char>, i: int)
    requires
        0 <= i <= p.len(),
        forall|k: int| i <= k < p.len() ==> p[k] != '/',
        i == 0 || p[i - 1] == '/',
    ensures
        tail_segment(p) == p.subrange(i, p.len() as int),
    decreases p.len(),
{
    if p.len() == 0 || i == p.len() {
        assert(p.subrange(i, p.len() as int) =~= Seq::<char>::empty());
    } else {
        assert(p.last() != '/');
        assert forall|k: int| i <= k < p.drop_last().len() implies p.drop_last()[k] != '/' by {
            assert(p.drop_last()[k] == p[k]);
        }
        lemma_tail_segment(p.drop_last(), i);
        assert(p.drop_last().subrange(i, p.len() - 1).push(p.last()) =~= p.subrange(
            i,
            p.len() as int,
        ));
    }
}

/// Extracts the port name from a device-node path.
pub fn file_name_of(p: &str) -> (r: Option<String>)
    ensures
        match r {
            Some(name) => file_name_spec(p@) == Some(name@),
            None => file_name_spec(p@) is None,
        },
{
    let n = p.unicode_len();
    let mut j = n;
    proof {
        assert(p@.subrange(0, n as int) =~= p@);
    }
    while j > 0 && p.get_char(j - 1) == '/'
        invariant
            0 <= j <= n,
            n == p@.len(),
            file_name_spec(p@) == file_name_spec(p@.subrange(0, j as int)),
        decreases j,
    {
        proof {
            let q = p@.subrange(0, j as int);
            assert(q.last() == p@[j - 1]);
            assert(q.drop_last() =~= p@.subrange(0, j - 1));
        }
        j -= 1;
    }
    if j == 0 {
        proof {
            assert(p@.subrange(0, 0) =~= Seq::<char>::empty());
        }
        return None;
    }
    let mut i = j;
    while i > 0 && p.get_char(i - 1) != '/'
        invariant
            0 <= i <= j,
            j <= n == p@.len(),
            forall|k: int| i <= k < j ==> p@[k] != '/',
        decreases i,
    {
        i -= 1;
    }
    let ghost q = p@.subrange(0, j as int);
    proof {
        assert forall|k: int| i as int <= k < q.len() implies q[k] != '/' by {
            assert(q[k] == p@[k]);
        }
        assert(i == 0 || q[i - 1] == '/');
        lemma_tail_segment(q, i as int);
        assert(q.subrange(i as int, j as int) =~= p@.subrange(i as int, j as int));
        assert(q.last() == p@[j - 1] && q.last() != '/');
    }
    let seg = p.substring_char(i, j);
    if j - i == 1 && p.get_char(i) == '.' {
        proof {
            assert(seg@ =~= seq!['.']);
        }
        return None;
    }
    if j - i == 2 && p.get_char(i) == '.' && p.get_char(i + 1) == '.' {
        proof {
            assert(seg@ =~= seq!['.', '.']);
        }
        return None;
    }
    proof {
        if seg@ == seq!['.'] {
            assert(seg@.len() == 1 && seg@[0] == '.');
        }
        if seg@ == seq!['.', '.'] {
            assert(seg@.len() == 2 && seg@[0] == '.' && seg@[1] == '.');
        }
    }
    Some(String::from_str(seg))
}

/// What one event classifies to, and the driver-table cache afterwards:
/// events of another shape, events whose path names no port, and add events
/// whose node cannot be classified yield nothing; a remove event yields the
/// bare name; an add event of a supported TTY class yields the enriched
/// record, with the subsystem defaulting to "virtual" where the device has
/// none.
pub open spec fn classify_spec(
    cache: Seq<DriverInfoView>,
    ev: DeviceEventView,
    table: Option<Seq<char>>,
) -> (Option<PortChangeView>, Seq<DriverInfoView>) {
    match ev.device_kind {
        DeviceKindView::Other => (None, cache),
        DeviceKindView::DeviceNode { devnode_path } => match file_name_spec(devnode_path) {
            None => (None, cache),
            Some(name) => match ev.event_type {
                EventType::Remove => (Some(PortChangeView::Removed(name)), cache),
                EventType::Add => {
                    let (res, cache2) = find_spec(cache, ev.device.rdev, table);
                    match res {
                        Err(_) => (None, cache2),
                        Ok(dt) => (
                            Some(
                                PortChangeView::Added(
                                    SerialPortInfoView {
                                        name,
                                        subsystem: match ev.device.subsystem {
                                            Some(s) => s,
                                            None => "virtual"@,
                                        },
                                        driver_type: dt,
                                        vendor_id: usb_id_of(ev.device.usb_ancestors).0,
                                        product_id: usb_id_of(ev.device.usb_ancestors).1,
                                    },
                                ),
                            ),
                            cache2,
                        ),
                    }
                },
            },
        },
    }
}

/// Turns raw device events into port changes, one at a time, in arrival
/// order; owns the driver-type finder it classifies against.
pub struct DeviceEventsHandler<F: DriverTypeFinder> {
    driver_type_finder: F,
}

impl<F: DriverTypeFinder> DeviceEventsHandler<F> {
    /// The driver-table entries the handler's finder currently holds.
    pub closed spec fn finder_cache(&self) -> Seq<DriverInfoView> {
        self.driver_type_finder.cache()
    }

    /// A handler classifying against the given finder.
    pub fn new(driver_type_finder: F) -> (r: Self)
        ensures
            r.finder_cache() == driver_type_finder.cache(),
    {
        DeviceEventsHandler { driver_type_finder }
    }

    /// Classifies one event. `table` is the current driver-table text, for
    /// the one reload a lookup miss triggers; an event that cannot be
    /// classified yields `None` and the stream goes on.
    pub fn handle_device_event(&mut self, event: &DeviceEvent, table: Option<&str>) -> (r: Option<
        PortChange,
    >)
        ensures
            ({
                let (c, cache2) = classify_spec(
                    old(self).finder_cache(),
                    event@,
                    opt_str_view(table),
                );
                port_change_view(r) == c && final(self).finder_cache() == cache2
            }),
    {
        let name = match &event.device_kind {
            DeviceKind::Other => {
                return None;
            },
            DeviceKind::DeviceNode { devnode_path } => {
                match file_name_of(devnode_path.as_str()) {
                    None => {
                        return None;
                    },
                    Some(n) => n,
                }
            },
        };
        match event.event_type {
            EventType::Remove => Some(PortChange::Removed(name)),
            EventType::Add => {
                let driver_type = match self.driver_type_finder.find(event.device.rdev, table) {
                    Err(_) => {
                        return None;
                    },
                    Ok(t) => t,
                };
                let subsystem = match &event.device.subsystem {
                    Some(s) => s.clone(),
                    None => String::from_str("virtual"),
                };
                let id = UsbDeviceId::find_for_device(&event.device.usb_ancestors);
                Some(
                    PortChange::Added(
                        SerialPortInfo {
                            name,
                            subsystem,
                            driver_type,
                            vendor_id: id.vendor_id,
                            product_id: id.product_id,
                        },
                    ),
                )
            },
        }
    }
}

} // verus!
