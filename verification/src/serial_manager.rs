//! The registry of known serial ports and its service surface: it consumes
//! classified port changes, fans notifications out to subscribed listeners,
//! and answers list, subscribe, unsubscribe and open requests with access
//! control.
use vstd::prelude::*;

use crate::device_events_handler::{
    classify_spec, DeviceEvent, DeviceEventsHandler, PortChange, PortChangeView,
};
use crate::driver_type_finder::{opt_str_view, DriverTypeFinder};
use crate::serial_port_info::{SerialPortInfo, SerialPortInfoView};
use crate::text::{dec_of, dec_of_i32, i32_to_string, str_eq, u64_to_string};

verus! {

/// Caller identity allowed unrestricted access: root, for testing.
pub const AID_ROOT: u32 = 0;

/// Caller identity allowed unrestricted access: the system server.
pub const AID_SYSTEM: u32 = 1000;

/// The read-only open flag, as the kernel defines it.
pub const FLAG_O_RDONLY: i32 = 0;

/// The write-only open flag, as the kernel defines it.
pub const FLAG_O_WRONLY: i32 = 1;

/// The read-write open flag, as the kernel defines it.
pub const FLAG_O_RDWR: i32 = 2;

/// The flag that suppresses controlling-terminal acquisition, as the kernel
/// defines it.
pub const FLAG_O_NOCTTY: i32 = 256;

/// A typed failure of the service surface.
#[derive(Debug, Clone, Copy, PartialEq, Eq, Structural)]
pub enum SerialError {
    /// The caller is neither the system server nor root.
    PermissionDenied,
    /// The listener handle is already subscribed.
    DuplicateRegistration,
    /// The listener handle was never subscribed.
    ListenerNotFound,
    /// The port name is not currently registered.
    InvalidArgument,
    /// Opening the device node failed with this OS error code.
    OpenFailed { errno: i32 },
    /// The terminal-exclusivity control call failed with this OS error
    /// code.
    ControlFailed { errno: i32 },
}

/// What an accepted open request asks of the device layer: the node path,
/// the read/write intent taken from the caller's flags, the flags to pass
/// through with controlling-terminal acquisition unconditionally
/// suppressed, and the exclusivity to set or clear afterwards.
pub struct OpenPlan {
    pub path: String,
    pub read: bool,
    pub write: bool,
    pub flags: i32,
    pub exclusive: bool,
}

/// Mathematical image of an `OpenPlan`.
pub ghost struct OpenPlanView {
    pub path: Seq<char>,
    pub read: bool,
    pub write: bool,
    pub flags: i32,
    pub exclusive: bool,
}

impl View for OpenPlan {
    type V = OpenPlanView;

    open spec fn view(&self) -> OpenPlanView {
        OpenPlanView {
            path: self.path@,
            read: self.read,
            write: self.write,
            flags: self.flags,
            exclusive: self.exclusive,
        }
    }
}

/// What a listener is told.
pub enum PortEvent {
    /// The port of this record appeared.
    Connected(SerialPortInfo),
    /// The port of this record went away; the record is the one captured
    /// before removal.
    Disconnected(SerialPortInfo),
}

/// Mathematical image of a `PortEvent`.
pub ghost enum PortEventView {
    Connected(SerialPortInfoView),
    Disconnected(SerialPortInfoView),
}

impl View for PortEvent {
    type V = PortEventView;

    open spec fn view(&self) -> PortEventView {
        match self {
            PortEvent::Connected(info) => PortEventView::Connected(info@),
            PortEvent::Disconnected(info) => PortEventView::Disconnected(info@),
        }
    }
}

/// One notification owed to one listener.
pub struct Notification {
    pub handle: u64,
    pub event: PortEvent,
}

/// Mathematical image of a `Notification`.
pub ghost struct NotificationView {
    pub handle: u64,
    pub event: PortEventView,
}

impl View for Notification {
    type V = NotificationView;

    open spec fn view(&self) -> NotificationView {
        NotificationView { handle: self.handle, event: self.event@ }
    }
}

impl DeepView for Notification {
    type V = NotificationView;

    open spec fn deep_view(&self) -> NotificationView {
        self.view()
    }
}

/// Mathematical image of the manager: the registry in insertion order and
/// the subscribed listener handles in subscription order.
pub ghost struct ManagerView {
    pub ports: Seq<SerialPortInfoView>,
    pub listeners: Seq<u64>,
}

/// No two registry entries share a name.
pub open spec fn unique_names(ports: Seq<SerialPortInfoView>) -> bool {
    forall|i: int, j: int| 0 <= i < j < ports.len() ==> ports[i].name != ports[j].name
}

/// No two subscriptions share a handle.
pub open spec fn unique_handles(ls: Seq<u64>) -> bool {
    forall|i: int, j: int| 0 <= i < j < ls.len() ==> ls[i] != ls[j]
}

/// The manager's invariant.
pub open spec fn wf_view(m: ManagerView) -> bool {
    unique_names(m.ports) && unique_handles(m.listeners)
}

/// Index of the first registry entry of this name, or the length where
/// none has it.
pub open spec fn port_index(ports: Seq<SerialPortInfoView>, name: Seq<char>) -> int
    decreases ports.len(),
{
    if ports.len() == 0 {
        0
    } else if ports[0].name == name {
        0
    } else {
        1 + port_index(ports.drop_first(), name)
    }
}

/// Whether some registry entry has this name.
pub open spec fn has_port(ports: Seq<SerialPortInfoView>, name: Seq<char>) -> bool {
    port_index(ports, name) < ports.len()
}

/// The registry entry of this name, where present.
pub open spec fn lookup_port(ports: Seq<SerialPortInfoView>, name: Seq<char>) -> Option<
    SerialPortInfoView,
> {
    if has_port(ports, name) {
        Some(ports[port_index(ports, name)])
    } else {
        None
    }
}

/// The registry after inserting `info`: an entry of the same name is
/// overwritten in place, else `info` is appended.
pub open spec fn upsert_port(
    ports: Seq<SerialPortInfoView>,
    info: SerialPortInfoView,
) -> Seq<SerialPortInfoView> {
    if has_port(ports, info.name) {
        ports.update(port_index(ports, info.name), info)
    } else {
        ports.push(info)
    }
}

/// The registry after removing the entry of this name; absence is a no-op.
pub open spec fn remove_port(ports: Seq<SerialPortInfoView>, name: Seq<char>) -> Seq<
    SerialPortInfoView,
> {
    if has_port(ports, name) {
        let k = port_index(ports, name);
        ports.subrange(0, k) + ports.subrange(k + 1, ports.len() as int)
    } else {
        ports
    }
}

/// Index of the first subscription of this handle, or the length where
/// none has it.
pub open spec fn handle_index(ls: Seq<u64>, h: u64) -> int
    decreases ls.len(),
{
    if ls.len() == 0 {
        0
    } else if ls[0] == h {
        0
    } else {
        1 + handle_index(ls.drop_first(), h)
    }
}

/// Whether this handle is subscribed.
pub open spec fn has_handle(ls: Seq<u64>, h: u64) -> bool {
    handle_index(ls, h) < ls.len()
}

/// The subscriptions after removing this handle; absence is a no-op.
pub open spec fn remove_handle(ls: Seq<u64>, h: u64) -> Seq<u64> {
    if has_handle(ls, h) {
        let k = handle_index(ls, h);
        ls.subrange(0, k) + ls.subrange(k + 1, ls.len() as int)
    } else {
        ls
    }
}

/// Whether the caller may use the mutating service operations: only the
/// system server, or root while testing.
pub open spec fn uid_permitted(uid: u32) -> bool {
    uid == AID_SYSTEM || uid == AID_ROOT
}

/// Outcome of a subscribe request: a duplicate handle is rejected, not
/// replaced, and the set is then left untouched.
pub open spec fn subscribe_spec(ls: Seq<u64>, uid: u32, h: u64) -> (Result<(), SerialError>, Seq<
    u64,
>) {
    if !uid_permitted(uid) {
        (Err(SerialError::PermissionDenied), ls)
    } else if has_handle(ls, h) {
        (Err(SerialError::DuplicateRegistration), ls)
    } else {
        (Ok(()), ls.push(h))
    }
}

/// Outcome of an unsubscribe request: a handle never subscribed fails with
/// `ListenerNotFound`.
pub open spec fn unsubscribe_spec(ls: Seq<u64>, uid: u32, h: u64) -> (Result<
    (),
    SerialError,
>, Seq<u64>) {
    if !uid_permitted(uid) {
        (Err(SerialError::PermissionDenied), ls)
    } else if !has_handle(ls, h) {
        (Err(SerialError::ListenerNotFound), ls)
    } else {
        (Ok(()), remove_handle(ls, h))
    }
}

/// The connect notifications one added port owes: one per listener, in
/// subscription order.
pub open spec fn connect_notes(ls: Seq<u64>, info: SerialPortInfoView) -> Seq<NotificationView> {
    Seq::new(ls.len(), |i: int| NotificationView { handle: ls[i], event: PortEventView::Connected(info) })
}

/// The disconnect notifications one removed port owes: one per listener,
/// in subscription order, carrying the record captured before removal.
pub open spec fn disconnect_notes(ls: Seq<u64>, info: SerialPortInfoView) -> Seq<
    NotificationView,
> {
    Seq::new(ls.len(), |i: int| NotificationView { handle: ls[i], event: PortEventView::Disconnected(info) })
}

/// How one port change moves the manager, and the notifications it owes:
/// an add overwrites or appends the record and notifies every listener; a
/// remove of an absent name is a no-op, and a remove of a present name
/// drops it and notifies every listener with the captured record.
pub open spec fn apply_change(m: ManagerView, c: PortChangeView) -> (ManagerView, Seq<
    NotificationView,
>) {
    match c {
        PortChangeView::Added(info) => (
            ManagerView { ports: upsert_port(m.ports, info), listeners: m.listeners },
            connect_notes(m.listeners, info),
        ),
        PortChangeView::Removed(name) => match lookup_port(m.ports, name) {
            None => (m, Seq::<NotificationView>::empty()),
            Some(info) => (
                ManagerView { ports: remove_port(m.ports, name), listeners: m.listeners },
                disconnect_notes(m.listeners, info),
            ),
        },
    }
}

pub proof fn lemma_port_index_le(ports: Seq<SerialPortInfoView>, name: Seq<char>)
    ensures
        0 <= port_index(ports, name) <= ports.len(),
        port_index(ports, name) < ports.len() ==> ports[port_index(ports, name)].name == name,
        forall|k: int| 0 <= k < port_index(ports, name) ==> ports[k].name != name,
    decreases ports.len(),
{
    if ports.len() > 0 && ports[0].name != name {
        lemma_port_index_le(ports.drop_first(), name);
        assert forall|k: int| 0 <= k < port_index(ports, name) implies ports[k].name != name by {
            if k > 0 {
                assert(ports.drop_first()[k - 1] == ports[k]);
            }
        }
    }
}

pub proof fn lemma_port_index_exact(ports: Seq<SerialPortInfoView>, name: Seq<char>, m: int)
    requires
        0 <= m <= ports.len(),
        forall|k: int| 0 <= k < m ==> ports[k].name != name,
        m == ports.len() || ports[m].name == name,
    ensures
        port_index(ports, name) == m,
    decreases m,
{
    if m > 0 {
        lemma_port_index_exact(ports.drop_first(), name, m - 1);
    }
}

pub proof fn lemma_handle_index_le(ls: Seq<u64>, h: u64)
    ensures
        0 <= handle_index(ls, h) <= ls.len(),
        handle_index(ls, h) < ls.len() ==> ls[handle_index(ls, h)] == h,
        forall|k: int| 0 <= k < handle_index(ls, h) ==> ls[k] != h,
    decreases ls.len(),
{
    if ls.len() > 0 && ls[0] != h {
        lemma_handle_index_le(ls.drop_first(), h);
        assert forall|k: int| 0 <= k < handle_index(ls, h) implies ls[k] != h by {
            if k > 0 {
                assert(ls.drop_first()[k - 1] == ls[k]);
            }
        }
    }
}

pub proof fn lemma_handle_index_exact(ls: Seq<u64>, h: u64, m: int)
    requires
        0 <= m <= ls.len(),
        forall|k: int| 0 <= k < m ==> ls[k] != h,
        m == ls.len() || ls[m] == h,
    ensures
        handle_index(ls, h) == m,
    decreases m,
{
    if m > 0 {
        lemma_handle_index_exact(ls.drop_first(), h, m - 1);
    }
}

/// The fields an accepted open request gets: the caller's read/write intent
/// bits, with controlling-terminal acquisition unconditionally suppressed.
pub open spec fn open_plan_spec(name: Seq<char>, flags: i32, exclusive: bool) -> OpenPlanView {
    OpenPlanView {
        path: "/dev/"@ + name,
        read: (flags & (FLAG_O_RDONLY | FLAG_O_RDWR)) != 0,
        write: (flags & (FLAG_O_WRONLY | FLAG_O_RDWR)) != 0,
        flags: flags | FLAG_O_NOCTTY,
        exclusive,
    }
}

/// Checks that the caller is the system server, or root while testing.
pub fn check_permissions(calling_uid: u32) -> (r: Result<(), SerialError>)
    ensures
        r == (if uid_permitted(calling_uid) {
            Ok::<(), SerialError>(())
        } else {
            Err::<(), SerialError>(SerialError::PermissionDenied)
        }),
{
    if calling_uid != AID_SYSTEM && calling_uid != AID_ROOT {
        Err(SerialError::PermissionDenied)
    } else {
        Ok(())
    }
}

/// Folds the outcomes of the node open and of the terminal-exclusivity
/// control into the final result of an open request: an open failure and a
/// control failure each surface the originating OS error code.
pub open spec fn open_outcome_spec(open_result: Result<i32, i32>, control_error: Option<i32>)
    -> Result<i32, SerialError> {
    match open_result {
        Err(errno) => Err(SerialError::OpenFailed { errno }),
        Ok(fd) => match control_error {
            Some(errno) => Err(SerialError::ControlFailed { errno }),
            None => Ok(fd),
        },
    }
}

/// Turns the device layer's answers to an open plan into the request's
/// result: `open_result` is the opened descriptor or the open's OS error,
/// `control_error` the OS error of the exclusivity control where that
/// failed.
pub fn finish_open(open_result: Result<i32, i32>, control_error: Option<i32>) -> (r: Result<
    i32,
    SerialError,
>)
    ensures
        r == open_outcome_spec(open_result, control_error),
{
    match open_result {
        Err(errno) => Err(SerialError::OpenFailed { errno }),
        Ok(fd) => match control_error {
            Some(errno) => Err(SerialError::ControlFailed { errno }),
            None => Ok(fd),
        },
    }
}

/// The registry of currently known serial ports and the set of subscribed
/// listeners. The event pipeline is its sole writer through
/// `on_device_added` and `on_device_removed`; the service surface reads the
/// registry and manages subscriptions.
pub struct SerialManager {
    serial_ports: Vec<SerialPortInfo>,
    listeners: Vec<u64>,
}

impl View for SerialManager {
    type V = ManagerView;

    closed spec fn view(&self) -> ManagerView {
        ManagerView { ports: self.serial_ports.deep_view(), listeners: self.listeners@ }
    }
}

impl SerialManager {
    /// An empty registry with no listeners; the caller wires it to the
    /// event stream.
    pub fn new() -> (r: Self)
        ensures
            r@.ports == Seq::<SerialPortInfoView>::empty(),
            r@.listeners == Seq::<u64>::empty(),
            wf_view(r@),
    {
        let r = SerialManager { serial_ports: Vec::new(), listeners: Vec::new() };
        proof {
            assert(r.serial_ports.deep_view() =~= Seq::<SerialPortInfoView>::empty());
        }
        r
    }

    /// Index of the registry entry of this name, or the registry length.
    fn find_port_index(&self, name: &str) -> (r: usize)
        ensures
            r as int == port_index(self@.ports, name@),
            r <= self.serial_ports@.len(),
            self@.ports.len() == self.serial_ports@.len(),
    {
        let n = self.serial_ports.len();
        let mut i: usize = 0;
        while i < n
            invariant
                0 <= i <= n,
                n == self.serial_ports.len(),
                forall|k: int| 0 <= k < i ==> self@.ports[k].name != name@,
            decreases n - i,
        {
            proof {
                assert(self@.ports[i as int] == self.serial_ports@[i as int]@);
            }
            if str_eq(self.serial_ports[i].name.as_str(), name) {
                proof {
                    lemma_port_index_exact(self@.ports, name@, i as int);
                }
                return i;
            }
            i += 1;
        }
        proof {
            lemma_port_index_exact(self@.ports, name@, n as int);
        }
        n
    }

    /// Index of the subscription of this handle, or the listener count.
    fn find_handle_index(&self, handle: u64) -> (r: usize)
        ensures
            r as int == handle_index(self@.listeners, handle),
            r <= self.listeners@.len(),
    {
        let n = self.listeners.len();
        let mut i: usize = 0;
        while i < n
            invariant
                0 <= i <= n,
                n == self.listeners.len(),
                forall|k: int| 0 <= k < i ==> self@.listeners[k] != handle,
            decreases n - i,
        {
            if self.listeners[i] == handle {
                proof {
                    lemma_handle_index_exact(self@.listeners, handle, i as int);
                }
                return i;
            }
            i += 1;
        }
        proof {
            lemma_handle_index_exact(self@.listeners, handle, n as int);
        }
        n
    }

    /// A snapshot copy of all currently known ports.
    #[allow(non_snake_case)]
    pub fn getSerialPorts(&self) -> (r: Vec<SerialPortInfo>)
        ensures
            r.deep_view() == self@.ports,
    {
        let n = self.serial_ports.len();
        let mut r: Vec<SerialPortInfo> = Vec::new();
        let mut i: usize = 0;
        while i < n
            invariant
                0 <= i <= n,
                n == self.serial_ports.len(),
                r.deep_view() == self@.ports.subrange(0, i as int),
            decreases n - i,
        {
            let ghost pre = r.deep_view();
            r.push(self.serial_ports[i].clone());
            proof {
                assert(r.deep_view() =~~= pre.push(self.serial_ports@[i as int]@));
                assert(r.deep_view() =~~= self@.ports.subrange(0, i as int + 1));
            }
            i += 1;
        }
        proof {
            assert(self@.ports.subrange(0, n as int) =~= self@.ports);
        }
        r
    }

    /// Subscribes a listener under its remote handle; a handle already
    /// subscribed is rejected, not replaced, and the set is left untouched.
    /// The caller attaches the death watch that feeds `on_listener_died`.
    #[allow(non_snake_case)]
    pub fn registerSerialPortListener(&mut self, calling_uid: u32, handle: u64) -> (r: Result<
        (),
        SerialError,
    >)
        requires
            wf_view(old(self)@),
        ensures
            wf_view(final(self)@),
            final(self)@.ports == old(self)@.ports,
            ({
                let (res, ls2) = subscribe_spec(old(self)@.listeners, calling_uid, handle);
                r == res && final(self)@.listeners == ls2
            }),
    {
        match check_permissions(calling_uid) {
            Err(e) => {
                return Err(e);
            },
            Ok(_) => {},
        }
        let k = self.find_handle_index(handle);
        if k < self.listeners.len() {
            proof {
                lemma_handle_index_le(self@.listeners, handle);
            }
            return Err(SerialError::DuplicateRegistration);
        }
        let ghost ls0 = self@.listeners;
        proof {
            lemma_handle_index_le(ls0, handle);
        }
        self.listeners.push(handle);
        proof {
            assert(unique_handles(self@.listeners)) by {
                assert(forall|k2: int| 0 <= k2 < ls0.len() ==> ls0[k2] != handle);
                assert(forall|i: int|
                    0 <= i < ls0.len() ==> self@.listeners[i] == ls0[i]);
            }
        }
        Ok(())
    }

    /// Unsubscribes a listener; a handle never subscribed fails with
    /// `ListenerNotFound`.
    #[allow(non_snake_case)]
    pub fn unregisterSerialPortListener(&mut self, calling_uid: u32, handle: u64) -> (r: Result<
        (),
        SerialError,
    >)
        requires
            wf_view(old(self)@),
        ensures
            wf_view(final(self)@),
            final(self)@.ports == old(self)@.ports,
            ({
                let (res, ls2) = unsubscribe_spec(old(self)@.listeners, calling_uid, handle);
                r == res && final(self)@.listeners == ls2
            }),
    {
        match check_permissions(calling_uid) {
            Err(e) => {
                return Err(e);
            },
            Ok(_) => {},
        }
        let k = self.find_handle_index(handle);
        if k == self.listeners.len() {
            return Err(SerialError::ListenerNotFound);
        }
        let ghost ls0 = self@.listeners;
        proof {
            lemma_handle_index_le(ls0, handle);
        }
        self.listeners.remove(k);
        proof {
            assert(self@.listeners =~= remove_handle(ls0, handle));
            assert(unique_handles(self@.listeners)) by {
                assert(forall|i: int|
                    0 <= i < k as int ==> self@.listeners[i] == ls0[i]);
                assert(forall|i: int|
                    k as int <= i < self@.listeners.len() ==> self@.listeners[i] == ls0[i + 1]);
            }
        }
        Ok(())
    }

    /// Removes the entry of a listener whose remote process terminated;
    /// idempotent, as the death signal may race an explicit unsubscribe.
    pub fn on_listener_died(&mut self, handle: u64)
        requires
            wf_view(old(self)@),
        ensures
            wf_view(final(self)@),
            final(self)@.ports == old(self)@.ports,
            final(self)@.listeners == remove_handle(old(self)@.listeners, handle),
    {
        let k = self.find_handle_index(handle);
        if k < self.listeners.len() {
            let ghost ls0 = self@.listeners;
            proof {
                lemma_handle_index_le(ls0, handle);
            }
            self.listeners.remove(k);
            proof {
                assert(self@.listeners =~= remove_handle(ls0, handle));
                assert(unique_handles(self@.listeners)) by {
                    assert(forall|i: int|
                        0 <= i < k as int ==> self@.listeners[i] == ls0[i]);
                    assert(forall|i: int|
                        k as int <= i < self@.listeners.len() ==> self@.listeners[i] == ls0[i
                            + 1]);
                }
            }
        }
    }

    /// Accepts or rejects an open request and plans the device-layer work:
    /// a port name not currently registered fails with `InvalidArgument`
    /// and plans no open at all. The check can race a concurrent removal;
    /// that is an accepted, benign race of the design.
    #[allow(non_snake_case)]
    pub fn requestOpen(
        &self,
        calling_uid: u32,
        port_name: &str,
        flags: i32,
        exclusive: bool,
    ) -> (r: Result<OpenPlan, SerialError>)
        ensures
            ({
                if !uid_permitted(calling_uid) {
                    r == Err::<OpenPlan, SerialError>(SerialError::PermissionDenied)
                } else if !has_port(self@.ports, port_name@) {
                    r == Err::<OpenPlan, SerialError>(SerialError::InvalidArgument)
                } else {
                    match r {
                        Ok(plan) => plan@ == open_plan_spec(port_name@, flags, exclusive),
                        Err(_) => false,
                    }
                }
            }),
    {
        match check_permissions(calling_uid) {
            Err(e) => {
                return Err(e);
            },
            Ok(_) => {},
        }
        let k = self.find_port_index(port_name);
        if k == self.serial_ports.len() {
            return Err(SerialError::InvalidArgument);
        }
        let mut path = String::from_str("/dev/");
        path.append(port_name);
        proof {
            assert(path@ =~= "/dev/"@ + port_name@);
        }
        Ok(
            OpenPlan {
                path,
                read: flags & (FLAG_O_RDONLY | FLAG_O_RDWR) != 0,
                write: flags & (FLAG_O_WRONLY | FLAG_O_RDWR) != 0,
                flags: flags | FLAG_O_NOCTTY,
                exclusive,
            },
        )
    }

    /// Inserts or overwrites the record in the registry, keyed by its name,
    /// and returns the connect notification owed to every currently
    /// subscribed listener, in subscription order. A delivery failure is the
    /// caller's to log; it neither blocks other listeners nor undoes the
    /// registry update.
    pub fn on_device_added(&mut self, info: SerialPortInfo) -> (r: Vec<Notification>)
        requires
            wf_view(old(self)@),
        ensures
            wf_view(final(self)@),
            ({
                let (m2, notes) = apply_change(old(self)@, PortChangeView::Added(info@));
                final(self)@ == m2 && r.deep_view() == notes
            }),
    {
        let ghost m0 = self@;
        let k = self.find_port_index(info.name.as_str());
        proof {
            lemma_port_index_le(m0.ports, info@.name);
        }
        let stored = info.clone();
        if k < self.serial_ports.len() {
            self.serial_ports[k] = stored;
            proof {
                assert(self@.ports =~= m0.ports.update(k as int, info@));
                assert(unique_names(self@.ports)) by {
                    assert(m0.ports[k as int].name == info@.name);
                    assert(forall|i: int|
                        0 <= i < self@.ports.len() ==> self@.ports[i].name == m0.ports[i].name);
                }
            }
        } else {
            self.serial_ports.push(stored);
            proof {
                assert(self@.ports =~= m0.ports.push(info@));
                assert(unique_names(self@.ports)) by {
                    assert(forall|k2: int| 0 <= k2 < m0.ports.len() ==> m0.ports[k2].name
                        != info@.name);
                    assert(forall|i: int|
                        0 <= i < m0.ports.len() ==> self@.ports[i] == m0.ports[i]);
                }
            }
        }
        proof {
            assert(self@.ports == upsert_port(m0.ports, info@));
            assert(self@.listeners == m0.listeners);
        }
        let mut r: Vec<Notification> = Vec::new();
        let n = self.listeners.len();
        let mut i: usize = 0;
        while i < n
            invariant
                0 <= i <= n,
                n == self.listeners.len(),
                self@.listeners == m0.listeners,
                self@.ports == upsert_port(m0.ports, info@),
                wf_view(self@),
                r.deep_view().len() == i as int,
                forall|j: int|
                    0 <= j < i as int ==> r.deep_view()[j] == (NotificationView {
                        handle: m0.listeners[j],
                        event: PortEventView::Connected(info@),
                    }),
            decreases n - i,
        {
            let h = self.listeners[i];
            let ghost pre = r.deep_view();
            r.push(Notification { handle: h, event: PortEvent::Connected(info.clone()) });
            proof {
                assert(r.deep_view() =~~= pre.push(
                    NotificationView { handle: h, event: PortEventView::Connected(info@) },
                ));
            }
            i += 1;
        }
        proof {
            assert(r.deep_view() =~= connect_notes(m0.listeners, info@));
        }
        r
    }

    /// Removes the record of this name, where present, and returns the
    /// disconnect notification owed to every listener, carrying the record
    /// captured before removal; an absent name is a no-op with nothing
    /// owed.
    pub fn on_device_removed(&mut self, name: &str) -> (r: Vec<Notification>)
        requires
            wf_view(old(self)@),
        ensures
            wf_view(final(self)@),
            ({
                let (m2, notes) = apply_change(old(self)@, PortChangeView::Removed(name@));
                final(self)@ == m2 && r.deep_view() == notes
            }),
    {
        let ghost m0 = self@;
        let k = self.find_port_index(name);
        proof {
            lemma_port_index_le(m0.ports, name@);
        }
        if k == self.serial_ports.len() {
            let r: Vec<Notification> = Vec::new();
            proof {
                assert(r.deep_view() =~= Seq::<NotificationView>::empty());
            }
            return r;
        }
        let removed = self.serial_ports.remove(k);
        proof {
            assert(removed@ == m0.ports[k as int]);
            assert(self@.ports =~= remove_port(m0.ports, name@));
            assert(unique_names(self@.ports)) by {
                assert(forall|i: int| 0 <= i < k as int ==> self@.ports[i] == m0.ports[i]);
                assert(forall|i: int|
                    k as int <= i < self@.ports.len() ==> self@.ports[i] == m0.ports[i + 1]);
            }
            assert(lookup_port(m0.ports, name@) == Some(removed@));
        }
        let mut r: Vec<Notification> = Vec::new();
        let n = self.listeners.len();
        let mut i: usize = 0;
        while i < n
            invariant
                0 <= i <= n,
                n == self.listeners.len(),
                self@.listeners == m0.listeners,
                self@.ports == remove_port(m0.ports, name@),
                wf_view(self@),
                r.deep_view().len() == i as int,
                forall|j: int|
                    0 <= j < i as int ==> r.deep_view()[j] == (NotificationView {
                        handle: m0.listeners[j],
                        event: PortEventView::Disconnected(removed@),
                    }),
            decreases n - i,
        {
            let h = self.listeners[i];
            let ghost pre = r.deep_view();
            r.push(Notification { handle: h, event: PortEvent::Disconnected(removed.clone()) });
            proof {
                assert(r.deep_view() =~~= pre.push(
                    NotificationView { handle: h, event: PortEventView::Disconnected(removed@) },
                ));
            }
            i += 1;
        }
        proof {
            assert(r.deep_view() =~= disconnect_notes(m0.listeners, removed@));
        }
        r
    }
}

/// One rendered registry record, as the diagnostic dump prints it.
pub open spec fn render_port(p: SerialPortInfoView) -> Seq<char> {
    "Port "@ + p.name + ":\n   Subsystem: "@ + p.subsystem + "\n   Driver Type: "@ + p.driver_type
        + "\n   Vendor ID: "@ + dec_of_i32(p.vendor_id as int) + "\n   Product ID: "@ + dec_of_i32(
        p.product_id as int,
    ) + "\n"@
}

/// The rendered records, in registry order.
pub open spec fn render_ports(ports: Seq<SerialPortInfoView>) -> Seq<char>
    decreases ports.len(),
{
    if ports.len() == 0 {
        Seq::empty()
    } else {
        render_port(ports[0]) + render_ports(ports.drop_first())
    }
}

/// The whole diagnostic dump: a count line, then one block per port.
pub open spec fn render_dump(ports: Seq<SerialPortInfoView>) -> Seq<char> {
    "Has "@ + dec_of(ports.len() as int) + " port(s).\n"@ + render_ports(ports)
}

impl SerialManager {
    /// Renders the current registry as human-readable text.
    pub fn dump(&self) -> (r: String)
        ensures
            r@ == render_dump(self@.ports),
    {
        let mut out = String::from_str("Has ");
        let count = u64_to_string(self.serial_ports.len() as u64);
        out.append(count.as_str());
        out.append(" port(s).\n");
        let n = self.serial_ports.len();
        proof {
            assert(out@ =~= "Has "@ + dec_of(n as int) + " port(s).\n"@);
            assert(self@.ports.subrange(0, n as int) =~= self@.ports);
        }
        let mut i: usize = 0;
        while i < n
            invariant
                0 <= i <= n,
                n == self.serial_ports.len(),
                out@ + render_ports(self@.ports.subrange(i as int, n as int)) == render_dump(
                    self@.ports,
                ),
            decreases n - i,
        {
            let ghost rest = self@.ports.subrange(i as int, n as int);
            let ghost pre = out@;
            proof {
                assert(rest[0] == self@.ports[i as int]);
                assert(rest.drop_first() =~= self@.ports.subrange(i as int + 1, n as int));
            }
            let p = &self.serial_ports[i];
            proof {
                assert(p@ == self@.ports[i as int]);
            }
            out.append("Port ");
            out.append(p.name.as_str());
            out.append(":\n   Subsystem: ");
            out.append(p.subsystem.as_str());
            out.append("\n   Driver Type: ");
            out.append(p.driver_type.as_str());
            out.append("\n   Vendor ID: ");
            let vendor = i32_to_string(p.vendor_id);
            out.append(vendor.as_str());
            out.append("\n   Product ID: ");
            let product = i32_to_string(p.product_id);
            out.append(product.as_str());
            out.append("\n");
            proof {
                assert(out@ =~= pre + render_port(rest[0]));
                assert(out@ + render_ports(rest.drop_first()) =~= pre + render_ports(rest));
            }
            i += 1;
        }
        proof {
            assert(self@.ports.subrange(i as int, n as int) =~= Seq::<SerialPortInfoView>::empty());
            assert(out@ + render_ports(Seq::<SerialPortInfoView>::empty()) =~= out@);
        }
        out
    }
}

/// Runs one event end to end, as the event-processing task does for each
/// event in arrival order: classification, then the registry change and the
/// notifications it owes. Events that classify to nothing leave the
/// registry untouched and owe nothing.
pub fn process_event<F: DriverTypeFinder>(
    handler: &mut DeviceEventsHandler<F>,
    manager: &mut SerialManager,
    event: &DeviceEvent,
    table: Option<&str>,
) -> (r: Vec<Notification>)
    requires
        wf_view(old(manager)@),
    ensures
        wf_view(final(manager)@),
        ({
            let (c, cache2) = classify_spec(old(handler).finder_cache(), event@, opt_str_view(table));
            final(handler).finder_cache() == cache2 && match c {
                None => final(manager)@ == old(manager)@ && r.deep_view() == Seq::<
                    NotificationView,
                >::empty(),
                Some(ch) => ({
                    let (m2, notes) = apply_change(old(manager)@, ch);
                    final(manager)@ == m2 && r.deep_view() == notes
                }),
            }
        }),
{
    match handler.handle_device_event(event, table) {
        None => {
            let r: Vec<Notification> = Vec::new();
            proof {
                assert(r.deep_view() =~= Seq::<NotificationView>::empty());
            }
            r
        },
        Some(PortChange::Added(info)) => manager.on_device_added(info),
        Some(PortChange::Removed(name)) => manager.on_device_removed(name.as_str()),
    }
}

/// Law: an add of a record followed immediately by a remove of the same
/// name leaves the registry without that name, and the two changes owe
/// exactly one connect and then one disconnect notification per listener,
/// both carrying the added record; the listener set is untouched.
pub proof fn lemma_add_then_remove(m: ManagerView, info: SerialPortInfoView)
    requires
        wf_view(m),
    ensures
        ({
            let (m1, n1) = apply_change(m, PortChangeView::Added(info));
            let (m2, n2) = apply_change(m1, PortChangeView::Removed(info.name));
            &&& wf_view(m2)
            &&& lookup_port(m2.ports, info.name) is None
            &&& n1 == connect_notes(m.listeners, info)
            &&& n2 == disconnect_notes(m.listeners, info)
            &&& m2.listeners == m.listeners
        }),
{
    let p1 = upsert_port(m.ports, info);
    lemma_port_index_le(m.ports, info.name);
    if has_port(m.ports, info.name) {
        let k = port_index(m.ports, info.name);
        assert(forall|i: int| 0 <= i < p1.len() ==> p1[i].name == m.ports[i].name);
        assert(unique_names(p1));
        lemma_port_index_exact(p1, info.name, k);
    } else {
        assert(forall|k2: int| 0 <= k2 < m.ports.len() ==> m.ports[k2].name != info.name);
        assert(forall|i: int| 0 <= i < m.ports.len() ==> p1[i] == m.ports[i]);
        assert(unique_names(p1));
        lemma_port_index_exact(p1, info.name, m.ports.len() as int);
    }
    assert(lookup_port(p1, info.name) == Some(info));
    let k2 = port_index(p1, info.name);
    let p2 = remove_port(p1, info.name);
    assert(forall|i: int| 0 <= i < k2 ==> p2[i] == p1[i]);
    assert(forall|i: int| k2 <= i < p2.len() ==> p2[i] == p1[i + 1]);
    assert(unique_names(p2));
    assert forall|j: int| 0 <= j < p2.len() implies p2[j].name != info.name by {
        if j < k2 {
            assert(p2[j] == p1[j]);
        } else {
            assert(p2[j] == p1[j + 1]);
            assert(p1[k2].name == info.name);
        }
    }
    lemma_port_index_exact(p2, info.name, p2.len() as int);
}

/// Law: after a successful subscribe, a second subscribe with the same
/// handle fails with `DuplicateRegistration` and leaves the listener set
/// exactly as the first left it.
pub proof fn lemma_duplicate_subscribe(ls: Seq<u64>, uid: u32, h: u64)
    requires
        uid_permitted(uid),
        !has_handle(ls, h),
    ensures
        ({
            let (r1, ls1) = subscribe_spec(ls, uid, h);
            let (r2, ls2) = subscribe_spec(ls1, uid, h);
            &&& r1 == Ok::<(), SerialError>(())
            &&& r2 == Err::<(), SerialError>(SerialError::DuplicateRegistration)
            &&& ls2 == ls1
        }),
{
    lemma_handle_index_le(ls, h);
    let ls1 = ls.push(h);
    lemma_handle_index_exact(ls1, h, ls.len() as int);
}

/// Law: an unsubscribe of a handle never subscribed fails with
/// `ListenerNotFound` and leaves the listener set untouched.
pub proof fn lemma_unsubscribe_unknown(ls: Seq<u64>, uid: u32, h: u64)
    requires
        uid_permitted(uid),
        !has_handle(ls, h),
    ensures
        unsubscribe_spec(ls, uid, h) == (Err::<(), SerialError>(SerialError::ListenerNotFound), ls),
{
}

} // verus!
