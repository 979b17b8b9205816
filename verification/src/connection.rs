//! The role of one connection and the rules for changing it.
//!
//! A connection starts unidentified and may once become a camera or a
//! dispatcher; the role then stays.  Independently of its role it may ask for
//! heartbeats once.

use vstd::prelude::*;
use vstd::utf8::{is_ascii_chars, is_ascii_chars_encode_utf8};
use crate::wire::text_fits;

verus! {

/// Where a camera stands and the limit it enforces, in miles per hour.
#[derive(Clone, Copy, Debug, PartialEq, Eq, Structural)]
pub struct Camera {
    pub road: u16,
    pub mile: u16,
    pub limit: u16,
}

/// What a connection has identified itself as.
#[derive(Clone, Debug, PartialEq, Eq)]
pub enum Role {
    Unidentified,
    Camera { camera: Camera },
    Dispatcher { roads: Vec<u16> },
}

/// The mathematical content of a [`Role`].
pub enum RoleView {
    Unidentified,
    Camera { camera: Camera },
    Dispatcher { roads: Seq<u16> },
}

impl View for Role {
    type V = RoleView;

    open spec fn view(&self) -> RoleView {
        match *self {
            Role::Unidentified => RoleView::Unidentified,
            Role::Camera { camera } => RoleView::Camera { camera },
            Role::Dispatcher { roads } => RoleView::Dispatcher { roads: roads@ },
        }
    }
}

/// A breach of the rules of the protocol by a client.
#[derive(Clone, Copy, Debug, PartialEq, Eq, Structural)]
pub enum Violation {
    /// The connection named its role a second time.
    AlreadyIdentified,
    /// A plate was reported by a connection that is no camera.
    NotACamera,
    /// The connection asked for heartbeats a second time.
    HeartbeatAlreadyRequested,
    /// The plate is too long to be written on a ticket.
    PlateTooLong,
}

/// The text sent to a client that broke a rule.
pub open spec fn violation_text(v: Violation) -> Seq<char> {
    match v {
        Violation::AlreadyIdentified => "role already set"@,
        Violation::NotACamera => "not a camera"@,
        Violation::HeartbeatAlreadyRequested => "heartbeat already set"@,
        Violation::PlateTooLong => "plate too long"@,
    }
}

/// The text sent to a client whose frame had no known opcode.
pub open spec fn unknown_opcode_text() -> Seq<char> {
    "unknown message type"@
}

/// Every text sent to a client fits the text field of an error frame.
pub proof fn lemma_texts_fit(v: Violation)
    ensures
        text_fits(violation_text(v)),
        text_fits(unknown_opcode_text()),
{
    reveal_strlit("role already set");
    reveal_strlit("not a camera");
    reveal_strlit("heartbeat already set");
    reveal_strlit("plate too long");
    reveal_strlit("unknown message type");
    let t = violation_text(v);
    assert(is_ascii_chars(t));
    is_ascii_chars_encode_utf8(t);
    let u = unknown_opcode_text();
    assert(is_ascii_chars(u));
    is_ascii_chars_encode_utf8(u);
}

impl Violation {
    /// The text sent to the client that committed this violation.
    pub fn describe(&self) -> (s: String)
        ensures
            s@ == violation_text(*self),
    {
        match self {
            Violation::AlreadyIdentified => "role already set".to_owned(),
            Violation::NotACamera => "not a camera".to_owned(),
            Violation::HeartbeatAlreadyRequested => "heartbeat already set".to_owned(),
            Violation::PlateTooLong => "plate too long".to_owned(),
        }
    }
}

/// The record kept of one connection.
#[derive(Clone, Debug, PartialEq, Eq)]
pub struct Connection {
    pub role: Role,
    pub heartbeat_armed: bool,
}

/// The mathematical content of a [`Connection`].
pub struct ConnectionView {
    pub role: RoleView,
    pub heartbeat_armed: bool,
}

impl View for Connection {
    type V = ConnectionView;

    open spec fn view(&self) -> ConnectionView {
        ConnectionView { role: self.role@, heartbeat_armed: self.heartbeat_armed }
    }
}

/// The record of a connection that was just accepted.
pub open spec fn fresh() -> ConnectionView {
    ConnectionView { role: RoleView::Unidentified, heartbeat_armed: false }
}

/// Whether a connection is a dispatcher that serves `road`.
pub open spec fn serves(c: ConnectionView, road: u16) -> bool {
    c.role matches RoleView::Dispatcher { roads } && roads.contains(road)
}

/// The record after an `IAmCamera`, or the violation that it is.
pub open spec fn identify_camera(c: ConnectionView, camera: Camera) -> Result<
    ConnectionView,
    Violation,
> {
    if c.role is Unidentified {
        Ok(ConnectionView { role: RoleView::Camera { camera }, heartbeat_armed: c.heartbeat_armed })
    } else {
        Err(Violation::AlreadyIdentified)
    }
}

/// The record after an `IAmDispatcher`, or the violation that it is.
pub open spec fn identify_dispatcher(c: ConnectionView, roads: Seq<u16>) -> Result<
    ConnectionView,
    Violation,
> {
    if c.role is Unidentified {
        Ok(
            ConnectionView {
                role: RoleView::Dispatcher { roads },
                heartbeat_armed: c.heartbeat_armed,
            },
        )
    } else {
        Err(Violation::AlreadyIdentified)
    }
}

/// The record after a `WantHeartbeat`, or the violation that it is.
pub open spec fn request_heartbeat(c: ConnectionView) -> Result<ConnectionView, Violation> {
    if c.heartbeat_armed {
        Err(Violation::HeartbeatAlreadyRequested)
    } else {
        Ok(ConnectionView { role: c.role, heartbeat_armed: true })
    }
}

/// The camera that a plate report comes from, or the violation that the
/// report is.
pub open spec fn reporting_camera(c: ConnectionView) -> Result<Camera, Violation> {
    match c.role {
        RoleView::Camera { camera } => Ok(camera),
        _ => Err(Violation::NotACamera),
    }
}

impl Connection {
    /// The record of a connection that was just accepted.
    pub fn new() -> (c: Connection)
        ensures
            c@ == fresh(),
    {
        Connection { role: Role::Unidentified, heartbeat_armed: false }
    }

    /// Takes the camera role.  Fails, changing nothing, when a role is set.
    pub fn become_camera(&mut self, camera: Camera) -> (r: Result<(), Violation>)
        ensures
            match identify_camera(old(self)@, camera) {
                Ok(c) => r is Ok && final(self)@ == c,
                Err(v) => r == Err::<(), Violation>(v) && final(self)@ == old(self)@,
            },
    {
        match self.role {
            Role::Unidentified => {
                self.role = Role::Camera { camera };
                Ok(())
            },
            _ => Err(Violation::AlreadyIdentified),
        }
    }

    /// Takes the dispatcher role for `roads`.  Fails, changing nothing, when a
    /// role is set.
    pub fn become_dispatcher(&mut self, roads: Vec<u16>) -> (r: Result<(), Violation>)
        ensures
            match identify_dispatcher(old(self)@, roads@) {
                Ok(c) => r is Ok && final(self)@ == c,
                Err(v) => r == Err::<(), Violation>(v) && final(self)@ == old(self)@,
            },
    {
        match self.role {
            Role::Unidentified => {
                self.role = Role::Dispatcher { roads };
                Ok(())
            },
            _ => Err(Violation::AlreadyIdentified),
        }
    }

    /// Notes the request for heartbeats.  Fails, changing nothing, when one
    /// was made before.
    pub fn arm_heartbeat(&mut self) -> (r: Result<(), Violation>)
        ensures
            match request_heartbeat(old(self)@) {
                Ok(c) => r is Ok && final(self)@ == c,
                Err(v) => r == Err::<(), Violation>(v) && final(self)@ == old(self)@,
            },
    {
        if self.heartbeat_armed {
            Err(Violation::HeartbeatAlreadyRequested)
        } else {
            self.heartbeat_armed = true;
            Ok(())
        }
    }

    /// The camera behind this connection, if it is one.
    pub fn camera(&self) -> (r: Result<Camera, Violation>)
        ensures
            r == reporting_camera(self@),
    {
        match self.role {
            Role::Camera { camera } => Ok(camera),
            _ => Err(Violation::NotACamera),
        }
    }

    /// Whether this connection is a dispatcher that serves `road`.
    pub fn serves_road(&self, road: u16) -> (b: bool)
        ensures
            b == serves(self@, road),
    {
        match &self.role {
            Role::Dispatcher { roads } => lists_road(roads, road),
            _ => false,
        }
    }
}

/// Whether `road` is among `roads`.
pub fn lists_road(roads: &Vec<u16>, road: u16) -> (b: bool)
    ensures
        b == roads@.contains(road),
{
    let mut i: usize = 0;
    while i < roads.len()
        invariant
            i <= roads@.len(),
            forall|k: int| 0 <= k < i ==> roads@[k] != road,
        decreases roads@.len() - i,
    {
        if roads[i] == road {
            assert(roads@[i as int] == road);
            return true;
        }
        i = i + 1;
    }
    false
}

/// A role, once set, is never replaced: naming a role a second time is a
/// violation whatever the two roles are.
pub proof fn lemma_role_is_fixed(c: ConnectionView, camera: Camera, roads: Seq<u16>)
    requires
        !(c.role is Unidentified),
    ensures
        identify_camera(c, camera) == Err::<ConnectionView, Violation>(
            Violation::AlreadyIdentified,
        ),
        identify_dispatcher(c, roads) == Err::<ConnectionView, Violation>(
            Violation::AlreadyIdentified,
        ),
{
}

/// After a connection has become a camera, a second `IAmCamera` and an
/// `IAmDispatcher` are both violations.
pub proof fn lemma_camera_cannot_identify_again(
    c: ConnectionView,
    first: Camera,
    second: Camera,
    roads: Seq<u16>,
)
    requires
        identify_camera(c, first) is Ok,
    ensures
        identify_camera(identify_camera(c, first)->Ok_0, second) is Err,
        identify_dispatcher(identify_camera(c, first)->Ok_0, roads) is Err,
{
}

/// Heartbeats can be asked for once: a second request is a violation.
pub proof fn lemma_heartbeat_requested_once(c: ConnectionView)
    requires
        request_heartbeat(c) is Ok,
    ensures
        request_heartbeat(request_heartbeat(c)->Ok_0) == Err::<ConnectionView, Violation>(
            Violation::HeartbeatAlreadyRequested,
        ),
{
}

/// A connection that never became a camera cannot report plates.
pub proof fn lemma_plate_needs_camera(c: ConnectionView)
    requires
        !(c.role is Camera),
    ensures
        reporting_camera(c) == Err::<Camera, Violation>(Violation::NotACamera),
{
}

} // verus!
