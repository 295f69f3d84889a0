//! The host's decisions for each message from the browser: which Cast
//! operation to perform, and how the cast session and the browser's cookies
//! and referer (which the proxy forwards) change.

use vstd::prelude::*;
use crate::devices::Device;

verus! {

broadcast use vstd::string::group_string_axioms;

/// A message from the browser extension.
pub enum HostCommand {
    /// Find Cast devices on the local network.
    ScanDevices,
    /// Cast a stream to a device.
    CastStream {
        url: String,
        device_id: String,
        device_ip: String,
        device_port: u16,
        title: String,
        cookies: String,
        referer: String,
        subtitle_url: String,
    },
    /// Stop the cast.
    StopCast,
    /// Pause playback.
    PauseCast,
    /// Resume playback.
    PlayCast,
    /// Seek (the position travels with the message and is applied by the caller).
    SeekCast,
    /// Report the player's state.
    QueryCastState,
}

/// A playback control applied to the active media session.
#[derive(PartialEq, Eq, Structural, Clone, Copy)]
pub enum MediaControl {
    Pause,
    Play,
    Seek,
    Query,
}

/// An active cast: the device and the receiver application's session id.
pub struct CastSession {
    pub device: Device,
    pub session_id: String,
}

/// The Cast operation the caller performs for a command.
pub enum HostAction {
    /// Nothing to do.
    Nothing,
    /// Scan for devices and report them.
    ScanDevices,
    /// Launch the media receiver on `device` and load `url` (with the subtitle
    /// file at `subtitle_url`, when it is not empty); then report the outcome
    /// with `HostState::cast_finished`.
    StartCast { device: Device, url: String, subtitle_url: String },
    /// Stop the receiver application of the session on `device`.
    StopCast { device: Device, session_id: String },
    /// Apply `control` to the media session on `device`, then report the state.
    Control { device: Device, session_id: String, control: MediaControl },
}

/// The host's state between messages.
pub struct HostState {
    /// The active cast, if any.
    pub session: Option<CastSession>,
    /// The device a cast is being started on, until its outcome is known.
    pub pending: Option<Device>,
    /// The browser's cookies, which the proxy forwards upstream.
    pub cookies: String,
    /// The browser's referer, which the proxy forwards upstream.
    pub referer: String,
}

/// The control a playback command asks for.
pub open spec fn control_of(cmd: HostCommand) -> Option<MediaControl> {
    match cmd {
        HostCommand::PauseCast => Some(MediaControl::Pause),
        HostCommand::PlayCast => Some(MediaControl::Play),
        HostCommand::SeekCast => Some(MediaControl::Seek),
        HostCommand::QueryCastState => Some(MediaControl::Query),
        _ => None,
    }
}

/// The state after a command:
/// - a cast request stores its cookies and referer when they are not empty, and
///   remembers its device (named by the stream's title) as the pending cast;
/// - a stop forgets the session;
/// - anything else leaves the state as it is.
pub open spec fn state_after(s: HostState, cmd: HostCommand) -> HostState {
    match cmd {
        HostCommand::CastStream {
            url,
            device_id,
            device_ip,
            device_port,
            title,
            cookies,
            referer,
            subtitle_url,
        } => HostState {
            pending: Some(Device { id: device_id, name: title, ip: device_ip, port: device_port }),
            cookies: if cookies@.len() > 0 {
                cookies
            } else {
                s.cookies
            },
            referer: if referer@.len() > 0 {
                referer
            } else {
                s.referer
            },
            ..s
        },
        HostCommand::StopCast => HostState { session: None, ..s },
        _ => s,
    }
}

/// The Cast operation a command calls for:
/// - a scan request scans;
/// - a cast request starts a cast of its URL (and subtitle file) on its device;
/// - a stop stops the active session;
/// - pause, play, seek and state queries apply to the active session;
/// - without an active session, a stop or a playback control does nothing.
pub open spec fn action_for(s: HostState, cmd: HostCommand) -> HostAction {
    match cmd {
        HostCommand::ScanDevices => HostAction::ScanDevices,
        HostCommand::CastStream {
            url,
            device_id,
            device_ip,
            device_port,
            title,
            cookies,
            referer,
            subtitle_url,
        } => HostAction::StartCast {
            device: Device { id: device_id, name: title, ip: device_ip, port: device_port },
            url,
            subtitle_url,
        },
        HostCommand::StopCast => match s.session {
            Some(c) => HostAction::StopCast { device: c.device, session_id: c.session_id },
            None => HostAction::Nothing,
        },
        _ => match s.session {
            Some(c) => HostAction::Control {
                device: c.device,
                session_id: c.session_id,
                control: control_of(cmd)->0,
            },
            None => HostAction::Nothing,
        },
    }
}

/// The state once the outcome of a cast start is known: with the receiver's
/// session id, the pending device becomes the active session; a failure leaves
/// no session. Either way no cast is pending any more.
pub open spec fn state_after_cast(s: HostState, session_id: Option<String>) -> HostState {
    HostState {
        session: match (s.pending, session_id) {
            (Some(device), Some(id)) => Some(CastSession { device, session_id: id }),
            _ => None,
        },
        pending: None,
        ..s
    }
}

impl HostState {
    /// A fresh host: no session, no cookies, no referer.
    pub fn new() -> (s: Self)
        ensures
            s.session is None,
            s.pending is None,
            s.cookies@ == Seq::<char>::empty(),
            s.referer@ == Seq::<char>::empty(),
    {
        HostState { session: None, pending: None, cookies: String::new(), referer: String::new() }
    }

    /// The cookies the proxy forwards upstream.
    pub fn cookies(&self) -> (c: &str)
        ensures
            c@ == self.cookies@,
    {
        self.cookies.as_str()
    }

    /// The referer the proxy forwards upstream.
    pub fn referer(&self) -> (r: &str)
        ensures
            r@ == self.referer@,
    {
        self.referer.as_str()
    }

    /// Whether a cast session is active.
    pub fn is_casting(&self) -> (b: bool)
        ensures
            b == self.session is Some,
    {
        self.session.is_some()
    }

    /// Decides what to do for a message from the browser (see `action_for`), and
    /// updates the state (see `state_after`).
    pub fn handle(&mut self, cmd: HostCommand) -> (action: HostAction)
        ensures
            action == action_for(*old(self), cmd),
            *final(self) == state_after(*old(self), cmd),
    {
        match cmd {
            HostCommand::ScanDevices => HostAction::ScanDevices,
            HostCommand::CastStream {
                url,
                device_id,
                device_ip,
                device_port,
                title,
                cookies,
                referer,
                subtitle_url,
            } => {
                if !cookies.as_str().is_empty() {
                    self.cookies = cookies;
                }
                if !referer.as_str().is_empty() {
                    self.referer = referer;
                }
                let device = Device { id: device_id, name: title, ip: device_ip, port: device_port };
                self.pending = Some(device.clone_device());
                HostAction::StartCast { device, url, subtitle_url }
            },
            HostCommand::StopCast => {
                let taken = self.session.take();
                match taken {
                    Some(s) => HostAction::StopCast { device: s.device, session_id: s.session_id },
                    None => HostAction::Nothing,
                }
            },
            HostCommand::PauseCast => self.control(MediaControl::Pause),
            HostCommand::PlayCast => self.control(MediaControl::Play),
            HostCommand::SeekCast => self.control(MediaControl::Seek),
            HostCommand::QueryCastState => self.control(MediaControl::Query),
        }
    }

    /// The action for a playback control: applied to the active session, if any.
    fn control(&self, control: MediaControl) -> (action: HostAction)
        ensures
            match self.session {
                Some(s) => action == (HostAction::Control {
                    device: s.device,
                    session_id: s.session_id,
                    control,
                }),
                None => action is Nothing,
            },
    {
        match &self.session {
            Some(s) => HostAction::Control {
                device: s.device.clone_device(),
                session_id: s.session_id.clone(),
                control,
            },
            None => HostAction::Nothing,
        }
    }

    /// Records the outcome of starting a cast (see `state_after_cast`).
    pub fn cast_finished(&mut self, session_id: Option<String>)
        ensures
            *final(self) == state_after_cast(*old(self), session_id),
    {
        let pending = self.pending.take();
        self.session = match (pending, session_id) {
            (Some(device), Some(id)) => Some(CastSession { device, session_id: id }),
            _ => None,
        };
    }
}

/// With an active session, each playback command controls that session with
/// the control it names: pause pauses, play plays, seek seeks, and a state query
/// only queries.
pub proof fn lemma_playback_commands(s: HostState)
    requires
        s.session is Some,
    ensures
        action_for(s, HostCommand::PauseCast) == (HostAction::Control {
            device: s.session->0.device,
            session_id: s.session->0.session_id,
            control: MediaControl::Pause,
        }),
        action_for(s, HostCommand::PlayCast) == (HostAction::Control {
            device: s.session->0.device,
            session_id: s.session->0.session_id,
            control: MediaControl::Play,
        }),
        action_for(s, HostCommand::SeekCast) == (HostAction::Control {
            device: s.session->0.device,
            session_id: s.session->0.session_id,
            control: MediaControl::Seek,
        }),
        action_for(s, HostCommand::QueryCastState) == (HostAction::Control {
            device: s.session->0.device,
            session_id: s.session->0.session_id,
            control: MediaControl::Query,
        }),
{
}

/// After a stop there is no session, and until a new cast starts every
/// playback control and every further stop does nothing.
pub proof fn lemma_stop_ends_session(s: HostState, cmd: HostCommand)
    requires
        control_of(cmd) is Some || cmd is StopCast,
    ensures
        state_after(s, HostCommand::StopCast).session is None,
        action_for(state_after(s, HostCommand::StopCast), cmd) is Nothing,
{
}

/// Playback controls and scans never change the host's state.
pub proof fn lemma_controls_keep_state(s: HostState, cmd: HostCommand)
    requires
        control_of(cmd) is Some || cmd is ScanDevices,
    ensures
        state_after(s, cmd) == s,
{
}

/// Once the browser has sent cookies (or a referer), the proxy never loses them:
/// no command and no cast outcome leaves them empty again.
pub proof fn lemma_forwarded_values_persist(s: HostState, cmd: HostCommand, session_id: Option<String>)
    ensures
        s.cookies@.len() > 0 ==> state_after(s, cmd).cookies@.len() > 0,
        s.referer@.len() > 0 ==> state_after(s, cmd).referer@.len() > 0,
        state_after_cast(s, session_id).cookies == s.cookies,
        state_after_cast(s, session_id).referer == s.referer,
{
}

/// A successful cast start makes the device of the cast request the active
/// session, so later playback controls go to that device.
pub proof fn lemma_cast_then_control(s: HostState, cast: HostCommand, id: String, cmd: HostCommand)
    requires
        cast is CastStream,
        control_of(cmd) is Some,
    ensures
        ({
            let started = state_after_cast(state_after(s, cast), Some(id));
            match action_for(s, cast) {
                HostAction::StartCast { device, .. } => action_for(started, cmd) == (HostAction::Control {
                    device,
                    session_id: id,
                    control: control_of(cmd)->0,
                }),
                _ => false,
            }
        }),
{
}

impl Device {
    /// A copy of the device.
    pub fn clone_device(&self) -> (d: Device)
        ensures
            d == *self,
    {
        Device { id: self.id.clone(), name: self.name.clone(), ip: self.ip.clone(), port: self.port }
    }
}

/// The player's state, as the receiver reports it.
#[derive(PartialEq, Eq, Structural, Clone, Copy)]
pub enum PlayerState {
    Playing,
    Paused,
    Buffering,
    Idle,
}

/// The label reported to the browser for the player's state.
pub open spec fn player_state_text(state: Option<PlayerState>) -> Seq<char> {
    match state {
        Some(PlayerState::Playing) => "PLAYING"@,
        Some(PlayerState::Paused) => "PAUSED"@,
        Some(PlayerState::Buffering) => "BUFFERING"@,
        Some(PlayerState::Idle) => "IDLE"@,
        None => "UNKNOWN"@,
    }
}

/// The label reported for the player's state; `UNKNOWN` when the receiver has
/// no media session.
pub fn player_state_label(state: Option<PlayerState>) -> (label: &'static str)
    ensures
        label@ == player_state_text(state),
{
    match state {
        Some(PlayerState::Playing) => "PLAYING",
        Some(PlayerState::Paused) => "PAUSED",
        Some(PlayerState::Buffering) => "BUFFERING",
        Some(PlayerState::Idle) => "IDLE",
        None => "UNKNOWN",
    }
}

/// The media session a playback control applies to: the first entry of the
/// receiver's media status; `None` (no active media session) when it has none.
pub fn active_media_session(session_ids: &[i32]) -> (id: Option<i32>)
    ensures
        id == if session_ids@.len() > 0 {
            Some(session_ids@[0])
        } else {
            None::<i32>
        },
{
    if session_ids.len() > 0 {
        Some(session_ids[0])
    } else {
        None
    }
}

} // verus!
