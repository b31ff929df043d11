//! The sequence of WLAN calls of a Wi-Fi connection request, as a state
//! machine: from the state and the outcome of the last call to the next call
//! (or the end, with the result and whether the WLAN handle is to be
//! closed). The caller makes the calls.
use vstd::prelude::*;

use crate::network::connect::{
    check_connect_policy, connect_failure_message, connect_profile_name, get_profile_failure_message,
    given, opt_text, prepare_profile_rollback, read_view, requested_security, rollback_view,
    spec_connect_policy, spec_profile_name, spec_rollback, ProfileRollback,
};
use crate::network::profile::{create_profile_xml, profile_xml};
use crate::network::radio::set_profile_failure_message;
use crate::text::{chars_of, decimal, eq_str, push_all, push_str_chars, radix_digits, string_of};

verus! {

/// What `format!("{:?}", value)` writes for an optional text.
pub uninterp spec fn option_debug(value: Option<Seq<char>>) -> Seq<char>;

/// Formats an optional text with `Debug` (`None`, or `Some("…")` with the
/// text escaped); the text is named by `option_debug`.
#[verifier::external_body]
fn option_debug_text(value: &Option<String>) -> (r: String)
    ensures
        r@ == option_debug(match value {
            Some(v) => Some(v@),
            None => None,
        }),
{
    format!("{:?}", value)
}

/// Where the sequence stands: which call's outcome it waits for.
#[derive(Debug, Clone, Copy, PartialEq, Eq, Structural)]
pub enum ConnectPhase {
    Opening,
    FindingInterface,
    CheckingProfile,
    ReadingSecurity,
    ReadingOldProfile,
    WritingProfile,
    Connecting,
    Undoing,
    Polling,
    Done,
}

/// The next WLAN call, or the end.
#[derive(Debug)]
pub enum ConnectAction {
    /// Open a WLAN handle.
    OpenHandle,
    /// Find the first WLAN interface.
    FindInterface,
    /// Read the profile of that name (it must exist).
    CheckProfile(String),
    /// Read the available-network list to infer the network's security.
    ReadAvailableNetworks,
    /// Read the profile of that name, to undo its overwriting if needed.
    ReadProfile(String),
    /// Write this profile XML.
    WriteProfile(String),
    /// Connect with the profile of that name (and the requested BSSID).
    Connect(String),
    /// Undo the profile write.
    Undo(ProfileRollback),
    /// Read the current connection.
    Poll,
    /// Stop: close the handle when asked, and return the result.
    Finish { close_handle: bool, result: Result<(), String> },
}

/// The outcome of the last call.
#[derive(Debug)]
pub enum ConnectOutcome {
    Opened(Result<(), u32>),
    InterfaceFound(Result<(), String>),
    ProfileChecked(Result<(), u32>),
    SecurityRead(Result<(String, String), String>),
    OldProfileRead(Result<Option<String>, u32>),
    /// The write failed with a code, a reason code and the reason's text.
    ProfileWritten(Result<(), (u32, u32, String)>),
    ConnectDone(Result<(), u32>),
    Undone,
    /// The SSID of the current connection, if any.
    Polled(Option<String>),
    /// The time allowed for the connection to come up has passed.
    DeadlinePassed,
}

/// A connection request under way.
pub struct ConnectSequence {
    pub ssid: String,
    pub authorized: bool,
    pub profile_name: Option<String>,
    pub authentication: Option<String>,
    pub encryption: Option<String>,
    pub password: Option<String>,
    pub phase: ConnectPhase,
    pub profile: String,
    pub security: (String, String),
    pub rollback: ProfileRollback,
    pub failure_code: u32,
    pub last_seen: Option<String>,
}

pub enum ActionView {
    OpenHandle,
    FindInterface,
    CheckProfile(Seq<char>),
    ReadAvailableNetworks,
    ReadProfile(Seq<char>),
    WriteProfile(Seq<char>),
    Connect(Seq<char>),
    Undo(Option<Option<Seq<char>>>),
    Poll,
    Finish(bool, Result<(), Seq<char>>),
}

pub enum OutcomeView {
    Opened(Result<(), u32>),
    InterfaceFound(Result<(), Seq<char>>),
    ProfileChecked(Result<(), u32>),
    SecurityRead(Result<(Seq<char>, Seq<char>), Seq<char>>),
    OldProfileRead(Result<Option<Seq<char>>, u32>),
    ProfileWritten(Result<(), (u32, u32, Seq<char>)>),
    ConnectDone(Result<(), u32>),
    Undone,
    Polled(Option<Seq<char>>),
    DeadlinePassed,
}

/// The part of the state that changes.
pub struct StateView {
    pub phase: ConnectPhase,
    pub profile: Seq<char>,
    pub security: (Seq<char>, Seq<char>),
    pub rollback: Option<Option<Seq<char>>>,
    pub failure_code: u32,
    pub last_seen: Option<Seq<char>>,
}

/// The fixed request.
pub struct RequestView {
    pub ssid: Seq<char>,
    pub authorized: bool,
    pub profile_name: Option<Seq<char>>,
    pub authentication: Option<Seq<char>>,
    pub encryption: Option<Seq<char>>,
    pub password: Option<Seq<char>>,
}

pub open spec fn sv(s: Option<String>) -> Option<Seq<char>> {
    match s {
        Some(x) => Some(x@),
        None => None,
    }
}

pub open spec fn action_view(a: ConnectAction) -> ActionView {
    match a {
        ConnectAction::OpenHandle => ActionView::OpenHandle,
        ConnectAction::FindInterface => ActionView::FindInterface,
        ConnectAction::CheckProfile(p) => ActionView::CheckProfile(p@),
        ConnectAction::ReadAvailableNetworks => ActionView::ReadAvailableNetworks,
        ConnectAction::ReadProfile(p) => ActionView::ReadProfile(p@),
        ConnectAction::WriteProfile(x) => ActionView::WriteProfile(x@),
        ConnectAction::Connect(p) => ActionView::Connect(p@),
        ConnectAction::Undo(r) => ActionView::Undo(rollback_view(r)),
        ConnectAction::Poll => ActionView::Poll,
        ConnectAction::Finish { close_handle, result } => ActionView::Finish(
            close_handle,
            match result {
                Ok(()) => Ok(()),
                Err(e) => Err(e@),
            },
        ),
    }
}

pub open spec fn outcome_view(o: ConnectOutcome) -> OutcomeView {
    match o {
        ConnectOutcome::Opened(r) => OutcomeView::Opened(r),
        ConnectOutcome::InterfaceFound(r) => OutcomeView::InterfaceFound(
            match r {
                Ok(()) => Ok(()),
                Err(e) => Err(e@),
            },
        ),
        ConnectOutcome::ProfileChecked(r) => OutcomeView::ProfileChecked(r),
        ConnectOutcome::SecurityRead(r) => OutcomeView::SecurityRead(
            match r {
                Ok((a, e)) => Ok((a@, e@)),
                Err(m) => Err(m@),
            },
        ),
        ConnectOutcome::OldProfileRead(r) => OutcomeView::OldProfileRead(read_view(r)),
        ConnectOutcome::ProfileWritten(r) => OutcomeView::ProfileWritten(
            match r {
                Ok(()) => Ok(()),
                Err((c, reason, text)) => Err((c, reason, text@)),
            },
        ),
        ConnectOutcome::ConnectDone(r) => OutcomeView::ConnectDone(r),
        ConnectOutcome::Undone => OutcomeView::Undone,
        ConnectOutcome::Polled(s) => OutcomeView::Polled(sv(s)),
        ConnectOutcome::DeadlinePassed => OutcomeView::DeadlinePassed,
    }
}

/// The outcome answers the call the phase waits for.
pub open spec fn outcome_fits(phase: ConnectPhase, o: OutcomeView) -> bool {
    match phase {
        ConnectPhase::Opening => o is Opened,
        ConnectPhase::FindingInterface => o is InterfaceFound,
        ConnectPhase::CheckingProfile => o is ProfileChecked,
        ConnectPhase::ReadingSecurity => o is SecurityRead,
        ConnectPhase::ReadingOldProfile => o is OldProfileRead,
        ConnectPhase::WritingProfile => o is ProfileWritten,
        ConnectPhase::Connecting => o is ConnectDone,
        ConnectPhase::Undoing => o is Undone,
        ConnectPhase::Polling => o is Polled || o is DeadlinePassed,
        ConnectPhase::Done => false,
    }
}

pub open spec fn dec(n: u32) -> Seq<char> {
    radix_digits(n as nat, 10, false)
}

/// The end of the sequence: the handle is closed (when `close`) and the
/// result returned.
pub open spec fn finish(s: StateView, close: bool, result: Result<(), Seq<char>>) -> (StateView, ActionView) {
    (StateView { phase: ConnectPhase::Done, ..s }, ActionView::Finish(close, result))
}

/// Once the security is known: the request must meet the policy, then the
/// profile is read before it is overwritten.
pub open spec fn with_security(req: RequestView, s: StateView, a: Seq<char>, e: Seq<char>) -> (StateView, ActionView) {
    match spec_connect_policy(a, req.password) {
        Err(m) => finish(s, true, Err(m)),
        Ok(()) => (
            StateView { phase: ConnectPhase::ReadingOldProfile, security: (a, e), ..s },
            ActionView::ReadProfile(s.profile),
        ),
    }
}

/// The step of the sequence: from the state and the outcome of the last call
/// to the next state and call.
pub open spec fn connect_transition(req: RequestView, s: StateView, o: OutcomeView) -> (StateView, ActionView) {
    match o {
        OutcomeView::Opened(Err(code)) => finish(s, false, Err("WlanOpenHandle failed: "@ + dec(code))),
        OutcomeView::Opened(Ok(())) => (
            StateView { phase: ConnectPhase::FindingInterface, ..s },
            ActionView::FindInterface,
        ),
        OutcomeView::InterfaceFound(Err(m)) => finish(s, true, Err(m)),
        OutcomeView::InterfaceFound(Ok(())) => match spec_profile_name(req.profile_name, req.ssid) {
            Err(m) => finish(s, true, Err(m)),
            Ok(name) => {
                let named = StateView { profile: name, ..s };
                if req.authorized {
                    (
                        StateView { phase: ConnectPhase::CheckingProfile, ..named },
                        ActionView::CheckProfile(name),
                    )
                } else {
                    match (given(req.authentication), given(req.encryption)) {
                        (Some(a), Some(e)) => with_security(req, named, a, e),
                        _ => (
                            StateView { phase: ConnectPhase::ReadingSecurity, ..named },
                            ActionView::ReadAvailableNetworks,
                        ),
                    }
                }
            },
        },
        OutcomeView::ProfileChecked(Err(code)) => finish(
            s,
            true,
            Err("WlanGetProfile failed for profile='"@ + s.profile + "': "@ + dec(code)),
        ),
        OutcomeView::ProfileChecked(Ok(())) => (
            StateView { phase: ConnectPhase::Connecting, ..s },
            ActionView::Connect(s.profile),
        ),
        OutcomeView::SecurityRead(Err(m)) => finish(s, false, Err(m)),
        OutcomeView::SecurityRead(Ok((a, e))) => with_security(req, s, a, e),
        OutcomeView::OldProfileRead(read) => match spec_rollback(s.profile, read) {
            Err(m) => finish(s, true, Err(m)),
            Ok(plan) => (
                StateView { phase: ConnectPhase::WritingProfile, rollback: plan, ..s },
                ActionView::WriteProfile(
                    profile_xml(s.profile, req.ssid, s.security.0, s.security.1, req.password),
                ),
            ),
        },
        OutcomeView::ProfileWritten(Err((code, reason, text))) => finish(
            s,
            true,
            Err("WlanSetProfile failed: "@ + dec(code) + ", reason="@ + dec(reason) + " ("@ + text
                + ")"@),
        ),
        OutcomeView::ProfileWritten(Ok(())) => (
            StateView { phase: ConnectPhase::Connecting, ..s },
            ActionView::Connect(s.profile),
        ),
        OutcomeView::ConnectDone(Err(code)) => if !req.authorized && s.rollback is Some {
            (
                StateView { phase: ConnectPhase::Undoing, failure_code: code, ..s },
                ActionView::Undo(s.rollback),
            )
        } else {
            finish(s, true, Err("WlanConnect failed: "@ + dec(code)))
        },
        OutcomeView::ConnectDone(Ok(())) => (StateView { phase: ConnectPhase::Polling, ..s }, ActionView::Poll),
        OutcomeView::Undone => finish(s, true, Err("WlanConnect failed: "@ + dec(s.failure_code))),
        OutcomeView::Polled(current) => if current == Some(req.ssid) {
            finish(StateView { last_seen: current, ..s }, true, Ok(()))
        } else {
            (
                StateView {
                    last_seen: if current is Some {
                        current
                    } else {
                        s.last_seen
                    },
                    ..s
                },
                ActionView::Poll,
            )
        },
        OutcomeView::DeadlinePassed => finish(
            s,
            true,
            Err("Wi-Fi connect timeout/failure: target='"@ + req.ssid + "' last_connected="@
                + option_debug(s.last_seen)),
        ),
    }
}

fn copy_text(s: &str) -> (r: String)
    ensures
        r@ == s@,
{
    string_of(chars_of(s).as_slice())
}

fn copy_opt(s: &Option<String>) -> (r: Option<String>)
    ensures
        sv(r) == sv(*s),
{
    match s {
        Some(x) => Some(copy_text(x.as_str())),
        None => None,
    }
}

fn copy_rollback(r: &ProfileRollback) -> (c: ProfileRollback)
    ensures
        rollback_view(c) == rollback_view(*r),
{
    match r {
        ProfileRollback::Restore(x) => ProfileRollback::Restore(copy_text(x.as_str())),
        ProfileRollback::DeleteCreated => ProfileRollback::DeleteCreated,
        ProfileRollback::Nothing => ProfileRollback::Nothing,
    }
}

fn as_opt_str(s: &Option<String>) -> (r: Option<&str>)
    ensures
        opt_text(r) == sv(*s),
{
    match s {
        Some(x) => Some(x.as_str()),
        None => None,
    }
}

impl ConnectSequence {
    pub open spec fn request(&self) -> RequestView {
        RequestView {
            ssid: self.ssid@,
            authorized: self.authorized,
            profile_name: sv(self.profile_name),
            authentication: sv(self.authentication),
            encryption: sv(self.encryption),
            password: sv(self.password),
        }
    }

    pub open spec fn state(&self) -> StateView {
        StateView {
            phase: self.phase,
            profile: self.profile@,
            security: (self.security.0@, self.security.1@),
            rollback: rollback_view(self.rollback),
            failure_code: self.failure_code,
            last_seen: sv(self.last_seen),
        }
    }

    /// A request for the (already validated, trimmed) SSID; its first call
    /// is `OpenHandle`.
    pub fn new(
        ssid: String,
        authorized: bool,
        profile_name: Option<String>,
        authentication: Option<String>,
        encryption: Option<String>,
        password: Option<String>,
    ) -> (r: (Self, ConnectAction))
        ensures
            r.0.request() == (RequestView {
                ssid: ssid@,
                authorized,
                profile_name: sv(profile_name),
                authentication: sv(authentication),
                encryption: sv(encryption),
                password: sv(password),
            }),
            r.0.phase == ConnectPhase::Opening,
            r.0.rollback_view_is_none(),
            r.0.last_seen is None,
            action_view(r.1) == ActionView::OpenHandle,
    {
        (
            ConnectSequence {
                ssid,
                authorized,
                profile_name,
                authentication,
                encryption,
                password,
                phase: ConnectPhase::Opening,
                profile: String::new(),
                security: (String::new(), String::new()),
                rollback: ProfileRollback::Nothing,
                failure_code: 0,
                last_seen: None,
            },
            ConnectAction::OpenHandle,
        )
    }

    pub open spec fn rollback_view_is_none(&self) -> bool {
        rollback_view(self.rollback) is None
    }

    fn finish(&mut self, close_handle: bool, result: Result<(), String>) -> (r: ConnectAction)
        ensures
            final(self).request() == old(self).request(),
            (final(self).state(), action_view(r)) == finish(
                old(self).state(),
                close_handle,
                match result {
                    Ok(()) => Ok(()),
                    Err(e) => Err(e@),
                },
            ),
    {
        self.phase = ConnectPhase::Done;
        ConnectAction::Finish { close_handle, result }
    }

    fn with_security(&mut self, a: String, e: String) -> (r: ConnectAction)
        ensures
            final(self).request() == old(self).request(),
            (final(self).state(), action_view(r)) == with_security(old(self).request(), old(self).state(), a@, e@),
    {
        match check_connect_policy(a.as_str(), as_opt_str(&self.password)) {
            Err(m) => self.finish(true, Err(m)),
            Ok(()) => {
                self.phase = ConnectPhase::ReadingOldProfile;
                self.security = (a, e);
                ConnectAction::ReadProfile(copy_text(self.profile.as_str()))
            },
        }
    }

    /// The next call after the outcome of the last one.
    pub fn step(&mut self, outcome: ConnectOutcome) -> (r: ConnectAction)
        requires
            outcome_fits(old(self).phase, outcome_view(outcome)),
        ensures
            final(self).request() == old(self).request(),
            (final(self).state(), action_view(r)) == connect_transition(
                old(self).request(),
                old(self).state(),
                outcome_view(outcome),
            ),
    {
        match outcome {
            ConnectOutcome::Opened(Err(code)) => {
                let mut m = chars_of("WlanOpenHandle failed: ");
                let d = decimal(code as u64);
                push_all(&mut m, d.as_slice());
                self.finish(false, Err(string_of(m.as_slice())))
            },
            ConnectOutcome::Opened(Ok(())) => {
                self.phase = ConnectPhase::FindingInterface;
                ConnectAction::FindInterface
            },
            ConnectOutcome::InterfaceFound(Err(m)) => self.finish(true, Err(m)),
            ConnectOutcome::InterfaceFound(Ok(())) => {
                match connect_profile_name(as_opt_str(&self.profile_name), self.ssid.as_str()) {
                    Err(m) => self.finish(true, Err(m)),
                    Ok(name) => {
                        self.profile = name;
                        if self.authorized {
                            self.phase = ConnectPhase::CheckingProfile;
                            ConnectAction::CheckProfile(copy_text(self.profile.as_str()))
                        } else {
                            match requested_security(
                                as_opt_str(&self.authentication),
                                as_opt_str(&self.encryption),
                            ) {
                                Some((a, e)) => self.with_security(a, e),
                                None => {
                                    self.phase = ConnectPhase::ReadingSecurity;
                                    ConnectAction::ReadAvailableNetworks
                                },
                            }
                        }
                    },
                }
            },
            ConnectOutcome::ProfileChecked(Err(code)) => {
                let m = get_profile_failure_message(self.profile.as_str(), code);
                self.finish(true, Err(m))
            },
            ConnectOutcome::ProfileChecked(Ok(())) => {
                self.phase = ConnectPhase::Connecting;
                ConnectAction::Connect(copy_text(self.profile.as_str()))
            },
            ConnectOutcome::SecurityRead(Err(m)) => self.finish(false, Err(m)),
            ConnectOutcome::SecurityRead(Ok((a, e))) => self.with_security(a, e),
            ConnectOutcome::OldProfileRead(read) => {
                match prepare_profile_rollback(self.profile.as_str(), read) {
                    Err(m) => self.finish(true, Err(m)),
                    Ok(plan) => {
                        let xml = create_profile_xml(
                            self.profile.as_str(),
                            self.ssid.as_str(),
                            self.security.0.as_str(),
                            self.security.1.as_str(),
                            as_opt_str(&self.password),
                        );
                        self.phase = ConnectPhase::WritingProfile;
                        self.rollback = plan;
                        ConnectAction::WriteProfile(xml)
                    },
                }
            },
            ConnectOutcome::ProfileWritten(Err((code, reason, text))) => {
                let m = set_profile_failure_message(code, reason, text.as_str());
                self.finish(true, Err(m))
            },
            ConnectOutcome::ProfileWritten(Ok(())) => {
                self.phase = ConnectPhase::Connecting;
                ConnectAction::Connect(copy_text(self.profile.as_str()))
            },
            ConnectOutcome::ConnectDone(Err(code)) => {
                let undo = match self.rollback {
                    ProfileRollback::Nothing => false,
                    _ => true,
                };
                if !self.authorized && undo {
                    self.phase = ConnectPhase::Undoing;
                    self.failure_code = code;
                    ConnectAction::Undo(copy_rollback(&self.rollback))
                } else {
                    let m = connect_failure_message(code);
                    self.finish(true, Err(m))
                }
            },
            ConnectOutcome::ConnectDone(Ok(())) => {
                self.phase = ConnectPhase::Polling;
                ConnectAction::Poll
            },
            ConnectOutcome::Undone => {
                let m = connect_failure_message(self.failure_code);
                self.finish(true, Err(m))
            },
            ConnectOutcome::Polled(current) => {
                let matched = match &current {
                    Some(c) => eq_str(c.as_str(), self.ssid.as_str()),
                    None => false,
                };
                if matched {
                    self.last_seen = current;
                    self.finish(true, Ok(()))
                } else {
                    if current.is_some() {
                        self.last_seen = current;
                    }
                    ConnectAction::Poll
                }
            },
            ConnectOutcome::DeadlinePassed => {
                let mut m = chars_of("Wi-Fi connect timeout/failure: target='");
                push_str_chars(&mut m, self.ssid.as_str());
                push_str_chars(&mut m, "' last_connected=");
                let d = option_debug_text(&self.last_seen);
                push_str_chars(&mut m, d.as_str());
                self.finish(true, Err(string_of(m.as_slice())))
            },
        }
    }
}

} // verus!
