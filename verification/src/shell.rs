//! The window's state machine.
//!
//! The shell owns the endpoint fields and the last fetched collection.  One
//! event steps it: editing a field replaces that field, pressing the button
//! asks for one GET against the endpoint's URL, and a fetch completion
//! replaces the collection if it carries one and is ignored if it does not.
//! `spec_step` states the whole step; everything that performs I/O lives
//! outside the library and only carries `Action`s and `Message`s across.

use vstd::prelude::*;
use vstd::string::*;

use crate::model::{Proxies, ProxyV};

verus! {

/// An event the window hands the shell.
#[derive(Debug, Clone)]
pub enum Message {
    /// The host field was edited to this text.
    IPChanged(String),
    /// The port field was edited to this text.
    PortChanged(String),
    /// The lookup button was pressed.
    FetchData,
    /// A fetch finished: its collection, or nothing if the body was
    /// malformed or the request failed.
    AllProxies(Option<Proxies>),
}

/// The mathematical form of a `Message`.
pub enum MessageV {
    IPChanged(Seq<char>),
    PortChanged(Seq<char>),
    FetchData,
    AllProxies(Option<Seq<ProxyV>>),
}

impl View for Message {
    type V = MessageV;

    open spec fn view(&self) -> MessageV {
        match self {
            Message::IPChanged(s) => MessageV::IPChanged(s@),
            Message::PortChanged(s) => MessageV::PortChanged(s@),
            Message::FetchData => MessageV::FetchData,
            Message::AllProxies(o) => MessageV::AllProxies(
                match o {
                    Some(p) => Some(p@),
                    None => None,
                },
            ),
        }
    }
}

/// What the shell asks its surroundings to do after an event.
#[derive(Debug, Clone, PartialEq)]
pub enum Action {
    /// Nothing to perform.
    Stay,
    /// Issue one GET against this URL and hand the outcome back as an
    /// `AllProxies` message.
    Fetch(String),
}

/// The mathematical form of an `Action`.
pub enum ActionV {
    Stay,
    Fetch(Seq<char>),
}

impl View for Action {
    type V = ActionV;

    open spec fn view(&self) -> ActionV {
        match self {
            Action::Stay => ActionV::Stay,
            Action::Fetch(u) => ActionV::Fetch(u@),
        }
    }
}

/// The state the window owns: the endpoint fields, as edited, and the last
/// fetched collection.
#[derive(Debug, Clone)]
pub struct Shell {
    pub ip: String,
    pub port: String,
    pub proxies: Proxies,
}

/// The mathematical form of a `Shell`.
pub struct ShellV {
    pub ip: Seq<char>,
    pub port: Seq<char>,
    pub proxies: Seq<ProxyV>,
}

impl View for Shell {
    type V = ShellV;

    open spec fn view(&self) -> ShellV {
        ShellV { ip: self.ip@, port: self.port@, proxies: self.proxies@ }
    }
}

/// The request URL for the proxy list at an endpoint.  Neither field is
/// validated or encoded: a bad value only makes the request itself fail.
pub open spec fn spec_url(ip: Seq<char>, port: Seq<char>) -> Seq<char> {
    ip + ":"@ + port + "/proxies"@
}

/// One step of the shell: the state after an event and the action that
/// follows it.  A completion with a collection replaces the old one
/// whenever it arrives; one without leaves everything unchanged.
pub open spec fn spec_step(s: ShellV, m: MessageV) -> (ShellV, ActionV) {
    match m {
        MessageV::IPChanged(v) => (ShellV { ip: v, port: s.port, proxies: s.proxies }, ActionV::Stay),
        MessageV::PortChanged(v) => (ShellV { ip: s.ip, port: v, proxies: s.proxies }, ActionV::Stay),
        MessageV::FetchData => (s, ActionV::Fetch(spec_url(s.ip, s.port))),
        MessageV::AllProxies(Some(p)) => (
            ShellV { ip: s.ip, port: s.port, proxies: p },
            ActionV::Stay,
        ),
        MessageV::AllProxies(None) => (s, ActionV::Stay),
    }
}

/// Builds the request URL from the endpoint fields, exactly as `spec_url`
/// says.
pub fn build_url(ip: &str, port: &str) -> (r: String)
    ensures
        r@ == spec_url(ip@, port@),
{
    let mut url = ip.to_owned();
    url.append(":");
    url.append(port);
    url.append("/proxies");
    url
}

impl Shell {
    /// The state the window starts with: the default endpoint and no
    /// fetched records.
    pub fn new() -> (r: Shell)
        ensures
            r@.ip == "http://127.0.0.1"@,
            r@.port == "9090"@,
            r@.proxies == Seq::<ProxyV>::empty(),
    {
        Shell {
            ip: "http://127.0.0.1".to_owned(),
            port: "9090".to_owned(),
            proxies: Proxies::default(),
        }
    }

    /// Applies one event and returns the action to perform, exactly as
    /// `spec_step` says.
    pub fn update(&mut self, message: Message) -> (a: Action)
        ensures
            (final (self)@, a@) == spec_step(old(self)@, message@),
    {
        match message {
            Message::IPChanged(value) => {
                self.ip = value;
                Action::Stay
            },
            Message::PortChanged(value) => {
                self.port = value;
                Action::Stay
            },
            Message::FetchData => {
                let url = build_url(self.ip.as_str(), self.port.as_str());
                Action::Fetch(url)
            },
            Message::AllProxies(data) => {
                match data {
                    Some(proxies) => {
                        self.proxies = proxies;
                    },
                    None => {},
                }
                Action::Stay
            },
        }
    }
}

/// A completion without a collection leaves the shell exactly as it was,
/// and asks for nothing.
pub proof fn lemma_absent_result_keeps_state(s: ShellV)
    ensures
        spec_step(s, MessageV::AllProxies(Option::<Seq<ProxyV>>::None)).0 == s,
        spec_step(s, MessageV::AllProxies(Option::<Seq<ProxyV>>::None)).1 == ActionV::Stay,
{
}

/// Of two fetch completions the later arrival wins, whatever order their
/// requests were issued in: after `first` and then `second` arrive, the
/// shell shows `second`'s records.
pub proof fn lemma_last_arrival_wins(s: ShellV, first: Seq<ProxyV>, second: Seq<ProxyV>)
    ensures
        ({
            let mid = spec_step(s, MessageV::AllProxies(Some(first))).0;
            spec_step(mid, MessageV::AllProxies(Some(second))).0.proxies == second
        }),
{
}

} // verus!
