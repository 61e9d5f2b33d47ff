//! Dialling an upstream, as decisions: which address to try, when the guard
//! forbids it, and what a failure is called. The proof that the pipeline let
//! the request pass is consumed here; without it nothing is dialled.
use vstd::prelude::*;
use vstd::string::*;

use crate::audit::{DenialView, GuardDenial};
use crate::ip::IpAddr;
use crate::metrics::DialResult;
use crate::pipeline::AllowProof;
use crate::state::{denial, DenyView, Guard};
use crate::text::{join2, join3, quoted};

verus! {

/// Why there is no connection.
#[derive(Debug)]
pub enum DialError {
    /// The guard forbids the address. Audited as a denial, not as an error.
    Denied(GuardDenial),
    /// No address, no connection or no TLS.
    Failed(String),
}

/// What a dial error says.
#[verifier::ext_equal]
pub enum DialErrorView {
    Denied(DenialView),
    Failed(Seq<char>),
}

impl View for DialError {
    type V = DialErrorView;

    open spec fn view(&self) -> DialErrorView {
        match self {
            DialError::Denied(d) => DialErrorView::Denied(d@),
            DialError::Failed(m) => DialErrorView::Failed(m@),
        }
    }
}

/// What a dial waits for.
#[derive(Debug, Clone, Copy, PartialEq, Eq, Structural)]
pub enum DialPhase {
    /// The addresses of the host.
    Lookup,
    /// A connection.
    Connect,
    /// A TLS handshake.
    Secure,
    Over,
}

/// What happened outside.
#[derive(Debug)]
pub enum DialEvent {
    LookedUp(Vec<IpAddr>),
    LookupFailed(String),
    Connected,
    ConnectFailed(String),
    ConnectTimedOut,
    /// The host is no name that TLS can check.
    BadServerName,
    Secured,
    TlsFailed(String),
}

/// What an event says.
#[verifier::ext_equal]
pub enum DialEventView {
    LookedUp(Seq<IpAddr>),
    LookupFailed(Seq<char>),
    Connected,
    ConnectFailed(Seq<char>),
    ConnectTimedOut,
    BadServerName,
    Secured,
    TlsFailed(Seq<char>),
}

impl View for DialEvent {
    type V = DialEventView;

    open spec fn view(&self) -> DialEventView {
        match self {
            DialEvent::LookedUp(v) => DialEventView::LookedUp(v@),
            DialEvent::LookupFailed(e) => DialEventView::LookupFailed(e@),
            DialEvent::Connected => DialEventView::Connected,
            DialEvent::ConnectFailed(e) => DialEventView::ConnectFailed(e@),
            DialEvent::ConnectTimedOut => DialEventView::ConnectTimedOut,
            DialEvent::BadServerName => DialEventView::BadServerName,
            DialEvent::Secured => DialEventView::Secured,
            DialEvent::TlsFailed(e) => DialEventView::TlsFailed(e@),
        }
    }
}

/// What to do outside.
#[derive(Debug)]
pub enum DialAction {
    /// Look up the addresses of the host.
    Lookup,
    /// Connect to the address.
    Connect(IpAddr),
    /// Shake hands over TLS, verified for the host.
    Secure,
    /// The connection is there; its peer is the address.
    Done(IpAddr),
    Stop(DialError),
}

/// What an action says.
#[verifier::ext_equal]
pub enum DialActionView {
    Lookup,
    Connect(IpAddr),
    Secure,
    Done(IpAddr),
    Stop(DialErrorView),
}

impl View for DialAction {
    type V = DialActionView;

    open spec fn view(&self) -> DialActionView {
        match self {
            DialAction::Lookup => DialActionView::Lookup,
            DialAction::Connect(ip) => DialActionView::Connect(*ip),
            DialAction::Secure => DialActionView::Secure,
            DialAction::Done(ip) => DialActionView::Done(*ip),
            DialAction::Stop(e) => DialActionView::Stop(e@),
        }
    }
}

/// A dial under way.
pub struct Dial {
    host: String,
    port: u16,
    https: bool,
    phase: DialPhase,
    addrs: Vec<IpAddr>,
    /// How many addresses were tried.
    tried: usize,
    last_err: Option<String>,
}

/// What a dial holds.
#[verifier::ext_equal]
pub struct DialView {
    pub host: Seq<char>,
    pub port: u16,
    pub https: bool,
    pub phase: DialPhase,
    pub addrs: Seq<IpAddr>,
    pub tried: int,
    pub last_err: Option<Seq<char>>,
}

impl View for Dial {
    type V = DialView;

    closed spec fn view(&self) -> DialView {
        DialView {
            host: self.host@,
            port: self.port,
            https: self.https,
            phase: self.phase,
            addrs: self.addrs@,
            tried: self.tried as int,
            last_err: crate::text::opt_text(self.last_err),
        }
    }
}

/// A step: the dial behind it, the action, and what is counted.
pub type DialStep = (DialView, DialActionView, Option<DialResult>);

/// `address:port`, an IPv6 address in brackets.
pub open spec fn socket_text(ip: IpAddr, port: u16) -> Seq<char> {
    match ip {
        IpAddr::V4(_) => crate::ip::address_text(ip) + ":"@ + crate::text::decimal_text(
            port as nat,
        ),
        IpAddr::V6(_) => "["@ + crate::ip::address_text(ip) + "]:"@ + crate::text::decimal_text(
            port as nat,
        ),
    }
}

/// The next address: the guard is asked about the very address that is dialled,
/// and a denial ends the dial. With no address left the last error counts.
pub open spec fn try_next(d: DialView, deny: Seq<DenyView>) -> DialStep {
    if d.tried >= d.addrs.len() {
        (
            DialView { phase: DialPhase::Over, ..d },
            DialActionView::Stop(
                DialErrorView::Failed(
                    match d.last_err {
                        Some(e) => e,
                        None => "dial failed"@,
                    },
                ),
            ),
            Some(DialResult::ConnectError),
        )
    } else {
        let ip = d.addrs[d.tried];
        match denial(deny, ip) {
            Some(x) => (
                DialView { phase: DialPhase::Over, ..d },
                DialActionView::Stop(DialErrorView::Denied(x)),
                Some(DialResult::GuardDenied),
            ),
            None => (
                DialView { phase: DialPhase::Connect, tried: d.tried + 1, ..d },
                DialActionView::Connect(ip),
                None,
            ),
        }
    }
}

/// A failure of the dial as a whole.
pub open spec fn give_up(d: DialView, message: Seq<char>, count: Option<DialResult>) -> DialStep {
    (
        DialView { phase: DialPhase::Over, ..d },
        DialActionView::Stop(DialErrorView::Failed(message)),
        count,
    )
}

/// The connection is there.
pub open spec fn succeed(d: DialView) -> DialStep {
    (
        DialView { phase: DialPhase::Over, ..d },
        DialActionView::Done(d.addrs[d.tried - 1]),
        Some(DialResult::Dialed),
    )
}

/// One address failed: its error is kept and the next one is tried.
pub open spec fn address_failed(d: DialView, why: Seq<char>, deny: Seq<DenyView>) -> DialStep {
    try_next(
        DialView {
            last_err: Some(
                "connect "@ + socket_text(d.addrs[d.tried - 1], d.port) + ": "@ + why,
            ),
            ..d
        },
        deny,
    )
}

/// The dial waits for this event.
pub open spec fn expects(d: DialView, e: DialEventView) -> bool {
    match e {
        DialEventView::LookedUp(_) => d.phase == DialPhase::Lookup,
        DialEventView::LookupFailed(_) => d.phase == DialPhase::Lookup,
        DialEventView::Connected => d.phase == DialPhase::Connect,
        DialEventView::ConnectFailed(_) => d.phase == DialPhase::Connect,
        DialEventView::ConnectTimedOut => d.phase == DialPhase::Connect,
        DialEventView::BadServerName => d.phase == DialPhase::Secure,
        DialEventView::Secured => d.phase == DialPhase::Secure,
        DialEventView::TlsFailed(_) => d.phase == DialPhase::Secure,
    }
}

/// What follows an event.
pub open spec fn dial_step(d: DialView, e: DialEventView, deny: Seq<DenyView>) -> DialStep {
    match e {
        DialEventView::LookedUp(addrs) => if addrs.len() == 0 {
            give_up(
                d,
                "no addresses for "@ + crate::text::quoted_text(d.host),
                Some(DialResult::DnsError),
            )
        } else {
            try_next(DialView { addrs, tried: 0, ..d }, deny)
        },
        DialEventView::LookupFailed(m) => give_up(
            d,
            "resolution failed for "@ + crate::text::quoted_text(d.host) + ": "@ + m,
            Some(DialResult::DnsError),
        ),
        DialEventView::Connected => if d.https {
            (DialView { phase: DialPhase::Secure, ..d }, DialActionView::Secure, None)
        } else {
            succeed(d)
        },
        DialEventView::ConnectFailed(m) => address_failed(d, m, deny),
        DialEventView::ConnectTimedOut => address_failed(d, "dial timeout"@, deny),
        DialEventView::BadServerName => give_up(
            d,
            "invalid upstream server name "@ + crate::text::quoted_text(d.host),
            None,
        ),
        DialEventView::Secured => succeed(d),
        DialEventView::TlsFailed(m) => give_up(
            d,
            "upstream TLS: "@ + m,
            Some(DialResult::TlsError),
        ),
    }
}

/// The beginning: an IP literal is its own address, a name is looked up.
pub open spec fn dial_start(
    host: Seq<char>,
    port: u16,
    https: bool,
    deny: Seq<DenyView>,
) -> DialStep {
    let d = DialView {
        host,
        port,
        https,
        phase: DialPhase::Lookup,
        addrs: Seq::empty(),
        tried: 0,
        last_err: None,
    };
    match crate::ip::address(host) {
        Some(ip) => try_next(DialView { addrs: seq![ip], ..d }, deny),
        None => (d, DialActionView::Lookup, None),
    }
}

pub fn socket_string(ip: IpAddr, port: u16) -> (r: String)
    ensures
        r@ == socket_text(ip, port),
{
    let addr = ip.to_text();
    let num = crate::text::number_text(port as u64);
    match ip {
        IpAddr::V4(_) => join3(addr.as_str(), ":", num.as_str()),
        IpAddr::V6(_) => {
            let head = join3("[", addr.as_str(), "]:");
            join2(head.as_str(), num.as_str())
        },
    }
}

impl Dial {
    /// Between connecting and the end at least one address was tried.
    #[verifier::type_invariant]
    spec fn on_an_address(self) -> bool {
        &&& self.tried <= self.addrs@.len()
        &&& (self.phase == DialPhase::Connect || self.phase == DialPhase::Secure) ==> self.tried
            >= 1
    }

    /// Begins a dial. The proof of the pipeline's consent is used up.
    pub fn start(proof: AllowProof, host: &str, port: u16, https: bool, guard: &Guard) -> (r: (
        Dial,
        DialAction,
        Option<DialResult>,
    ))
        ensures
            (r.0@, r.1@, r.2) == dial_start(host@, port, https, guard@),
    {
        let _used = proof;
        let mut addrs: Vec<IpAddr> = Vec::new();
        let literal = IpAddr::parse(host);
        if let Some(ip) = literal {
            addrs.push(ip);
        }
        let d = Dial {
            host: host.to_owned(),
            port,
            https,
            phase: DialPhase::Lookup,
            addrs,
            tried: 0,
            last_err: None,
        };
        match literal {
            Some(ip) => {
                assert(d@.addrs == seq![ip]);
                d.next(guard)
            },
            None => (d, DialAction::Lookup, None),
        }
    }

    fn next(self, guard: &Guard) -> (r: (Dial, DialAction, Option<DialResult>))
        ensures
            (r.0@, r.1@, r.2) == try_next(self@, guard@),
    {
        proof {
            use_type_invariant(&self);
        }
        let host = self.host;
        let addrs = self.addrs;
        let last_err = self.last_err;
        if self.tried >= addrs.len() {
            let message = match &last_err {
                Some(e) => e.clone(),
                None => "dial failed".to_owned(),
            };
            return (
                Dial {
                    host,
                    port: self.port,
                    https: self.https,
                    phase: DialPhase::Over,
                    addrs,
                    tried: self.tried,
                    last_err,
                },
                DialAction::Stop(DialError::Failed(message)),
                Some(DialResult::ConnectError),
            );
        }
        let ip = addrs[self.tried];
        match guard.check(ip) {
            Err(x) => (
                Dial {
                    host,
                    port: self.port,
                    https: self.https,
                    phase: DialPhase::Over,
                    addrs,
                    tried: self.tried,
                    last_err,
                },
                DialAction::Stop(DialError::Denied(x)),
                Some(DialResult::GuardDenied),
            ),
            Ok(_) => (
                Dial {
                    host,
                    port: self.port,
                    https: self.https,
                    phase: DialPhase::Connect,
                    addrs,
                    tried: self.tried + 1,
                    last_err,
                },
                DialAction::Connect(ip),
                None,
            ),
        }
    }

    fn over(self) -> (r: Dial)
        ensures
            r@ == (DialView { phase: DialPhase::Over, ..self@ }),
    {
        proof {
            use_type_invariant(&self);
        }
        Dial {
            host: self.host,
            port: self.port,
            https: self.https,
            phase: DialPhase::Over,
            addrs: self.addrs,
            tried: self.tried,
            last_err: self.last_err,
        }
    }

    fn failed(self, message: String, count: Option<DialResult>) -> (r: (
        Dial,
        DialAction,
        Option<DialResult>,
    ))
        ensures
            (r.0@, r.1@, r.2) == give_up(self@, message@, count),
    {
        (self.over(), DialAction::Stop(DialError::Failed(message)), count)
    }

    fn done(self) -> (r: (Dial, DialAction, Option<DialResult>))
        requires
            self@.phase == DialPhase::Connect || self@.phase == DialPhase::Secure,
        ensures
            (r.0@, r.1@, r.2) == succeed(self@),
    {
        proof {
            use_type_invariant(&self);
        }
        let ip = self.addrs[self.tried - 1];
        (self.over(), DialAction::Done(ip), Some(DialResult::Dialed))
    }

    fn next_address(self, why: &str, guard: &Guard) -> (r: (Dial, DialAction, Option<DialResult>))
        requires
            self@.phase == DialPhase::Connect,
        ensures
            (r.0@, r.1@, r.2) == address_failed(self@, why@, guard@),
    {
        proof {
            use_type_invariant(&self);
        }
        let socket = socket_string(self.addrs[self.tried - 1], self.port);
        let head = join3("connect ", socket.as_str(), ": ");
        let d = Dial {
            host: self.host,
            port: self.port,
            https: self.https,
            phase: self.phase,
            addrs: self.addrs,
            tried: self.tried,
            last_err: Some(join2(head.as_str(), why)),
        };
        d.next(guard)
    }

    /// Goes on with what happened outside.
    pub fn on_event(self, event: DialEvent, guard: &Guard) -> (r: (
        Dial,
        DialAction,
        Option<DialResult>,
    ))
        requires
            expects(self@, event@),
        ensures
            (r.0@, r.1@, r.2) == dial_step(self@, event@, guard@),
    {
        match event {
            DialEvent::LookedUp(addrs) => {
                if addrs.len() == 0 {
                    let message = join2("no addresses for ", quoted(self.host.as_str()).as_str());
                    return self.failed(message, Some(DialResult::DnsError));
                }
                let d = Dial {
                    host: self.host,
                    port: self.port,
                    https: self.https,
                    phase: self.phase,
                    addrs,
                    tried: 0,
                    last_err: self.last_err,
                };
                d.next(guard)
            },
            DialEvent::LookupFailed(e) => {
                let head = join3("resolution failed for ", quoted(self.host.as_str()).as_str(), ": ");
                self.failed(join2(head.as_str(), e.as_str()), Some(DialResult::DnsError))
            },
            DialEvent::Connected => {
                if !self.https {
                    return self.done();
                }
                proof {
                    use_type_invariant(&self);
                }
                let d = Dial {
                    host: self.host,
                    port: self.port,
                    https: self.https,
                    phase: DialPhase::Secure,
                    addrs: self.addrs,
                    tried: self.tried,
                    last_err: self.last_err,
                };
                (d, DialAction::Secure, None)
            },
            DialEvent::ConnectFailed(e) => self.next_address(e.as_str(), guard),
            DialEvent::ConnectTimedOut => self.next_address("dial timeout", guard),
            DialEvent::BadServerName => {
                let message = join2(
                    "invalid upstream server name ",
                    quoted(self.host.as_str()).as_str(),
                );
                self.failed(message, None)
            },
            DialEvent::Secured => self.done(),
            DialEvent::TlsFailed(e) => {
                let message = join2("upstream TLS: ", e.as_str());
                self.failed(message, Some(DialResult::TlsError))
            },
        }
    }
}

// ---- Laws -------------------------------------------------------------------------------

/// Whatever happens, an address is connected to only where the guard does not
/// deny it.
pub proof fn only_guarded_addresses_are_dialled(
    d: DialView,
    e: DialEventView,
    deny: Seq<DenyView>,
    ip: IpAddr,
)
    requires
        dial_step(d, e, deny).1 == DialActionView::Connect(ip),
    ensures
        denial(deny, ip) is None,
{
}

/// The same holds of the very first address.
pub proof fn first_address_is_guarded(
    host: Seq<char>,
    port: u16,
    https: bool,
    deny: Seq<DenyView>,
    ip: IpAddr,
)
    requires
        dial_start(host, port, https, deny).1 == DialActionView::Connect(ip),
    ensures
        denial(deny, ip) is None,
{
}

/// A denied address ends the dial: no other address is tried behind it.
pub proof fn denial_ends_the_dial(d: DialView, e: DialEventView, deny: Seq<DenyView>, x: DenialView)
    requires
        dial_step(d, e, deny).1 == DialActionView::Stop(DialErrorView::Denied(x)),
    ensures
        dial_step(d, e, deny).0.phase == DialPhase::Over,
        forall|f: DialEventView| !expects(dial_step(d, e, deny).0, f),
{
}

} // verus!
