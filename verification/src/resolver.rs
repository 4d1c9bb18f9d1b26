//! The nameserver list and the decisions of one resolution.
//!
//! The resolver neither opens a socket nor waits. `resolve` says which
//! exchange to carry out first; the caller sends the packet to the server
//! named, waits for the reply within its own time limit, and hands the
//! outcome to `proceed`, which says what to do next.

use crate::binary::encoder::{Encodable, Encoder};
use crate::message::{DecodeError, Message, MessageView, Operation};
use crate::resource::{Ipv4Address, ResourceType};
use vstd::prelude::*;

verus! {

/// Why an exchange with one nameserver brought no reply.
#[derive(Clone, Copy, Debug, PartialEq, Eq, Structural)]
pub enum TransportError {
    /// No local socket could be had.
    Bind,
    /// The packet could not be sent.
    Send,
    /// No reply could be received.
    Receive,
    /// No reply came within the time allowed.
    Timeout,
}

/// Why a resolution brought no message.
#[derive(Clone, Copy, Debug, PartialEq, Eq, Structural)]
pub enum ResolveError {
    /// The resolver has no nameserver to ask.
    NoNameserversConfigured,
    /// Every nameserver was asked and none replied.
    ResolveFailed,
    /// A nameserver replied, and its reply does not decode.
    Decode(DecodeError),
}

/// What one exchange brought: the bytes of the reply, or the reason none came.
pub type Outcome = Result<Vec<u8>, TransportError>;

/// An exchange that the caller is asked to carry out: send `packet` to
/// `server`, the nameserver at position `attempt` of the list, and wait for
/// its reply.
#[derive(Debug, PartialEq)]
pub struct Exchange {
    pub attempt: usize,
    pub server: Ipv4Address,
    pub packet: Vec<u8>,
}

/// What an `Exchange` holds.
pub struct ExchangeView {
    pub attempt: nat,
    pub server: Ipv4Address,
    pub packet: Seq<u8>,
}

impl View for Exchange {
    type V = ExchangeView;

    open spec fn view(&self) -> ExchangeView {
        ExchangeView { attempt: self.attempt as nat, server: self.server, packet: self.packet@ }
    }
}

/// Where a resolution stands: an exchange is to be carried out, or the
/// resolution has ended.
#[derive(Debug, PartialEq)]
pub enum Progress {
    Ask(Exchange),
    Done(Result<Message, ResolveError>),
}

/// What a `Progress` holds.
pub enum ProgressView {
    Ask(ExchangeView),
    Done(Result<MessageView, ResolveError>),
}

impl View for Progress {
    type V = ProgressView;

    open spec fn view(&self) -> ProgressView {
        match self {
            Progress::Ask(exchange) => ProgressView::Ask(exchange@),
            Progress::Done(Ok(message)) => ProgressView::Done(Ok(message@)),
            Progress::Done(Err(e)) => ProgressView::Done(Err(*e)),
        }
    }
}

/// The first capture group of each match of the regular expression
/// `pattern` in `text`, the matches taken from left to right without
/// overlap; the empty string where the group took no part in a match. `None`
/// where `pattern` is not a regular expression that compiles.
pub uninterp spec fn regex_first_groups(pattern: Seq<char>, text: Seq<char>) -> Option<
    Seq<Seq<char>>,
>;

/// Compiles `pattern` with `regex::Regex::new` and walks `text` with
/// `regex::Regex::captures_iter`, keeping group 1 of each match as
/// `regex::Captures::get` and `regex::Match::as_str` give it. The contract
/// names the result, and claims that it depends on the two strings alone.
#[verifier::external_body]
fn first_groups(pattern: &str, text: &str) -> (groups: Option<Vec<String>>)
    ensures
        groups.deep_view() == regex_first_groups(pattern@, text@),
{
    match regex::Regex::new(pattern) {
        Ok(re) => Some(
            re.captures_iter(text).map(|c| c.get(1).map_or("", |m| m.as_str()).to_string()).collect(),
        ),
        Err(_) => None,
    }
}

/// The addresses among `fields`, in their order: each field that spells an
/// address in dotted decimal gives one, the others are passed over.
pub open spec fn addresses_among(fields: Seq<Seq<char>>) -> Seq<Ipv4Address>
    decreases fields.len(),
{
    if fields.len() == 0 {
        Seq::empty()
    } else {
        match Ipv4Address::spec_from_dotted(fields.last()) {
            Some(ip) => addresses_among(fields.drop_last()).push(ip),
            None => addresses_among(fields.drop_last()),
        }
    }
}

/// A stub resolver: an ordered list of nameservers to ask.
pub struct Resolver {
    name_servers: Vec<Ipv4Address>,
}

impl View for Resolver {
    type V = Seq<Ipv4Address>;

    closed spec fn view(&self) -> Seq<Ipv4Address> {
        self.name_servers@
    }
}

impl Resolver {
    /// The packet that asks for the records of type `resource_type` of
    /// `name`: a standard query with identity 0 that desires recursion.
    pub open spec fn query_packet(name: Seq<char>, resource_type: ResourceType) -> Seq<u8> {
        Message::query(0, Operation::StandardQuery, true, seq![name], resource_type).wire()
    }

    /// How a resolution ends on a reply: with the message that the reply
    /// decodes to, or with the reason it does not decode.
    pub open spec fn verdict(reply: Seq<u8>) -> Result<MessageView, ResolveError> {
        match Message::parse(reply) {
            Ok(m) => Ok(m),
            Err(e) => Err(ResolveError::Decode(e)),
        }
    }

    /// Where a resolution starts: with the first nameserver, if there is one.
    pub open spec fn first_step(
        servers: Seq<Ipv4Address>,
        name: Seq<char>,
        resource_type: ResourceType,
    ) -> ProgressView {
        if servers.len() == 0 {
            ProgressView::Done(Err(ResolveError::NoNameserversConfigured))
        } else {
            ProgressView::Ask(
                ExchangeView {
                    attempt: 0,
                    server: servers[0],
                    packet: Resolver::query_packet(name, resource_type),
                },
            )
        }
    }

    /// Where a resolution stands after `exchange` brought `outcome`. A reply
    /// ends it, whether it decodes or not. A failure of whatever kind moves
    /// it to the next nameserver of the list with the same packet, and ends
    /// it where there is none.
    pub open spec fn next_step(
        servers: Seq<Ipv4Address>,
        exchange: ExchangeView,
        outcome: Result<Seq<u8>, TransportError>,
    ) -> ProgressView {
        match outcome {
            Ok(reply) => ProgressView::Done(Resolver::verdict(reply)),
            Err(_) => if exchange.attempt + 1 < servers.len() {
                ProgressView::Ask(
                    ExchangeView {
                        attempt: exchange.attempt + 1,
                        server: servers[exchange.attempt as int + 1],
                        packet: exchange.packet,
                    },
                )
            } else {
                ProgressView::Done(Err(ResolveError::ResolveFailed))
            },
        }
    }

    /// Where a resolution that stands at `progress` stands after the
    /// outcomes of its further exchanges, in their order. Outcomes past its
    /// end change nothing.
    pub open spec fn run(
        servers: Seq<Ipv4Address>,
        progress: ProgressView,
        outcomes: Seq<Result<Seq<u8>, TransportError>>,
    ) -> ProgressView
        decreases outcomes.len(),
    {
        if outcomes.len() == 0 {
            progress
        } else {
            match progress {
                ProgressView::Ask(exchange) => Resolver::run(
                    servers,
                    Resolver::next_step(servers, exchange, outcomes[0]),
                    outcomes.drop_first(),
                ),
                ProgressView::Done(_) => progress,
            }
        }
    }

    /// The lines of a resolver configuration that name a nameserver: the
    /// word `nameserver` at the start of a line, one space, and four groups of
    /// one to three digits with dots between them, which are captured.
    pub const NAMESERVER_LINE: &'static str =
        r"(?m:^nameserver (?P<ip>\d{1,3}\.\d{1,3}\.\d{1,3}\.\d{1,3}))";

    /// The nameservers that a resolver configuration with the text `content`
    /// names.
    pub open spec fn configured(content: Seq<char>) -> Seq<Ipv4Address> {
        match regex_first_groups(Resolver::NAMESERVER_LINE@, content) {
            Some(fields) => addresses_among(fields),
            None => Seq::empty(),
        }
    }

    /// The addresses among `fields`, in their order. A field that is no
    /// address in dotted decimal, such as `999.1.1.1`, is passed over.
    pub fn nameservers_among(fields: &Vec<String>) -> (servers: Vec<Ipv4Address>)
        ensures
            servers@ == addresses_among(fields.deep_view()),
    {
        let mut servers: Vec<Ipv4Address> = Vec::new();
        let n = fields.len();
        let mut i: usize = 0;
        while i < n
            invariant
                i <= n,
                n == fields@.len(),
                servers@ == addresses_among(fields.deep_view().take(i as int)),
            decreases n - i,
        {
            assert(fields.deep_view().take(i + 1).drop_last() == fields.deep_view().take(i as int));
            match Ipv4Address::from_dotted(fields[i].as_str()) {
                Some(ip) => servers.push(ip),
                None => {},
            }
            i = i + 1;
        }
        assert(fields.deep_view().take(n as int) == fields.deep_view());
        servers
    }

    /// The nameservers that a resolver configuration names, in the order of
    /// its lines. `content` is the text of the configuration.
    pub fn parse_resolv_conf(content: &str) -> (servers: Vec<Ipv4Address>)
        ensures
            servers@ == Resolver::configured(content@),
    {
        match first_groups(Resolver::NAMESERVER_LINE, content) {
            Some(fields) => Resolver::nameservers_among(&fields),
            None => Vec::new(),
        }
    }

    /// A resolver that asks the nameservers that a resolver configuration
    /// names. `content` is the text of the configuration.
    pub fn from_reolv_conf(content: &str) -> (resolver: Resolver)
        ensures
            resolver@ == Resolver::configured(content@),
    {
        Resolver::new(Resolver::parse_resolv_conf(content))
    }

    /// A resolver that asks `name_servers` in their order.
    pub fn new(name_servers: Vec<Ipv4Address>) -> (resolver: Resolver)
        ensures
            resolver@ == name_servers@,
    {
        Resolver { name_servers }
    }

    /// The nameservers, in the order in which they are asked.
    pub fn name_servers(&self) -> (servers: &Vec<Ipv4Address>)
        ensures
            servers@ == self@,
    {
        &self.name_servers
    }

    /// Begins to resolve `name`: builds the query and asks for an exchange
    /// with the first nameserver. Without nameservers the resolution ends at
    /// once with `NoNameserversConfigured`.
    pub fn resolve(&self, name: String, resource_type: ResourceType) -> (progress: Progress)
        ensures
            progress@ == Resolver::first_step(self@, name@, resource_type),
    {
        if self.name_servers.len() == 0 {
            return Progress::Done(Err(ResolveError::NoNameserversConfigured));
        }
        let ghost asked = name@;
        let mut names: Vec<String> = Vec::new();
        names.push(name);
        assert(names.deep_view() == seq![asked]);
        let query = Message::new(0, Operation::StandardQuery, true, names, resource_type);
        let mut encoder = Encoder::new(Vec::new());
        let _ = query.encode(&mut encoder);
        let packet = encoder.into_bytes();
        Progress::Ask(Exchange { attempt: 0, server: self.name_servers[0], packet })
    }

    /// Continues a resolution with the outcome of the exchange that was asked
    /// for. A reply ends the resolution with the message it decodes to, or
    /// with the reason it does not decode. A failure asks for an exchange
    /// with the next nameserver, and ends the resolution with `ResolveFailed`
    /// where none is left. No nameserver is asked twice.
    pub fn proceed(&self, exchange: Exchange, outcome: Outcome) -> (progress: Progress)
        ensures
            progress@ == Resolver::next_step(
                self@,
                exchange@,
                match outcome {
                    Ok(reply) => Ok(reply@),
                    Err(e) => Err(e),
                },
            ),
    {
        match outcome {
            Ok(reply) => match Message::decode(reply.as_slice()) {
                Ok(message) => Progress::Done(Ok(message)),
                Err(e) => Progress::Done(Err(ResolveError::Decode(e))),
            },
            Err(_) => {
                if exchange.attempt < self.name_servers.len() && exchange.attempt + 1
                    < self.name_servers.len() {
                    let attempt = exchange.attempt + 1;
                    Progress::Ask(
                        Exchange {
                            attempt,
                            server: self.name_servers[attempt],
                            packet: exchange.packet,
                        },
                    )
                } else {
                    Progress::Done(Err(ResolveError::ResolveFailed))
                }
            },
        }
    }
}

/// The outcomes of exchanges that all failed, for the given reasons.
pub open spec fn failed(reasons: Seq<TransportError>) -> Seq<Result<Seq<u8>, TransportError>> {
    reasons.map_values(|e: TransportError| Err::<Seq<u8>, TransportError>(e))
}

/// A resolution may be run in two parts.
pub proof fn lemma_run_in_parts(
    servers: Seq<Ipv4Address>,
    progress: ProgressView,
    first: Seq<Result<Seq<u8>, TransportError>>,
    second: Seq<Result<Seq<u8>, TransportError>>,
)
    ensures
        Resolver::run(servers, progress, first + second) == Resolver::run(
            servers,
            Resolver::run(servers, progress, first),
            second,
        ),
    decreases first.len(),
{
    if first.len() > 0 {
        assert((first + second).drop_first() == first.drop_first() + second);
        match progress {
            ProgressView::Ask(exchange) => {
                lemma_run_in_parts(
                    servers,
                    Resolver::next_step(servers, exchange, first[0]),
                    first.drop_first(),
                    second,
                );
            },
            ProgressView::Done(_) => {
                lemma_run_ended(servers, progress, second);
            },
        }
    }
}

/// A resolution that has ended stays as it is.
pub proof fn lemma_run_ended(
    servers: Seq<Ipv4Address>,
    progress: ProgressView,
    outcomes: Seq<Result<Seq<u8>, TransportError>>,
)
    requires
        progress is Done,
    ensures
        Resolver::run(servers, progress, outcomes) == progress,
{
}

/// While exchanges fail and nameservers are left, the next nameserver of the
/// list is asked, with the same packet.
pub proof fn lemma_failures_move_on(
    servers: Seq<Ipv4Address>,
    exchange: ExchangeView,
    reasons: Seq<TransportError>,
)
    requires
        exchange.attempt + reasons.len() < servers.len(),
        exchange.server == servers[exchange.attempt as int],
    ensures
        Resolver::run(servers, ProgressView::Ask(exchange), failed(reasons)) == ProgressView::Ask(
            ExchangeView {
                attempt: exchange.attempt + reasons.len(),
                server: servers[(exchange.attempt + reasons.len()) as int],
                packet: exchange.packet,
            },
        ),
    decreases reasons.len(),
{
    if reasons.len() > 0 {
        let next = ExchangeView {
            attempt: exchange.attempt + 1,
            server: servers[exchange.attempt as int + 1],
            packet: exchange.packet,
        };
        assert(failed(reasons).drop_first() == failed(reasons.drop_first()));
        lemma_failures_move_on(servers, next, reasons.drop_first());
    }
}

/// After `reasons.len()` failed exchanges, with nameservers still left, the
/// resolution asks the nameserver at that position of the list, with the
/// packet of the query.
pub proof fn lemma_next_nameserver_is_asked(
    servers: Seq<Ipv4Address>,
    name: Seq<char>,
    resource_type: ResourceType,
    reasons: Seq<TransportError>,
)
    requires
        reasons.len() < servers.len(),
    ensures
        Resolver::run(
            servers,
            Resolver::first_step(servers, name, resource_type),
            failed(reasons),
        ) == ProgressView::Ask(
            ExchangeView {
                attempt: reasons.len(),
                server: servers[reasons.len() as int],
                packet: Resolver::query_packet(name, resource_type),
            },
        ),
{
    let first = ExchangeView {
        attempt: 0,
        server: servers[0],
        packet: Resolver::query_packet(name, resource_type),
    };
    lemma_failures_move_on(servers, first, reasons);
}

/// One outcome moves a resolution that asks by one step.
pub proof fn lemma_run_one(
    servers: Seq<Ipv4Address>,
    exchange: ExchangeView,
    outcome: Result<Seq<u8>, TransportError>,
)
    ensures
        Resolver::run(servers, ProgressView::Ask(exchange), seq![outcome]) == Resolver::next_step(
            servers,
            exchange,
            outcome,
        ),
{
    let outcomes = seq![outcome];
    let next = Resolver::next_step(servers, exchange, outcome);
    assert(Resolver::run(servers, next, outcomes.drop_first()) == next);
}

/// The first nameserver that replies decides: where the nameservers before
/// it failed, for whatever reasons, the resolution ends with what its reply
/// decodes to.
pub proof fn lemma_first_reply_decides(
    servers: Seq<Ipv4Address>,
    name: Seq<char>,
    resource_type: ResourceType,
    reasons: Seq<TransportError>,
    reply: Seq<u8>,
)
    requires
        reasons.len() < servers.len(),
    ensures
        Resolver::run(
            servers,
            Resolver::first_step(servers, name, resource_type),
            failed(reasons).push(Ok(reply)),
        ) == ProgressView::Done(Resolver::verdict(reply)),
{
    let start = Resolver::first_step(servers, name, resource_type);
    let last = seq![Ok::<Seq<u8>, TransportError>(reply)];
    assert(failed(reasons).push(Ok(reply)) == failed(reasons) + last);
    lemma_run_in_parts(servers, start, failed(reasons), last);
    lemma_next_nameserver_is_asked(servers, name, resource_type, reasons);
    let waiting = Resolver::run(servers, start, failed(reasons));
    lemma_run_one(servers, waiting->Ask_0, Ok(reply));
}

/// Where every nameserver of the list fails, the resolution ends with
/// `ResolveFailed`.
pub proof fn lemma_all_fail(
    servers: Seq<Ipv4Address>,
    name: Seq<char>,
    resource_type: ResourceType,
    reasons: Seq<TransportError>,
)
    requires
        servers.len() >= 1,
        reasons.len() >= servers.len(),
    ensures
        Resolver::run(
            servers,
            Resolver::first_step(servers, name, resource_type),
            failed(reasons),
        ) == ProgressView::Done(Err::<MessageView, ResolveError>(ResolveError::ResolveFailed)),
{
    let start = Resolver::first_step(servers, name, resource_type);
    let n = servers.len() as int;
    let before = reasons.take(n - 1);
    let last = seq![Err::<Seq<u8>, TransportError>(reasons[n - 1])];
    let after = failed(reasons.skip(n));
    let ended = ProgressView::Done(Err::<MessageView, ResolveError>(ResolveError::ResolveFailed));
    let waiting = Resolver::run(servers, start, failed(before));
    assert(Resolver::run(servers, start, failed(before) + last) == ended) by {
        lemma_run_in_parts(servers, start, failed(before), last);
        lemma_next_nameserver_is_asked(servers, name, resource_type, before);
        lemma_run_one(servers, waiting->Ask_0, last[0]);
    }
    assert(failed(reasons) == (failed(before) + last) + after);
    lemma_run_in_parts(servers, start, failed(before) + last, after);
    lemma_run_ended(servers, ended, after);
}

} // verus!
