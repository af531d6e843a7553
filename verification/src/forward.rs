//! Forwarding a request to an upstream server: the headers it carries there, and
//! the steps from the connection to the answer.
use crate::addr::{ip_text, ip_to_string, socket_text, socket_to_string, SocketAddr};
use crate::config::RuntimeProxyHeader;
use crate::headers::{get_header, has_room, header_contents, insert_header, is_header_name};
use crate::headers::{is_header_value, lower, parse_header_value, text_value, Field, FieldValue};
use crate::proxy::{error_response, PlainResponse, STATUS_BAD_GATEWAY};
use crate::text::same_text;
use crate::uri::{parsed_uri, UpstreamUri};
use hyper::header::HeaderValue;
use hyper::{HeaderMap, Uri};
use vstd::prelude::*;

verus! {

// ---- The headers of a forwarded request ----

/// What the headers of a forwarded request are made from.
pub struct HeaderSource {
    /// The first `Host` value of the client's request.
    pub original_host: Option<Field>,
    /// The address of the upstream server.
    pub upstream_host: Field,
    /// The address of the client, without the port.
    pub remote_ip: Seq<char>,
}

/// What the headers are made from for a client at `remote_addr`.
pub open spec fn header_source(
    original_host: Option<Field>,
    upstream_host: Field,
    remote_addr: SocketAddr,
) -> HeaderSource {
    HeaderSource { original_host, upstream_host, remote_ip: ip_text(remote_addr.spec_ip()) }
}

/// The value that a text stands for: `$host` for the host that the client asked
/// for, `$remote_addr` for the client's address, any other text for itself.
pub open spec fn header_value(text: Seq<char>, source: HeaderSource) -> Option<Field> {
    if text == "$host"@ {
        source.original_host
    } else if text == "$remote_addr"@ {
        text_value(source.remote_ip)
    } else {
        text_value(text)
    }
}

/// The value that the last of the headers with the given name sets, without the
/// headers whose text stands for nothing.
pub open spec fn last_value(
    headers: Seq<RuntimeProxyHeader>,
    name: Seq<char>,
    source: HeaderSource,
) -> Option<Field>
    decreases headers.len(),
{
    if headers.len() == 0 {
        None
    } else if headers.last().spec_name() == name && header_value(
        headers.last().spec_value(),
        source,
    ) is Some {
        header_value(headers.last().spec_value(), source)
    } else {
        last_value(headers.drop_last(), name, source)
    }
}

/// The values of a name in the forwarded request: what the headers set, else the
/// upstream server for `host`, else what the client sent.
pub open spec fn forwarded_values(
    contents: Map<Seq<char>, Seq<Field>>,
    headers: Seq<RuntimeProxyHeader>,
    source: HeaderSource,
    name: Seq<char>,
) -> Option<Seq<Field>> {
    match last_value(headers, name, source) {
        Some(value) => Some(seq![value]),
        None => if name == "host"@ {
            Some(seq![source.upstream_host])
        } else if contents.contains_key(name) {
            Some(contents[name])
        } else {
            None
        },
    }
}

/// The headers of the forwarded request.
pub open spec fn forwarded_headers(
    contents: Map<Seq<char>, Seq<Field>>,
    headers: Seq<RuntimeProxyHeader>,
    source: HeaderSource,
) -> Map<Seq<char>, Seq<Field>> {
    Map::new(
        |name: Seq<char>| forwarded_values(contents, headers, source, name) is Some,
        |name: Seq<char>| forwarded_values(contents, headers, source, name)->0,
    )
}

/// The value that an option holds.
pub open spec fn opt_field(value: Option<FieldValue>) -> Option<Field> {
    match value {
        Some(value) => Some(value@),
        None => None,
    }
}

/// `host` is a header name in lower case.
proof fn lemma_host_name()
    ensures
        is_header_name("host"@),
        lower("host"@) == "host"@,
{
    reveal_strlit("host");
    assert(lower("host"@) =~= "host"@);
}

/// What one more header does to the headers of the forwarded request.
proof fn lemma_next_header(
    contents: Map<Seq<char>, Seq<Field>>,
    headers: Seq<RuntimeProxyHeader>,
    source: HeaderSource,
    i: int,
)
    requires
        0 <= i < headers.len(),
    ensures
        forwarded_headers(contents, headers.take(i + 1), source) == match header_value(
            headers[i].spec_value(),
            source,
        ) {
            Some(value) => forwarded_headers(contents, headers.take(i), source).insert(
                headers[i].spec_name(),
                seq![value],
            ),
            None => forwarded_headers(contents, headers.take(i), source),
        },
{
    let before = headers.take(i);
    let after = headers.take(i + 1);
    assert(after.drop_last() =~= before);
    assert(after.last() == headers[i]);
    let value = header_value(headers[i].spec_value(), source);
    assert(forall|name: Seq<char>| #[trigger]
        last_value(after, name, source) == if headers[i].spec_name() == name && value is Some {
            value
        } else {
            last_value(before, name, source)
        });
    if value is Some {
        assert(forwarded_headers(contents, after, source) =~= forwarded_headers(
            contents,
            before,
            source,
        ).insert(headers[i].spec_name(), seq![value->0]));
    } else {
        assert(forwarded_headers(contents, after, source) =~= forwarded_headers(
            contents,
            before,
            source,
        ));
    }
}

/// Whether the headers are those of the client's request, or those of the
/// forwarded request as far as some of the headers to set go.
pub open spec fn partly_forwarded(
    contents: Map<Seq<char>, Seq<Field>>,
    headers: Seq<RuntimeProxyHeader>,
    source: HeaderSource,
    result: Map<Seq<char>, Seq<Field>>,
) -> bool {
    ||| result == contents
    ||| exists|count: int|
        0 <= count < headers.len() && result == #[trigger] forwarded_headers(
            contents,
            headers.take(count),
            source,
        )
}

/// Why the headers of a request cannot be set.
#[derive(Debug, Clone, Copy, PartialEq, Eq, Structural)]
pub enum HeaderError {
    /// The address of the upstream server is not a header value.
    InvalidHost,
    /// The header map cannot grow any more.
    TooManyHeaders,
}

/// Whether a map with these headers may be unable to take `more` names.
pub open spec fn may_be_full(contents: Map<Seq<char>, Seq<Field>>, more: nat) -> bool {
    contents.dom().finite() && !has_room(contents, more)
}

/// Sets the headers of a forwarded request. `Host` is the upstream server unless
/// the headers say otherwise. A map that cannot grow is left with the headers set
/// so far. Beyond the names that every map takes, whether one can grow rests on
/// the hashes of its names.
pub fn apply_proxy_headers(
    header_map: &mut HeaderMap<HeaderValue>,
    proxy_header: &[RuntimeProxyHeader],
    original_host: Option<FieldValue>,
    upstream_host: FieldValue,
    remote_addr: SocketAddr,
) -> (res: Result<(), HeaderError>)
    requires
        original_host matches Some(host) ==> is_header_value(host@.bytes),
        is_header_value(upstream_host@.bytes),
    ensures
        ({
            let contents = header_contents(*old(header_map));
            let result = header_contents(*final(header_map));
            let source = header_source(opt_field(original_host), upstream_host@, remote_addr);
            match res {
                Ok(()) => result == forwarded_headers(contents, proxy_header@, source),
                Err(error) => {
                    &&& error is TooManyHeaders
                    &&& may_be_full(contents, proxy_header@.len() + 1)
                    &&& partly_forwarded(contents, proxy_header@, source, result)
                },
            }
        }),
{
    let ghost source = header_source(opt_field(original_host), upstream_host@, remote_addr);
    let ghost contents = header_contents(*header_map);
    proof {
        lemma_host_name();
    }
    if !insert_header(header_map, "host", &upstream_host) {
        return Err(HeaderError::TooManyHeaders);
    }
    let mut i: usize = 0;
    proof {
        assert(proxy_header@.take(0).len() == 0);
        assert(header_contents(*header_map) =~= forwarded_headers(
            contents,
            proxy_header@.take(0),
            source,
        ));
        assert(contents.dom().subset_of(header_contents(*header_map).dom()));
        vstd::set_lib::lemma_set_subset_finite(
            header_contents(*header_map).dom(),
            contents.dom(),
        );
    }
    while i < proxy_header.len()
        invariant
            i <= proxy_header@.len(),
            contents == header_contents(*old(header_map)),
            source == header_source(opt_field(original_host), upstream_host@, remote_addr),
            original_host matches Some(host) ==> is_header_value(host@.bytes),
            header_contents(*header_map) == forwarded_headers(
                contents,
                proxy_header@.take(i as int),
                source,
            ),
            contents.dom().finite(),
            header_contents(*header_map).dom().finite(),
            header_contents(*header_map).dom().len() <= contents.dom().len() + 1 + i,
        decreases proxy_header@.len() - i,
    {
        let header: &RuntimeProxyHeader = &proxy_header[i];
        let value: Option<FieldValue> = if same_text(header.value(), "$host") {
            match &original_host {
                Some(host) => Some(host.clone()),
                None => None,
            }
        } else if same_text(header.value(), "$remote_addr") {
            parse_header_value(ip_to_string(remote_addr.ip()).as_str())
        } else {
            parse_header_value(header.value())
        };
        assert(opt_field(value) == header_value(header.spec_value(), source));
        proof {
            lemma_next_header(contents, proxy_header@, source, i as int);
        }
        if let Some(value) = value {
            if !insert_header(header_map, header.name(), &value) {
                return Err(HeaderError::TooManyHeaders);
            }
        }
        i += 1;
    }
    assert(proxy_header@.take(i as int) =~= proxy_header@);
    Ok(())
}

/// The first value of `host`.
pub open spec fn host_of(contents: Map<Seq<char>, Seq<Field>>) -> Option<Field> {
    if contents.contains_key("host"@) {
        Some(contents["host"@][0])
    } else {
        None
    }
}

/// Whether the headers of a request were set for a forwarded one to the host with
/// the given text: the map before and after, and how it went.
pub open spec fn headers_set_for(
    before: HeaderMap<HeaderValue>,
    proxy_header: Seq<RuntimeProxyHeader>,
    upstream_host: Seq<char>,
    remote_addr: SocketAddr,
    after: HeaderMap<HeaderValue>,
    res: Result<(), HeaderError>,
) -> bool {
    let contents = header_contents(before);
    match text_value(upstream_host) {
        None => res == Err::<(), HeaderError>(HeaderError::InvalidHost) && after == before,
        Some(host) => {
            let source = header_source(host_of(contents), host, remote_addr);
            match res {
                Ok(()) => header_contents(after) == forwarded_headers(
                    contents,
                    proxy_header,
                    source,
                ),
                Err(error) => {
                    &&& error is TooManyHeaders
                    &&& may_be_full(contents, proxy_header.len() + 1)
                    &&& partly_forwarded(contents, proxy_header, source, header_contents(after))
                },
            }
        },
    }
}

/// Sets the headers of a request that is forwarded to the server with the address
/// text `upstream_host` for the client at `remote_addr`.
pub fn forward_headers_to(
    header_map: &mut HeaderMap<HeaderValue>,
    proxy_header: &[RuntimeProxyHeader],
    upstream_host: &str,
    remote_addr: SocketAddr,
) -> (res: Result<(), HeaderError>)
    ensures
        headers_set_for(
            *old(header_map),
            proxy_header@,
            upstream_host@,
            remote_addr,
            *final(header_map),
            res,
        ),
{
    proof {
        lemma_host_name();
    }
    let host: FieldValue = match parse_header_value(upstream_host) {
        Some(host) => host,
        None => {
            return Err(HeaderError::InvalidHost);
        },
    };
    let original_host: Option<FieldValue> = get_header(header_map, "host");
    assert(opt_field(original_host) == host_of(header_contents(*header_map)));
    apply_proxy_headers(header_map, proxy_header, original_host, host, remote_addr)
}

/// Sets the headers of a request that is forwarded to the server at `target` for
/// the client at `remote_addr`.
pub fn forward_headers(
    header_map: &mut HeaderMap<HeaderValue>,
    proxy_header: &[RuntimeProxyHeader],
    target: SocketAddr,
    remote_addr: SocketAddr,
) -> (res: Result<(), HeaderError>)
    ensures
        headers_set_for(
            *old(header_map),
            proxy_header@,
            socket_text(target),
            remote_addr,
            *final(header_map),
            res,
        ),
{
    forward_headers_to(
        header_map,
        proxy_header,
        socket_to_string(target).as_str(),
        remote_addr,
    )
}

// ---- The steps of forwarding a request ----

/// What is being done for a forwarded request.
#[derive(Debug, Clone, Copy, PartialEq, Eq, Structural)]
pub enum ForwardStage {
    /// A connection to the server is being opened.
    Connecting,
    /// HTTP is being set up on the connection.
    Handshaking,
    /// The request is being sent, and its answer awaited.
    Sending,
    /// The client has its answer.
    Done,
}

/// What is to be done next for a forwarded request.
#[derive(Debug)]
pub enum ForwardStep {
    /// Set up HTTP on the connection.
    Handshake,
    /// Send the request, and await its answer.
    Send,
    /// Give the client the server's answer.
    Relay,
    /// Give the client this answer.
    Respond(PlainResponse),
}

/// What is to be done next, over texts.
pub enum NextStep {
    Handshake,
    Send,
    Relay,
    Respond { status: u16, body: Seq<char> },
}

impl View for ForwardStep {
    type V = NextStep;

    open spec fn view(&self) -> NextStep {
        match *self {
            ForwardStep::Handshake => NextStep::Handshake,
            ForwardStep::Send => NextStep::Send,
            ForwardStep::Relay => NextStep::Relay,
            ForwardStep::Respond(response) => NextStep::Respond {
                status: response.status,
                body: response.body@,
            },
        }
    }
}

/// A request on its way to an upstream server.
#[derive(Debug)]
pub struct Forward {
    /// The path and query that the server is asked for.
    pub uri: UpstreamUri,
    /// The address of the server.
    pub target: SocketAddr,
    pub stage: ForwardStage,
}

/// The path and query that the server is asked for: the client's, else the root.
pub open spec fn forwarded_path(path_and_query: Option<&str>) -> Seq<char> {
    match path_and_query {
        Some(text) => text@,
        None => "/"@,
    }
}

/// What failed at a stage, as the client is told.
pub open spec fn failed_stage(stage: ForwardStage) -> Seq<char> {
    match stage {
        ForwardStage::Connecting => "failed to connect upstream "@,
        ForwardStage::Handshaking => "failed to handshake upstream "@,
        _ => "failed to send request to upstream "@,
    }
}

/// The stage after a stage, and what is to be done in it. `failure` is the text
/// of the error if what was being done failed.
pub open spec fn after_stage(
    stage: ForwardStage,
    target: Seq<char>,
    failure: Option<Seq<char>>,
) -> (ForwardStage, NextStep) {
    match failure {
        Some(error) => (
            ForwardStage::Done,
            NextStep::Respond {
                status: STATUS_BAD_GATEWAY,
                body: failed_stage(stage) + target + ": "@ + error,
            },
        ),
        None => match stage {
            ForwardStage::Connecting => (ForwardStage::Handshaking, NextStep::Handshake),
            ForwardStage::Handshaking => (ForwardStage::Sending, NextStep::Send),
            _ => (ForwardStage::Done, NextStep::Relay),
        },
    }
}

/// The text of an error, if there is one.
pub open spec fn failure_of(outcome: Result<(), String>) -> Option<Seq<char>> {
    match outcome {
        Ok(()) => None,
        Err(error) => Some(error@),
    }
}

impl Forward {
    /// Starts to forward a request for `path_and_query` to the server at `target`:
    /// a connection is to be opened. If the path is no request target, the client
    /// gets the answer in the error instead.
    pub fn start(path_and_query: Option<&str>, target: SocketAddr) -> (res: Result<
        Forward,
        PlainResponse,
    >)
        ensures
            match res {
                Ok(forward) => {
                    &&& parsed_uri(forwarded_path(path_and_query)) == Ok::<Uri, Seq<char>>(
                        forward.uri.parsed(),
                    )
                    &&& forward.uri.text() == forwarded_path(path_and_query)
                    &&& forward.target == target
                    &&& forward.stage is Connecting
                },
                Err(response) => {
                    &&& parsed_uri(forwarded_path(path_and_query)) matches Err(error)
                    &&& response.is(STATUS_BAD_GATEWAY, "invalid upstream uri: "@ + error)
                },
            },
    {
        let text: &str = match path_and_query {
            Some(text) => text,
            None => "/",
        };
        Self::with_uri(UpstreamUri::parse(text), target)
    }

    /// Starts to forward a request, given its target or the error in it.
    pub fn with_uri(uri: Result<UpstreamUri, String>, target: SocketAddr) -> (res: Result<
        Forward,
        PlainResponse,
    >)
        ensures
            match uri {
                Ok(uri) => res == Ok::<Forward, PlainResponse>(
                    Forward { uri, target, stage: ForwardStage::Connecting },
                ),
                Err(error) => res matches Err(response) && response.is(
                    STATUS_BAD_GATEWAY,
                    "invalid upstream uri: "@ + error@,
                ),
            },
    {
        match uri {
            Ok(uri) => Ok(Forward { uri, target, stage: ForwardStage::Connecting }),
            Err(error) => Err(
                error_response(
                    STATUS_BAD_GATEWAY,
                    "invalid upstream uri: ".to_owned().concat(error.as_str()),
                ),
            ),
        }
    }

    /// Takes in how the work of the current stage went, and tells what is to be
    /// done next.
    pub fn advance(&mut self, outcome: Result<(), String>) -> (res: ForwardStep)
        requires
            old(self).stage !is Done,
        ensures
            final(self).uri == old(self).uri,
            final(self).target == old(self).target,
            (final(self).stage, res@) == after_stage(
                old(self).stage,
                socket_text(old(self).target),
                failure_of(outcome),
            ),
    {
        match outcome {
            Ok(()) => match self.stage {
                ForwardStage::Connecting => {
                    self.stage = ForwardStage::Handshaking;
                    ForwardStep::Handshake
                },
                ForwardStage::Handshaking => {
                    self.stage = ForwardStage::Sending;
                    ForwardStep::Send
                },
                _ => {
                    self.stage = ForwardStage::Done;
                    ForwardStep::Relay
                },
            },
            Err(error) => {
                let failed: &str = match self.stage {
                    ForwardStage::Connecting => "failed to connect upstream ",
                    ForwardStage::Handshaking => "failed to handshake upstream ",
                    _ => "failed to send request to upstream ",
                };
                self.stage = ForwardStage::Done;
                let body: String = failed.to_owned().concat(
                    socket_to_string(self.target).as_str(),
                ).concat(
                    ": ",
                ).concat(error.as_str());
                ForwardStep::Respond(error_response(STATUS_BAD_GATEWAY, body))
            },
        }
    }
}

} // verus!
