//! What is done with a request: the location that answers it, and the server it
//! goes to or the answer that it gets instead.
use crate::addr::SocketAddr;
use crate::config::{LocationAction, RuntimeHttpServer, RuntimeLocation};
use crate::config::RuntimeProxyHeader;
use crate::names::NameMap;
use crate::pattern::regex_is_match;
use crate::text::{lemma_encode_longer, same_text, starts_with};
use crate::upstream::RuntimeUpstream;
use vstd::prelude::*;
use vstd::utf8::encode_utf8;

verus! {

// ---- The location that answers a request ----

/// Whether an exact location has the path of the request.
pub open spec fn exact_hit(location: RuntimeLocation, path: Seq<char>) -> bool {
    location.match_type is Exact && location.path@ == path
}

/// Whether the path of the request starts with that of a prefix location.
pub open spec fn prefix_hit(location: RuntimeLocation, path: Seq<char>) -> bool {
    location.match_type is Prefix && location.path@.is_prefix_of(path)
}

/// Whether the path of the request matches that of a regular-expression
/// location.
pub open spec fn regex_hit(location: RuntimeLocation, path: Seq<char>) -> bool {
    &&& location.match_type is Regex
    &&& location.regex matches Some(regex) && regex_is_match(regex.pattern(), path)
}

/// Whether a location is the first one for which `hit` holds.
pub open spec fn is_first_hit(
    locations: Seq<RuntimeLocation>,
    hit: spec_fn(RuntimeLocation) -> bool,
    index: int,
) -> bool {
    &&& 0 <= index < locations.len()
    &&& hit(locations[index])
    &&& forall|other: int| 0 <= other < index ==> !hit(#[trigger] locations[other])
}

/// The position of the first location for which `hit` holds.
pub open spec fn first_hit(
    locations: Seq<RuntimeLocation>,
    hit: spec_fn(RuntimeLocation) -> bool,
) -> Option<int> {
    if exists|index: int| is_first_hit(locations, hit, index) {
        Some(choose|index: int| is_first_hit(locations, hit, index))
    } else {
        None
    }
}

/// The position of the first exact location that has the path.
pub open spec fn first_exact(path: Seq<char>, locations: Seq<RuntimeLocation>) -> Option<int> {
    first_hit(locations, |location: RuntimeLocation| exact_hit(location, path))
}

/// The position of the first regular-expression location that matches the path.
pub open spec fn first_regex(path: Seq<char>, locations: Seq<RuntimeLocation>) -> Option<int> {
    first_hit(locations, |location: RuntimeLocation| regex_hit(location, path))
}

/// Whether a location is, among the prefix locations that the path starts with,
/// the one with the longest path, and the first of these.
pub open spec fn is_longest_prefix(
    path: Seq<char>,
    locations: Seq<RuntimeLocation>,
    index: int,
) -> bool {
    &&& 0 <= index < locations.len()
    &&& prefix_hit(locations[index], path)
    &&& forall|other: int|
        0 <= other < locations.len() && prefix_hit(#[trigger] locations[other], path) ==> {
            ||| locations[other].path@.len() < locations[index].path@.len()
            ||| locations[other].path@.len() == locations[index].path@.len() && index <= other
        }
}

/// The position of the prefix location with the longest path.
pub open spec fn longest_prefix(path: Seq<char>, locations: Seq<RuntimeLocation>) -> Option<int> {
    if exists|index: int| is_longest_prefix(path, locations, index) {
        Some(choose|index: int| is_longest_prefix(path, locations, index))
    } else {
        None
    }
}

/// The position of the location that answers a request, given the position of
/// the first regular-expression location that matches: an exact location, else
/// that one, else the longest prefix.
pub open spec fn located_with(
    path: Seq<char>,
    locations: Seq<RuntimeLocation>,
    regex: Option<int>,
) -> Option<int> {
    if first_exact(path, locations) is Some {
        first_exact(path, locations)
    } else if regex is Some {
        regex
    } else {
        longest_prefix(path, locations)
    }
}

/// The position of the location that answers a request.
pub open spec fn located(path: Seq<char>, locations: Seq<RuntimeLocation>) -> Option<int> {
    located_with(path, locations, first_regex(path, locations))
}

/// The position as a mathematical integer.
pub open spec fn opt_int(index: Option<usize>) -> Option<int> {
    match index {
        Some(index) => Some(index as int),
        None => None,
    }
}

/// There is at most one first hit.
pub proof fn lemma_first_hit(
    locations: Seq<RuntimeLocation>,
    hit: spec_fn(RuntimeLocation) -> bool,
    index: int,
)
    requires
        is_first_hit(locations, hit, index),
    ensures
        first_hit(locations, hit) == Some(index),
{
    let chosen = choose|index: int| is_first_hit(locations, hit, index);
    assert(is_first_hit(locations, hit, chosen));
    if chosen < index {
        assert(!hit(locations[chosen]));
    } else if index < chosen {
        assert(!hit(locations[index]));
    }
}

/// Without a hit there is no first one.
proof fn lemma_no_hit(locations: Seq<RuntimeLocation>, hit: spec_fn(RuntimeLocation) -> bool)
    requires
        forall|index: int| 0 <= index < locations.len() ==> !hit(#[trigger] locations[index]),
    ensures
        first_hit(locations, hit) is None,
{
}

/// There is at most one longest prefix.
pub proof fn lemma_longest_prefix(path: Seq<char>, locations: Seq<RuntimeLocation>, index: int)
    requires
        is_longest_prefix(path, locations, index),
    ensures
        longest_prefix(path, locations) == Some(index),
{
    let chosen = choose|index: int| is_longest_prefix(path, locations, index);
    assert(is_longest_prefix(path, locations, chosen));
    assert(prefix_hit(locations[chosen], path));
    assert(prefix_hit(locations[index], path));
}

/// The position of the first exact location that has the path.
fn find_exact(path: &str, locations: &[RuntimeLocation]) -> (res: Option<usize>)
    ensures
        opt_int(res) == first_exact(path@, locations@),
{
    let ghost hit = |location: RuntimeLocation| exact_hit(location, path@);
    let mut i: usize = 0;
    while i < locations.len()
        invariant
            i <= locations@.len(),
            hit == (|location: RuntimeLocation| exact_hit(location, path@)),
            forall|j: int| 0 <= j < i ==> !hit(#[trigger] locations@[j]),
        decreases locations@.len() - i,
    {
        if locations[i].is_exact() && same_text(path, locations[i].path.as_str()) {
            proof {
                lemma_first_hit(locations@, hit, i as int);
            }
            return Some(i);
        }
        i += 1;
    }
    proof {
        lemma_no_hit(locations@, hit);
    }
    None
}

/// The position of the first regular-expression location that matches the path.
fn find_regex(path: &str, locations: &[RuntimeLocation]) -> (res: Option<usize>)
    ensures
        opt_int(res) == first_regex(path@, locations@),
{
    let ghost hit = |location: RuntimeLocation| regex_hit(location, path@);
    let mut i: usize = 0;
    while i < locations.len()
        invariant
            i <= locations@.len(),
            hit == (|location: RuntimeLocation| regex_hit(location, path@)),
            forall|j: int| 0 <= j < i ==> !hit(#[trigger] locations@[j]),
        decreases locations@.len() - i,
    {
        if locations[i].is_regex() {
            if let Some(regex) = &locations[i].regex {
                if regex.is_match(path) {
                    proof {
                        lemma_first_hit(locations@, hit, i as int);
                    }
                    return Some(i);
                }
            }
        }
        i += 1;
    }
    proof {
        lemma_no_hit(locations@, hit);
    }
    None
}

/// The position of the prefix location with the longest path.
pub fn find_longest_prefix(path: &str, locations: &[RuntimeLocation]) -> (res: Option<usize>)
    ensures
        opt_int(res) == longest_prefix(path@, locations@),
{
    let mut longest: Option<usize> = None;
    let mut i: usize = 0;
    while i < locations.len()
        invariant
            i <= locations@.len(),
            match longest {
                Some(index) => index < i && is_longest_prefix(
                    path@,
                    locations@.take(i as int),
                    index as int,
                ),
                None => forall|j: int| 0 <= j < i ==> !prefix_hit(#[trigger] locations@[j], path@),
            },
        decreases locations@.len() - i,
    {
        let ghost shown = locations@.take(i as int);
        let ghost next = locations@.take(i + 1);
        assert(forall|j: int| 0 <= j < i ==> #[trigger] next[j] == shown[j]);
        assert(next[i as int] == locations@[i as int]);
        if locations[i].is_prefix() && starts_with(path, locations[i].path.as_str()) {
            match longest {
                Some(index) => {
                    proof {
                        lemma_prefix_lengths(path@, locations@[i as int].path@, locations@[index as int].path@);
                    }
                    if locations[i].path.as_str().as_bytes().len()
                        > locations[index].path.as_str().as_bytes().len() {
                        longest = Some(i);
                    }
                },
                None => {
                    longest = Some(i);
                },
            }
        }
        i += 1;
    }
    proof {
        assert(locations@.take(i as int) =~= locations@);
        if longest is Some {
            lemma_longest_prefix(path@, locations@, longest->0 as int);
        }
    }
    longest
}

/// Among prefixes of one text, more characters take more bytes.
proof fn lemma_prefix_lengths(text: Seq<char>, a: Seq<char>, b: Seq<char>)
    requires
        a.is_prefix_of(text),
        b.is_prefix_of(text),
    ensures
        a.len() > b.len() <==> encode_utf8(a).len() > encode_utf8(b).len(),
{
    if a.len() > b.len() {
        assert(b =~= a.subrange(0, b.len() as int));
        lemma_encode_longer(b, a);
    } else if a.len() < b.len() {
        assert(a =~= b.subrange(0, a.len() as int));
        lemma_encode_longer(a, b);
    } else {
        assert(a =~= b);
    }
}

/// The position of the location that answers a request, given the position of
/// the first regular-expression location that matches.
pub fn locate(path: &str, locations: &[RuntimeLocation], regex: Option<usize>) -> (res: Option<
    usize,
>)
    ensures
        opt_int(res) == located_with(path@, locations@, opt_int(regex)),
{
    match find_exact(path, locations) {
        Some(index) => Some(index),
        None => match regex {
            Some(index) => Some(index),
            None => find_longest_prefix(path, locations),
        },
    }
}

/// The location that answers a request: an exact one that has the path, else the
/// first regular expression that matches, else the longest prefix.
pub fn match_location<'a>(path: &str, locations: &'a [RuntimeLocation]) -> (res: Option<
    &'a RuntimeLocation,
>)
    ensures
        match res {
            Some(location) => located(path@, locations@) matches Some(index) && 0 <= index
                < locations@.len() && *location == locations@[index],
            None => located(path@, locations@) is None,
        },
{
    let regex: Option<usize> = match find_exact(path, locations) {
        Some(_) => None,
        None => find_regex(path, locations),
    };
    match locate(path, locations, regex) {
        Some(index) => {
            proof {
                lemma_located_in_range(path@, locations@);
            }
            Some(&locations[index])
        },
        None => None,
    }
}

/// The position of the location that answers a request is one of a location
/// which the request hits.
pub proof fn lemma_located_in_range(path: Seq<char>, locations: Seq<RuntimeLocation>)
    ensures
        located(path, locations) matches Some(index) ==> 0 <= index < locations.len() && (exact_hit(
            locations[index],
            path,
        ) || regex_hit(locations[index], path) || prefix_hit(locations[index], path)),
{
}

// ---- What is done with a request ----

/// The status of an answer that a server gave, or the proxy in its own name.
pub const STATUS_OK: u16 = 200;

/// The status of an answer where no server gave one.
pub const STATUS_BAD_GATEWAY: u16 = 502;

/// An answer that the proxy gives itself.
#[derive(Debug)]
pub struct PlainResponse {
    pub status: u16,
    pub body: String,
}

impl PlainResponse {
    /// Whether the answer has the status and the body.
    pub open spec fn is(&self, status: u16, body: Seq<char>) -> bool {
        self.status == status && self.body@ == body
    }
}

/// An answer with the given body.
pub fn full_response(body: String) -> (res: PlainResponse)
    ensures
        res.is(STATUS_OK, body@),
{
    PlainResponse { status: STATUS_OK, body }
}

/// An answer with the given status and body.
pub fn error_response(status: u16, body: String) -> (res: PlainResponse)
    ensures
        res.is(status, body@),
{
    let mut response: PlainResponse = full_response(body);
    response.status = status;
    response
}

/// What is done with a request: it is forwarded to a server with the headers of
/// its location, or answered.
#[derive(Debug)]
pub enum RequestAction<'a> {
    Forward { target: SocketAddr, proxy_set_header: &'a Vec<RuntimeProxyHeader> },
    Respond(PlainResponse),
}

/// What is done with a request, over texts.
pub enum Decision {
    Forward { target: SocketAddr, proxy_set_header: Seq<RuntimeProxyHeader> },
    Respond { status: u16, body: Seq<char> },
}

impl<'a> View for RequestAction<'a> {
    type V = Decision;

    open spec fn view(&self) -> Decision {
        match *self {
            RequestAction::Forward { target, proxy_set_header } => Decision::Forward {
                target,
                proxy_set_header: proxy_set_header@,
            },
            RequestAction::Respond(response) => Decision::Respond {
                status: response.status,
                body: response.body@,
            },
        }
    }
}

/// What is done with a request at a location. `selected` says whether the
/// upstream is there that the location forwards to, and the server that it chose.
pub open spec fn decision_at(
    location: Option<RuntimeLocation>,
    selected: Option<Option<SocketAddr>>,
) -> Decision {
    match location {
        Some(location) => match location.action {
            LocationAction::Proxy(_) => match selected {
                Some(Some(target)) => Decision::Forward {
                    target,
                    proxy_set_header: location.proxy_set_header@,
                },
                Some(None) => Decision::Respond { status: STATUS_OK, body: "hello"@ },
                None => Decision::Respond { status: STATUS_BAD_GATEWAY, body: "bad gateway"@ },
            },
            LocationAction::Static(root) => Decision::Respond {
                status: STATUS_OK,
                body: "static path "@ + root@,
            },
        },
        None => Decision::Respond { status: STATUS_OK, body: "hello"@ },
    }
}

/// The location that answers a request.
pub open spec fn location_for(path: Seq<char>, locations: Seq<RuntimeLocation>) -> Option<
    RuntimeLocation,
> {
    match located(path, locations) {
        Some(index) => Some(locations[index]),
        None => None,
    }
}

/// What the upstream of a location chooses for a client, if the upstream is
/// there, for a request that draws the number `ticket`.
pub open spec fn selected_for(
    location: Option<RuntimeLocation>,
    upstreams: Map<Seq<char>, RuntimeUpstream>,
    ticket: usize,
    remote_addr: SocketAddr,
) -> Option<Option<SocketAddr>> {
    match location {
        Some(location) => match location.action {
            LocationAction::Proxy(name) => if upstreams.contains_key(name@) {
                Some(upstreams[name@].selection(ticket, Some(remote_addr)))
            } else {
                None
            },
            LocationAction::Static(_) => None,
        },
        None => None,
    }
}

/// Whether `ticket` was drawn from the counter of the upstream of a location, if
/// the upstream is there and goes round its servers.
pub open spec fn drawn_for(
    location: Option<RuntimeLocation>,
    upstreams: Map<Seq<char>, RuntimeUpstream>,
    ticket: usize,
) -> bool {
    location matches Some(location) ==> location.action matches LocationAction::Proxy(name)
        ==> upstreams.contains_key(name@) ==> upstreams[name@].goes_round()
        ==> upstreams[name@].drawn(ticket)
}

/// What is done with a request that draws the number `ticket` from the counter of
/// its upstream.
pub open spec fn decision_for(
    path: Seq<char>,
    locations: Seq<RuntimeLocation>,
    upstreams: Map<Seq<char>, RuntimeUpstream>,
    ticket: usize,
    remote_addr: SocketAddr,
) -> Decision {
    let location = location_for(path, locations);
    decision_at(location, selected_for(location, upstreams, ticket, remote_addr))
}

/// Decides what is done with a request at a location.
pub fn decide<'a>(
    location: Option<&'a RuntimeLocation>,
    selected: Option<Option<SocketAddr>>,
) -> (res: RequestAction<'a>)
    ensures
        res@ == decision_at(
            match location {
                Some(location) => Some(*location),
                None => None,
            },
            selected,
        ),
{
    if let Some(location) = location {
        match &location.action {
            LocationAction::Proxy(_) => match selected {
                Some(Some(target)) => {
                    return RequestAction::Forward {
                        target,
                        proxy_set_header: &location.proxy_set_header,
                    };
                },
                Some(None) => {},
                None => {
                    return RequestAction::Respond(
                        error_response(STATUS_BAD_GATEWAY, "bad gateway".to_owned()),
                    );
                },
            },
            LocationAction::Static(root) => {
                return RequestAction::Respond(
                    full_response("static path ".to_owned().concat(root.as_str())),
                );
            },
        }
    }
    RequestAction::Respond(full_response("hello".to_owned()))
}

/// Decides what is done with a request for `req_path` from `remote_addr`. If its
/// upstream goes round its servers, the request draws a number from the counter of
/// the upstream, and gets the server for it.
pub fn handler_http<'a>(
    req_path: &str,
    server: &'a RuntimeHttpServer,
    upstreams: &NameMap<RuntimeUpstream>,
    remote_addr: SocketAddr,
) -> (res: RequestAction<'a>)
    ensures
        exists|ticket: usize|
            res@ == #[trigger] decision_for(
                req_path@,
                server.locations@,
                upstreams@,
                ticket,
                remote_addr,
            ) && drawn_for(location_for(req_path@, server.locations@), upstreams@, ticket),
{
    let location: Option<&'a RuntimeLocation> = match_location(
        req_path,
        server.locations.as_slice(),
    );
    let ghost shown = location_for(req_path@, server.locations@);
    let mut selected: Option<Option<SocketAddr>> = None;
    let ghost mut drawn: usize = 0;
    if let Some(location) = location {
        if let LocationAction::Proxy(name) = &location.action {
            if let Some(upstream) = upstreams.get(name.as_str()) {
                let choice: Option<SocketAddr> = upstream.select_server(Some(remote_addr));
                proof {
                    drawn =
                    choose|ticket: usize|
                        choice == #[trigger] upstream.selection(ticket, Some(remote_addr)) && (
                        upstream.goes_round() ==> upstream.drawn(ticket));
                }
                selected = Some(choice);
            }
        }
    }
    assert(selected == selected_for(shown, upstreams@, drawn, remote_addr));
    assert(drawn_for(shown, upstreams@, drawn));
    let action: RequestAction<'a> = decide(location, selected);
    assert(action@ == decision_for(req_path@, server.locations@, upstreams@, drawn, remote_addr));
    action
}

} // verus!
