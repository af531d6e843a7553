//! The configuration as it is written, and the configuration that requests are
//! served by.
use crate::addr::SocketAddr;
use crate::headers::{is_header_name, lemma_lower, lower, parse_header_name};
use crate::names::{names_contain, names_distinct, position_of, NameMap};
use crate::pattern::{compiled_regex, LocationRegex};
use crate::upstream::RuntimeUpstream;
use regex::Regex;
use vstd::prelude::*;

verus! {

// ---- The configuration as it is written ----

/// The whole configuration.
#[derive(Debug)]
pub struct MainConfig {
    pub worker_processes: u32,
    pub error_log: String,
    pub upstreams: NameMap<UpstreamConfig>,
    pub http: HttpConfig,
    pub stream: StreamConfig,
}

/// A group of servers that locations and streams refer to by name.
#[derive(Debug)]
pub struct UpstreamConfig {
    pub servers: Vec<SocketAddr>,
    pub load_balancing: LbMethod,
}

/// How a group chooses the server for a request.
#[derive(Debug, Clone, Copy, PartialEq, Eq, Structural)]
pub enum LbMethod {
    RoundRobin,
    LeastConn,
    IpHash,
}

/// The HTTP part.
#[derive(Debug)]
pub struct HttpConfig {
    pub include_mimes: bool,
    pub servers: Vec<HttpServerConfig>,
}

/// An HTTP server: where it listens, the headers it sets, and its locations.
#[derive(Debug, Clone)]
pub struct HttpServerConfig {
    pub listen: SocketAddr,
    pub server_name: String,
    pub proxy_set_header: NameMap<String>,
    pub locations: Vec<LocationConfig>,
}

/// What is done with the requests whose path a pattern matches.
#[derive(Debug, Clone)]
pub struct LocationConfig {
    pub path: String,
    pub match_type: LocationMatch,
    pub action: LocationAction,
    pub proxy_set_header: NameMap<String>,
}

/// What a location does: forward to the upstream of a name, or serve files.
#[derive(Debug)]
pub enum LocationAction {
    Proxy(String),
    Static(String),
}

impl Clone for LocationAction {
    fn clone(&self) -> (res: Self)
        ensures
            res == *self,
    {
        match self {
            LocationAction::Proxy(name) => LocationAction::Proxy(name.clone()),
            LocationAction::Static(root) => LocationAction::Static(root.clone()),
        }
    }
}

/// How a location's path is compared with a request's.
#[derive(Debug, Clone, Copy, PartialEq, Eq, Structural)]
pub enum LocationMatch {
    Prefix,
    Exact,
    Regex,
}

/// The stream part.
#[derive(Debug)]
pub struct StreamConfig {
    pub servers: Vec<StreamServerConfig>,
}

/// A stream server: where it listens and where its connections go.
#[derive(Debug, Clone)]
pub struct StreamServerConfig {
    pub listen: SocketAddr,
    pub target: StreamTarget,
}

/// Where the connections of a stream server go.
#[derive(Debug)]
pub enum StreamTarget {
    Upstream(String),
    Direct(SocketAddr),
}

impl Clone for StreamTarget {
    fn clone(&self) -> (res: Self)
        ensures
            res == *self,
    {
        match self {
            StreamTarget::Upstream(name) => StreamTarget::Upstream(name.clone()),
            StreamTarget::Direct(addr) => StreamTarget::Direct(*addr),
        }
    }
}

impl LocationConfig {
    /// Whether the location takes only its own path.
    pub fn is_exact(&self) -> (res: bool)
        ensures
            res == (self.match_type is Exact),
    {
        self.match_type == LocationMatch::Exact
    }

    /// Whether the location's path is a regular expression.
    pub fn is_regex(&self) -> (res: bool)
        ensures
            res == (self.match_type is Regex),
    {
        self.match_type == LocationMatch::Regex
    }

    /// Whether the location takes all paths that start with its own.
    pub fn is_prefix(&self) -> (res: bool)
        ensures
            res == (self.match_type is Prefix),
    {
        self.match_type == LocationMatch::Prefix
    }
}

// ---- What is wrong with a configuration ----

/// Why a configuration is refused.
#[derive(Debug)]
pub enum ConfigError {
    /// A location or a stream refers to an upstream that is not there.
    UnknownUpstream { name: String },
    /// The path of a regular-expression location does not compile.
    InvalidLocationRegex { path: String, cause: String },
    /// A header that is to be set does not have the name of a header.
    InvalidHeaderName { name: String, cause: String },
}

/// A fault of a configuration, over texts.
pub enum Fault {
    UnknownUpstream { name: Seq<char> },
    InvalidLocationRegex { path: Seq<char>, cause: Seq<char> },
    InvalidHeaderName { name: Seq<char>, cause: Seq<char> },
}

impl View for ConfigError {
    type V = Fault;

    open spec fn view(&self) -> Fault {
        match *self {
            ConfigError::UnknownUpstream { name } => Fault::UnknownUpstream { name: name@ },
            ConfigError::InvalidLocationRegex { path, cause } => Fault::InvalidLocationRegex {
                path: path@,
                cause: cause@,
            },
            ConfigError::InvalidHeaderName { name, cause } => Fault::InvalidHeaderName {
                name: name@,
                cause: cause@,
            },
        }
    }
}

impl Fault {
    /// What the operator is told.
    pub open spec fn message(self) -> Seq<char> {
        match self {
            Fault::UnknownUpstream { name } => name + " not upstream"@,
            Fault::InvalidLocationRegex { path, .. } => "invalid location regex: "@ + path,
            Fault::InvalidHeaderName { name, .. } => "invalid proxy_set_header name: "@ + name,
        }
    }
}

impl ConfigError {
    /// What the operator is told.
    pub fn message(&self) -> (res: String)
        ensures
            res@ == self@.message(),
    {
        match self {
            ConfigError::UnknownUpstream { name } => name.clone().concat(" not upstream"),
            ConfigError::InvalidLocationRegex { path, .. } => "invalid location regex: ".to_owned().concat(
                path.as_str(),
            ),
            ConfigError::InvalidHeaderName { name, .. } => "invalid proxy_set_header name: ".to_owned().concat(
                name.as_str(),
            ),
        }
    }
}

/// The name of the upstream that a location forwards to.
pub open spec fn location_target(location: LocationConfig) -> Option<Seq<char>> {
    match location.action {
        LocationAction::Proxy(name) => Some(name@),
        LocationAction::Static(_) => None,
    }
}

/// The name of the upstream that a stream server forwards to.
pub open spec fn stream_target(server: StreamServerConfig) -> Option<Seq<char>> {
    match server.target {
        StreamTarget::Upstream(name) => Some(name@),
        StreamTarget::Direct(_) => None,
    }
}

/// Where the locations forward to, in order.
pub open spec fn location_targets(locations: Seq<LocationConfig>) -> Seq<Option<Seq<char>>> {
    locations.map_values(|location: LocationConfig| location_target(location))
}

/// Where the locations of all the servers forward to, in order.
pub open spec fn http_targets(servers: Seq<HttpServerConfig>) -> Seq<Option<Seq<char>>>
    decreases servers.len(),
{
    if servers.len() == 0 {
        Seq::empty()
    } else {
        http_targets(servers.drop_last()) + location_targets(servers.last().locations@)
    }
}

/// Where the stream servers forward to, in order.
pub open spec fn stream_targets(servers: Seq<StreamServerConfig>) -> Seq<Option<Seq<char>>> {
    servers.map_values(|server: StreamServerConfig| stream_target(server))
}

/// The last name among the targets that is not a known one.
pub open spec fn last_unknown(targets: Seq<Option<Seq<char>>>, known: Set<Seq<char>>) -> Option<
    Seq<char>,
>
    decreases targets.len(),
{
    if targets.len() == 0 {
        None
    } else {
        match targets.last() {
            Some(name) if !known.contains(name) => Some(name),
            _ => last_unknown(targets.drop_last(), known),
        }
    }
}

impl MainConfig {
    /// Where all locations and then all streams forward to, in order.
    pub open spec fn targets(&self) -> Seq<Option<Seq<char>>> {
        http_targets(self.http.servers@) + stream_targets(self.stream.servers@)
    }

    /// The last upstream that a location or a stream refers to and that is not
    /// there.
    pub open spec fn unknown_upstream(&self) -> Option<Seq<char>> {
        last_unknown(self.targets(), self.upstreams@.dom())
    }

    /// Notes the name of an upstream, if it is not there, in place of an earlier
    /// one.
    fn note_unknown(&self, name: &String, unknown: Option<String>) -> (res: Option<String>)
        ensures
            res == if self.upstreams@.contains_key(name@) {
                unknown
            } else {
                Some(*name)
            },
    {
        if self.upstreams.contains_key(name.as_str()) {
            unknown
        } else {
            Some(name.clone())
        }
    }

    /// Checks that every upstream is there that a location or a stream refers to.
    /// Otherwise the error names the last one that is not.
    pub fn verify_configuration(&self) -> (res: Result<(), ConfigError>)
        ensures
            match res {
                Ok(()) => self.unknown_upstream() is None,
                Err(error) => self.unknown_upstream() matches Some(name) && error@ == (
                Fault::UnknownUpstream { name }),
            },
    {
        let mut unknown: Option<String> = None;
        let ghost known = self.upstreams@.dom();
        let ghost mut seen: Seq<Option<Seq<char>>> = Seq::empty();
        let mut i: usize = 0;
        while i < self.http.servers.len()
            invariant
                i <= self.http.servers@.len(),
                known == self.upstreams@.dom(),
                seen == http_targets(self.http.servers@.take(i as int)),
                last_unknown(seen, known) == opt_view(unknown),
            decreases self.http.servers@.len() - i,
        {
            let locations: &Vec<LocationConfig> = &self.http.servers[i].locations;
            let ghost before = seen;
            let mut j: usize = 0;
            while j < locations.len()
                invariant
                    j <= locations@.len(),
                    known == self.upstreams@.dom(),
                    seen == before + location_targets(locations@.take(j as int)),
                    last_unknown(seen, known) == opt_view(unknown),
                decreases locations@.len() - j,
            {
                let location: &LocationConfig = &locations[j];
                if let LocationAction::Proxy(name) = &location.action {
                    unknown = self.note_unknown(name, unknown);
                }
                proof {
                    let next = seen.push(location_target(*location));
                    assert(next.drop_last() =~= seen);
                    assert(next =~= before + location_targets(locations@.take(j + 1)));
                    seen = next;
                }
                j += 1;
            }
            proof {
                assert(locations@.take(j as int) =~= locations@);
                let servers = self.http.servers@.take(i + 1);
                assert(servers.drop_last() =~= self.http.servers@.take(i as int));
            }
            i += 1;
        }
        assert(self.http.servers@.take(i as int) =~= self.http.servers@);
        let ghost before = seen;
        let mut k: usize = 0;
        assert(seen =~= before + stream_targets(self.stream.servers@.take(0)));
        while k < self.stream.servers.len()
            invariant
                k <= self.stream.servers@.len(),
                known == self.upstreams@.dom(),
                seen == before + stream_targets(self.stream.servers@.take(k as int)),
                last_unknown(seen, known) == opt_view(unknown),
            decreases self.stream.servers@.len() - k,
        {
            let server: &StreamServerConfig = &self.stream.servers[k];
            if let StreamTarget::Upstream(name) = &server.target {
                unknown = self.note_unknown(name, unknown);
            }
            proof {
                let next = seen.push(stream_target(*server));
                assert(next.drop_last() =~= seen);
                assert(next =~= before + stream_targets(self.stream.servers@.take(k + 1)));
                seen = next;
            }
            k += 1;
        }
        assert(self.stream.servers@.take(k as int) =~= self.stream.servers@);
        match unknown {
            Some(name) => Err(ConfigError::UnknownUpstream { name }),
            None => Ok(()),
        }
    }
}

/// The text that an option holds.
pub open spec fn opt_view(text: Option<String>) -> Option<Seq<char>> {
    match text {
        Some(text) => Some(text@),
        None => None,
    }
}

// ---- The configuration that requests are served by ----

/// The whole configuration, checked and ready.
#[derive(Debug)]
pub struct RuntimeConfig {
    pub worker_processes: u32,
    pub error_log: String,
    pub upstreams: NameMap<RuntimeUpstream>,
    pub http: RuntimeHttpConfig,
    pub stream: RuntimeStreamConfig,
}

/// The HTTP part.
#[derive(Debug)]
pub struct RuntimeHttpConfig {
    pub include_mimes: bool,
    pub servers: Vec<RuntimeHttpServer>,
}

/// An HTTP server: where it listens, and its locations.
#[derive(Debug)]
pub struct RuntimeHttpServer {
    pub listen: SocketAddr,
    pub server_name: String,
    pub locations: Vec<RuntimeLocation>,
}

/// A location with the headers it sets and its compiled path.
#[derive(Debug, Clone)]
pub struct RuntimeLocation {
    pub path: String,
    pub match_type: LocationMatch,
    pub action: LocationAction,
    pub proxy_set_header: Vec<RuntimeProxyHeader>,
    pub regex: Option<LocationRegex>,
}

/// A header to set: a header name in lower case, and a text that stands for the
/// value.
#[derive(Debug)]
pub struct RuntimeProxyHeader {
    name: String,
    value: String,
}

impl Clone for RuntimeProxyHeader {
    fn clone(&self) -> (res: Self)
        ensures
            res == *self,
    {
        proof {
            use_type_invariant(self);
        }
        RuntimeProxyHeader { name: self.name.clone(), value: self.value.clone() }
    }
}

/// The stream part.
#[derive(Debug)]
pub struct RuntimeStreamConfig {
    pub servers: Vec<RuntimeStreamServer>,
}

/// A stream server: where it listens and where its connections go.
#[derive(Debug, Clone)]
pub struct RuntimeStreamServer {
    pub listen: SocketAddr,
    pub target: StreamTarget,
}

/// The cause of a header name's refusal.
pub open spec fn header_name_cause() -> Seq<char> {
    "invalid HTTP header name"@
}

impl RuntimeProxyHeader {
    /// The name, in lower case.
    pub closed spec fn spec_name(&self) -> Seq<char> {
        self.name@
    }

    /// The text that stands for the value.
    pub closed spec fn spec_value(&self) -> Seq<char> {
        self.value@
    }

    #[verifier::type_invariant]
    spec fn inv(&self) -> bool {
        is_header_name(self.name@) && lower(self.name@) == self.name@
    }

    /// A header to set, if the name is a header name.
    pub fn new(name: String, value: String) -> (res: Result<Self, ConfigError>)
        ensures
            match res {
                Ok(header) => {
                    &&& is_header_name(name@)
                    &&& header.spec_name() == lower(name@)
                    &&& header.spec_value() == value@
                },
                Err(error) => !is_header_name(name@) && error@ == (Fault::InvalidHeaderName {
                    name: name@,
                    cause: header_name_cause(),
                }),
            },
    {
        match parse_header_name(name.as_str()) {
            Ok(parsed) => {
                proof {
                    lemma_lower(name@);
                }
                Ok(RuntimeProxyHeader { name: parsed, value })
            },
            Err(cause) => Err(ConfigError::InvalidHeaderName { name, cause }),
        }
    }

    /// The name, in lower case.
    pub fn name(&self) -> (res: &str)
        ensures
            res@ == self.spec_name(),
            is_header_name(res@),
            lower(res@) == res@,
    {
        proof {
            use_type_invariant(self);
        }
        self.name.as_str()
    }

    /// The text that stands for the value.
    pub fn value(&self) -> (res: &str)
        ensures
            res@ == self.spec_value(),
    {
        self.value.as_str()
    }
}

/// The headers that a location sets: those of its server that it does not set
/// itself, then its own.
pub open spec fn merged_headers(
    server: Seq<(Seq<char>, String)>,
    location: Seq<(Seq<char>, String)>,
) -> Seq<(Seq<char>, String)> {
    server.filter(|pair: (Seq<char>, String)| !names_contain(location, pair.0)) + location
}

/// The first name that is not a header name.
pub open spec fn first_bad_name(pairs: Seq<(Seq<char>, String)>) -> Option<Seq<char>>
    decreases pairs.len(),
{
    if pairs.len() == 0 {
        None
    } else {
        match first_bad_name(pairs.drop_last()) {
            Some(name) => Some(name),
            None => if is_header_name(pairs.last().0) {
                None
            } else {
                Some(pairs.last().0)
            },
        }
    }
}

/// Whether the headers set the values to the names, in order.
pub open spec fn sets_headers(
    headers: Seq<RuntimeProxyHeader>,
    pairs: Seq<(Seq<char>, String)>,
) -> bool {
    &&& headers.len() == pairs.len()
    &&& forall|i: int|
        0 <= i < pairs.len() ==> (#[trigger] headers[i]).spec_name() == lower(pairs[i].0)
            && headers[i].spec_value() == pairs[i].1@
}

impl RuntimeLocation {
    /// Whether the location takes only its own path.
    pub fn is_exact(&self) -> (res: bool)
        ensures
            res == (self.match_type is Exact),
    {
        self.match_type == LocationMatch::Exact
    }

    /// Whether the location's path is a regular expression.
    pub fn is_regex(&self) -> (res: bool)
        ensures
            res == (self.match_type is Regex),
    {
        self.match_type == LocationMatch::Regex
    }

    /// Whether the location takes all paths that start with its own.
    pub fn is_prefix(&self) -> (res: bool)
        ensures
            res == (self.match_type is Prefix),
    {
        self.match_type == LocationMatch::Prefix
    }

    /// Adds a header to those to set, if the name is a header name.
    fn push_header(headers: &mut Vec<RuntimeProxyHeader>, name: &str, value: &String) -> (res: Result<
        (),
        ConfigError,
    >)
        ensures
            match res {
                Ok(()) => {
                    &&& is_header_name(name@)
                    &&& final(headers)@.len() == old(headers)@.len() + 1
                    &&& final(headers)@.drop_last() == old(headers)@
                    &&& final(headers)@.last().spec_name() == lower(name@)
                    &&& final(headers)@.last().spec_value() == value@
                },
                Err(error) => !is_header_name(name@) && error@ == (Fault::InvalidHeaderName {
                    name: name@,
                    cause: header_name_cause(),
                }),
            },
    {
        match RuntimeProxyHeader::new(name.to_owned(), value.clone()) {
            Ok(header) => {
                headers.push(header);
                assert(headers@.drop_last() =~= old(headers)@);
                Ok(())
            },
            Err(error) => Err(error),
        }
    }

    /// The headers that a location sets, if all their names are header names:
    /// those of its server that it does not set itself, then its own.
    pub fn merge_headers(
        server_headers: &NameMap<String>,
        location_headers: &NameMap<String>,
    ) -> (res: Result<Vec<RuntimeProxyHeader>, ConfigError>)
        ensures
            ({
                let merged = merged_headers(server_headers.pairs(), location_headers.pairs());
                match res {
                    Ok(headers) => first_bad_name(merged) is None && sets_headers(headers@, merged),
                    Err(error) => first_bad_name(merged) matches Some(name) && error@ == (
                    Fault::InvalidHeaderName { name, cause: header_name_cause() }),
                }
            }),
    {
        let mut headers: Vec<RuntimeProxyHeader> = Vec::new();
        let ghost own = location_headers.pairs();
        let ghost inherited = server_headers.pairs();
        let ghost missing = |pair: (Seq<char>, String)| !names_contain(own, pair.0);
        let ghost kept = inherited.filter(missing);
        let ghost merged = merged_headers(inherited, own);
        let mut i: usize = 0;
        proof {
            reveal(Seq::filter);
        }
        while i < server_headers.len()
            invariant
                own == location_headers.pairs(),
                inherited == server_headers.pairs(),
                missing == (|pair: (Seq<char>, String)| !names_contain(own, pair.0)),
                kept == inherited.filter(missing),
                merged == kept + own,
                i <= inherited.len(),
                first_bad_name(inherited.take(i as int).filter(missing)) is None,
                sets_headers(headers@, inherited.take(i as int).filter(missing)),
            decreases inherited.len() - i,
        {
            let (name, value) = server_headers.pair_at(i);
            let ghost done = inherited.take(i as int).filter(missing);
            let ghost next = inherited.take(i + 1).filter(missing);
            proof {
                lemma_filter_take(inherited, missing, i as int);
            }
            if !location_headers.contains_key(name) {
                proof {
                    assert(missing(inherited[i as int]));
                    assert(next.drop_last() =~= done);
                    lemma_filter_prefix(inherited, missing, i + 1);
                    assert(next.is_prefix_of(merged));
                }
                let ghost before = headers@;
                if let Err(error) = Self::push_header(&mut headers, name, value) {
                    proof {
                        lemma_first_bad_name_stays(next, merged);
                    }
                    return Err(error);
                }
                proof {
                    lemma_sets_headers_push(before, headers@, next);
                }
            } else {
                assert(!missing(inherited[i as int]));
                assert(next =~= done);
            }
            i += 1;
        }
        let mut j: usize = 0;
        proof {
            assert(inherited.take(i as int) =~= inherited);
            assert(kept + own.take(0) =~= kept);
        }
        while j < location_headers.len()
            invariant
                own == location_headers.pairs(),
                merged == kept + own,
                merged == merged_headers(server_headers.pairs(), own),
                j <= own.len(),
                first_bad_name(kept + own.take(j as int)) is None,
                sets_headers(headers@, kept + own.take(j as int)),
            decreases own.len() - j,
        {
            let (name, value) = location_headers.pair_at(j);
            let ghost next = kept + own.take(j + 1);
            proof {
                assert(next.drop_last() =~= kept + own.take(j as int));
            }
            let ghost before = headers@;
            if let Err(error) = Self::push_header(&mut headers, name, value) {
                proof {
                    assert(next.is_prefix_of(merged));
                    lemma_first_bad_name_stays(next, merged);
                }
                return Err(error);
            }
            proof {
                lemma_sets_headers_push(before, headers@, next);
            }
            j += 1;
        }
        assert(own.take(j as int) =~= own);
        Ok(headers)
    }
}

impl RuntimeLocation {
    /// Whether the location does what its configuration says.
    pub open spec fn built_from(
        &self,
        server_headers: Seq<(Seq<char>, String)>,
        location: LocationConfig,
    ) -> bool {
        &&& self.path == location.path
        &&& self.match_type == location.match_type
        &&& self.action == location.action
        &&& sets_headers(
            self.proxy_set_header@,
            merged_headers(server_headers, location.proxy_set_header.pairs()),
        )
        &&& self.regex is Some <==> location.match_type is Regex
        &&& self.regex matches Some(regex) ==> regex.pattern() == location.path@
            && compiled_regex(location.path@) == Ok::<Regex, Seq<char>>(regex.compiled())
    }

    /// A location as its configuration and its server's headers say. Only the
    /// path of a regular-expression location is compiled.
    pub fn from_config(server_headers: &NameMap<String>, location: &LocationConfig) -> (res: Result<
        Self,
        ConfigError,
    >)
        ensures
            match res {
                Ok(built) => location_fault(server_headers.pairs(), *location) is None
                    && built.built_from(server_headers.pairs(), *location),
                Err(error) => location_fault(server_headers.pairs(), *location) == Some(error@),
            },
    {
        let regex: Option<LocationRegex> = if location.is_regex() {
            match LocationRegex::compile(location.path.as_str()) {
                Ok(regex) => Some(regex),
                Err(cause) => {
                    return Err(
                        ConfigError::InvalidLocationRegex { path: location.path.clone(), cause },
                    );
                },
            }
        } else {
            None
        };
        Self::with_regex(server_headers, location, regex)
    }

    /// A location as its configuration and its server's headers say, with its
    /// compiled path.
    pub fn with_regex(
        server_headers: &NameMap<String>,
        location: &LocationConfig,
        regex: Option<LocationRegex>,
    ) -> (res: Result<Self, ConfigError>)
        ensures
            ({
                let merged = merged_headers(
                    server_headers.pairs(),
                    location.proxy_set_header.pairs(),
                );
                match res {
                    Ok(built) => {
                        &&& first_bad_name(merged) is None
                        &&& built.path == location.path
                        &&& built.match_type == location.match_type
                        &&& built.action == location.action
                        &&& sets_headers(built.proxy_set_header@, merged)
                        &&& built.regex == regex
                    },
                    Err(error) => first_bad_name(merged) matches Some(name) && error@ == (
                    Fault::InvalidHeaderName { name, cause: header_name_cause() }),
                }
            }),
    {
        match Self::merge_headers(server_headers, &location.proxy_set_header) {
            Ok(proxy_set_header) => Ok(
                RuntimeLocation {
                    path: location.path.clone(),
                    match_type: location.match_type,
                    action: location.action.clone(),
                    proxy_set_header,
                    regex,
                },
            ),
            Err(error) => Err(error),
        }
    }
}

/// What is wrong with a location: its path, if that is to be compiled, else the
/// first of its header names that is bad.
pub open spec fn location_fault(
    server_headers: Seq<(Seq<char>, String)>,
    location: LocationConfig,
) -> Option<Fault> {
    if location.match_type is Regex && compiled_regex(location.path@) is Err {
        Some(
            Fault::InvalidLocationRegex {
                path: location.path@,
                cause: compiled_regex(location.path@)->Err_0,
            },
        )
    } else {
        match first_bad_name(merged_headers(server_headers, location.proxy_set_header.pairs())) {
            Some(name) => Some(Fault::InvalidHeaderName { name, cause: header_name_cause() }),
            None => None,
        }
    }
}

/// What is wrong with the first location that has a fault.
pub open spec fn first_location_fault(
    server_headers: Seq<(Seq<char>, String)>,
    locations: Seq<LocationConfig>,
) -> Option<Fault>
    decreases locations.len(),
{
    if locations.len() == 0 {
        None
    } else {
        match first_location_fault(server_headers, locations.drop_last()) {
            Some(fault) => Some(fault),
            None => location_fault(server_headers, locations.last()),
        }
    }
}

/// What is wrong with the first server that has a fault.
pub open spec fn first_server_fault(servers: Seq<HttpServerConfig>) -> Option<Fault>
    decreases servers.len(),
{
    if servers.len() == 0 {
        None
    } else {
        match first_server_fault(servers.drop_last()) {
            Some(fault) => Some(fault),
            None => first_location_fault(
                servers.last().proxy_set_header.pairs(),
                servers.last().locations@,
            ),
        }
    }
}

/// A fault among the first locations is the first one of all.
proof fn lemma_location_fault_stays(
    server_headers: Seq<(Seq<char>, String)>,
    locations: Seq<LocationConfig>,
    i: int,
)
    requires
        0 <= i <= locations.len(),
        first_location_fault(server_headers, locations.take(i)) is Some,
    ensures
        first_location_fault(server_headers, locations) == first_location_fault(
            server_headers,
            locations.take(i),
        ),
    decreases locations.len() - i,
{
    if i == locations.len() {
        assert(locations.take(i) =~= locations);
    } else {
        assert(locations.take(i + 1).drop_last() =~= locations.take(i));
        lemma_location_fault_stays(server_headers, locations, i + 1);
    }
}

/// A fault among the first servers is the first one of all.
proof fn lemma_server_fault_stays(servers: Seq<HttpServerConfig>, i: int)
    requires
        0 <= i <= servers.len(),
        first_server_fault(servers.take(i)) is Some,
    ensures
        first_server_fault(servers) == first_server_fault(servers.take(i)),
    decreases servers.len() - i,
{
    if i == servers.len() {
        assert(servers.take(i) =~= servers);
    } else {
        assert(servers.take(i + 1).drop_last() =~= servers.take(i));
        lemma_server_fault_stays(servers, i + 1);
    }
}

impl RuntimeHttpServer {
    /// Whether the server does what its configuration says.
    pub open spec fn built_from(&self, config: HttpServerConfig) -> bool {
        &&& self.listen == config.listen
        &&& self.server_name == config.server_name
        &&& self.locations@.len() == config.locations@.len()
        &&& forall|i: int|
            0 <= i < config.locations@.len() ==> (#[trigger] self.locations@[i]).built_from(
                config.proxy_set_header.pairs(),
                config.locations@[i],
            )
    }

    /// A server as its configuration says, if its locations have no fault.
    pub fn from_config(config: HttpServerConfig) -> (res: Result<Self, ConfigError>)
        ensures
            ({
                let fault = first_location_fault(
                    config.proxy_set_header.pairs(),
                    config.locations@,
                );
                match res {
                    Ok(built) => fault is None && built.built_from(config),
                    Err(error) => fault == Some(error@),
                }
            }),
    {
        let ghost headers = config.proxy_set_header.pairs();
        let mut locations: Vec<RuntimeLocation> = Vec::new();
        let mut i: usize = 0;
        while i < config.locations.len()
            invariant
                headers == config.proxy_set_header.pairs(),
                i <= config.locations@.len(),
                locations@.len() == i,
                first_location_fault(headers, config.locations@.take(i as int)) is None,
                forall|j: int|
                    0 <= j < i ==> (#[trigger] locations@[j]).built_from(
                        headers,
                        config.locations@[j],
                    ),
            decreases config.locations@.len() - i,
        {
            assert(config.locations@.take(i + 1).drop_last() =~= config.locations@.take(i as int));
            match RuntimeLocation::from_config(&config.proxy_set_header, &config.locations[i]) {
                Ok(location) => locations.push(location),
                Err(error) => {
                    proof {
                        lemma_location_fault_stays(headers, config.locations@, i + 1);
                    }
                    return Err(error);
                },
            }
            i += 1;
        }
        assert(config.locations@.take(i as int) =~= config.locations@);
        Ok(RuntimeHttpServer { listen: config.listen, server_name: config.server_name, locations })
    }
}

impl RuntimeHttpConfig {
    /// Whether the HTTP part does what its configuration says.
    pub open spec fn built_from(&self, config: HttpConfig) -> bool {
        &&& self.include_mimes == config.include_mimes
        &&& self.servers@.len() == config.servers@.len()
        &&& forall|i: int|
            0 <= i < config.servers@.len() ==> (#[trigger] self.servers@[i]).built_from(
                config.servers@[i],
            )
    }

    /// The HTTP part as its configuration says, if its servers have no fault.
    pub fn from_config(config: HttpConfig) -> (res: Result<Self, ConfigError>)
        ensures
            match res {
                Ok(built) => first_server_fault(config.servers@) is None && built.built_from(config),
                Err(error) => first_server_fault(config.servers@) == Some(error@),
            },
    {
        let ghost configs = config.servers@;
        let mut servers: Vec<RuntimeHttpServer> = Vec::new();
        for server in iter: config.servers
            invariant
                iter.seq() == configs,
                servers@.len() == iter.index(),
                first_server_fault(configs.take(iter.index())) is None,
                forall|j: int|
                    0 <= j < iter.index() ==> (#[trigger] servers@[j]).built_from(configs[j]),
        {
            let ghost i = iter.index();
            assert(configs.take(i + 1).drop_last() =~= configs.take(i));
            match RuntimeHttpServer::from_config(server) {
                Ok(built) => servers.push(built),
                Err(error) => {
                    proof {
                        lemma_server_fault_stays(configs, i + 1);
                    }
                    return Err(error);
                },
            }
        }
        assert(configs.take(configs.len() as int) =~= configs);
        Ok(RuntimeHttpConfig { include_mimes: config.include_mimes, servers })
    }
}

impl RuntimeStreamServer {
    /// Whether the server does what its configuration says.
    pub open spec fn built_from(&self, config: StreamServerConfig) -> bool {
        self.listen == config.listen && self.target == config.target
    }

    /// A stream server as its configuration says.
    pub fn from_config(config: StreamServerConfig) -> (res: Self)
        ensures
            res.built_from(config),
    {
        RuntimeStreamServer { listen: config.listen, target: config.target }
    }
}

impl RuntimeStreamConfig {
    /// Whether the stream part does what its configuration says.
    pub open spec fn built_from(&self, config: StreamConfig) -> bool {
        &&& self.servers@.len() == config.servers@.len()
        &&& forall|i: int|
            0 <= i < config.servers@.len() ==> (#[trigger] self.servers@[i]).built_from(
                config.servers@[i],
            )
    }

    /// The stream part as its configuration says.
    pub fn from_config(config: StreamConfig) -> (res: Self)
        ensures
            res.built_from(config),
    {
        let ghost configs = config.servers@;
        let mut servers: Vec<RuntimeStreamServer> = Vec::new();
        for server in iter: config.servers
            invariant
                iter.seq() == configs,
                servers@.len() == iter.index(),
                forall|j: int|
                    0 <= j < iter.index() ==> (#[trigger] servers@[j]).built_from(configs[j]),
        {
            servers.push(RuntimeStreamServer::from_config(server));
        }
        RuntimeStreamConfig { servers }
    }
}

/// Whether the groups are those of the configuration, under the same names.
pub open spec fn upstreams_built_from(
    upstreams: Seq<(Seq<char>, RuntimeUpstream)>,
    configs: Seq<(Seq<char>, UpstreamConfig)>,
) -> bool {
    &&& upstreams.len() == configs.len()
    &&& forall|i: int|
        0 <= i < configs.len() ==> (#[trigger] upstreams[i]).0 == configs[i].0
            && upstreams[i].1.built_from(configs[i].1)
}

impl MainConfig {
    /// What is wrong with the configuration: an upstream that is not there, else
    /// the first fault of a location.
    pub open spec fn fault(&self) -> Option<Fault> {
        match self.unknown_upstream() {
            Some(name) => Some(Fault::UnknownUpstream { name }),
            None => first_server_fault(self.http.servers@),
        }
    }
}

impl RuntimeConfig {
    /// Whether the configuration does what the written one says.
    pub open spec fn built_from(&self, config: MainConfig) -> bool {
        &&& self.worker_processes == config.worker_processes
        &&& self.error_log == config.error_log
        &&& upstreams_built_from(self.upstreams.pairs(), config.upstreams.pairs())
        &&& self.http.built_from(config.http)
        &&& self.stream.built_from(config.stream)
    }

    /// The groups of the configuration, ready for requests.
    fn build_upstreams(configs: NameMap<UpstreamConfig>) -> (res: NameMap<RuntimeUpstream>)
        ensures
            upstreams_built_from(res.pairs(), configs.pairs()),
            names_distinct(configs.pairs()),
    {
        let ghost pairs = configs.pairs();
        let mut upstreams: NameMap<RuntimeUpstream> = NameMap::new();
        let entries: Vec<(String, UpstreamConfig)> = configs.into_pairs();
        let ghost taken = entries@;
        for entry in iter: entries
            invariant
                iter.seq() == taken,
                pairs == taken.map_values(|entry: (String, UpstreamConfig)| (entry.0@, entry.1)),
                names_distinct(pairs),
                upstreams_built_from(upstreams.pairs(), pairs.take(iter.index())),
        {
            let ghost i = iter.index();
            let ghost before = upstreams.pairs();
            let (name, config) = entry;
            assert((name@, config) == pairs[i]);
            let upstream: RuntimeUpstream = RuntimeUpstream::from_config(config);
            proof {
                if names_contain(before, name@) {
                    let k = position_of(before, name@);
                    assert(before[k].0 == pairs.take(i)[k].0);
                    assert(pairs[k].0 != pairs[i].0);
                }
            }
            upstreams.insert(name, upstream);
            proof {
                let after = upstreams.pairs();
                assert(after == before.push((name@, upstream)));
                assert forall|j: int| 0 <= j < i + 1 implies (#[trigger] after[j]).0 == pairs.take(
                    i + 1,
                )[j].0 && after[j].1.built_from(pairs.take(i + 1)[j].1) by {
                    if j < i {
                        assert(after[j] == before[j]);
                        assert(pairs.take(i)[j] == pairs[j]);
                    }
                }
            }
        }
        assert(pairs.take(pairs.len() as int) =~= pairs);
        upstreams
    }
}

impl TryFrom<MainConfig> for RuntimeConfig {
    type Error = ConfigError;

    /// The configuration that requests are served by, if the written one has no
    /// fault.
    fn try_from(config: MainConfig) -> (res: Result<Self, ConfigError>)
        ensures
            match res {
                Ok(built) => {
                    &&& config.fault() is None
                    &&& built.built_from(config)
                    &&& names_distinct(config.upstreams.pairs())
                },
                Err(error) => config.fault() == Some(error@),
            },
    {
        if let Err(error) = config.verify_configuration() {
            return Err(error);
        }
        let http: RuntimeHttpConfig = match RuntimeHttpConfig::from_config(config.http) {
            Ok(http) => http,
            Err(error) => {
                return Err(error);
            },
        };
        Ok(
            RuntimeConfig {
                worker_processes: config.worker_processes,
                error_log: config.error_log,
                upstreams: Self::build_upstreams(config.upstreams),
                http,
                stream: RuntimeStreamConfig::from_config(config.stream),
            },
        )
    }
}

/// The result is no function of the written configuration alone: its groups hold
/// counters and hash keys. What holds of it is the contract of `try_from`.
impl vstd::std_specs::convert::TryFromSpecImpl<MainConfig> for RuntimeConfig {
    open spec fn obeys_try_from_spec() -> bool {
        false
    }

    open spec fn try_from_spec(config: MainConfig) -> Result<Self, ConfigError> {
        arbitrary()
    }
}

/// A bad name in a prefix is the first one in the whole.
proof fn lemma_first_bad_name_stays(
    prefix: Seq<(Seq<char>, String)>,
    pairs: Seq<(Seq<char>, String)>,
)
    requires
        prefix.is_prefix_of(pairs),
        first_bad_name(prefix) is Some,
    ensures
        first_bad_name(pairs) == first_bad_name(prefix),
    decreases pairs.len(),
{
    if prefix.len() == pairs.len() {
        assert(prefix =~= pairs);
    } else {
        assert(prefix.is_prefix_of(pairs.drop_last()));
        lemma_first_bad_name_stays(prefix, pairs.drop_last());
    }
}

/// One more header, for one more pair.
proof fn lemma_sets_headers_push(
    before: Seq<RuntimeProxyHeader>,
    after: Seq<RuntimeProxyHeader>,
    pairs: Seq<(Seq<char>, String)>,
)
    requires
        pairs.len() > 0,
        after.len() == before.len() + 1,
        after.drop_last() == before,
        sets_headers(before, pairs.drop_last()),
        after.last().spec_name() == lower(pairs.last().0),
        after.last().spec_value() == pairs.last().1@,
    ensures
        sets_headers(after, pairs),
{
    assert forall|i: int| 0 <= i < pairs.len() implies (#[trigger] after[i]).spec_name() == lower(
        pairs[i].0,
    ) && after[i].spec_value() == pairs[i].1@ by {
        if i < before.len() {
            assert(after[i] == before[i]);
            assert(pairs.drop_last()[i] == pairs[i]);
        }
    }
}

/// What the next element adds to the kept ones.
proof fn lemma_filter_take<A>(seq: Seq<A>, keep: spec_fn(A) -> bool, i: int)
    requires
        0 <= i < seq.len(),
    ensures
        seq.take(i + 1).filter(keep) == if keep(seq[i]) {
            seq.take(i).filter(keep).push(seq[i])
        } else {
            seq.take(i).filter(keep)
        },
{
    reveal(Seq::filter);
    assert(seq.take(i + 1).drop_last() =~= seq.take(i));
}

/// The kept ones of a prefix are a prefix of the kept ones.
proof fn lemma_filter_prefix<A>(seq: Seq<A>, keep: spec_fn(A) -> bool, i: int)
    requires
        0 <= i <= seq.len(),
    ensures
        seq.take(i).filter(keep).is_prefix_of(seq.filter(keep)),
    decreases seq.len() - i,
{
    if i == seq.len() {
        assert(seq.take(i) =~= seq);
    } else {
        lemma_filter_take(seq, keep, i);
        lemma_filter_prefix(seq, keep, i + 1);
    }
}

} // verus!
