//! What becomes of a configuration, as callers of the functions see it.
use crate::addr::SocketAddr;
use crate::config::{first_bad_name, first_location_fault, first_server_fault, http_targets};
use crate::config::{last_unknown, location_fault, location_targets, merged_headers};
use crate::config::{stream_targets, ConfigError, HttpConfig, HttpServerConfig, LocationAction};
use crate::config::{LocationConfig, LocationMatch, MainConfig, RuntimeConfig, RuntimeHttpConfig};
use crate::config::{RuntimeHttpServer, RuntimeLocation, RuntimeProxyHeader, RuntimeStreamConfig};
use crate::config::{RuntimeStreamServer, StreamConfig, StreamServerConfig, StreamTarget};
use crate::headers::{is_header_name, is_token_char, lower, lower_char};
use crate::laws::{law_check_finds_missing_upstreams, lemma_bad_names, lemma_filter_element};
use crate::laws::{lemma_filter_keeps, lemma_server_faults};
use crate::laws::location_is_sound;
use crate::names::{lemma_pair_is_entry, names_contain, position_of, NameMap};
use crate::pattern::{compiled_regex, LocationRegex};
use crate::proxy::{handler_http, match_location, RequestAction};
use crate::request_laws::{law_match_nothing, law_request_outcome};
use crate::upstream::RuntimeUpstream;
use vstd::prelude::*;

verus! {

// ---- The check of the references ----

/// The check passes exactly if every upstream is there that a location forwards to
/// and every upstream that a stream forwards to. Locations that serve files and
/// streams to an address need none.
pub proof fn law_check_passes(config: &MainConfig, res: Result<(), ConfigError>)
    requires
        call_ensures(MainConfig::verify_configuration, (config,), res),
    ensures
        res is Ok <==> {
            &&& forall|i: int, j: int|
                0 <= i < config.http.servers@.len() && 0 <= j
                    < config.http.servers@[i].locations@.len() ==> ((
                #[trigger] config.http.servers@[i].locations@[j]).action matches LocationAction::Proxy(
                    name,
                ) ==> config.upstreams@.contains_key(name@))
            &&& forall|k: int|
                0 <= k < config.stream.servers@.len() ==> ((
                #[trigger] config.stream.servers@[k]).target matches StreamTarget::Upstream(name)
                    ==> config.upstreams@.contains_key(name@))
        },
{
    law_check_finds_missing_upstreams(*config);
    if res is Ok {
        assert forall|i: int, j: int|
            0 <= i < config.http.servers@.len() && 0 <= j
                < config.http.servers@[i].locations@.len() implies ((
        #[trigger] config.http.servers@[i].locations@[j]).action matches LocationAction::Proxy(name)
            ==> config.upstreams@.contains_key(name@)) by {
            assert(crate::config::location_target(
                config.http.servers@[i].locations@[j],
            ) matches Some(name) ==> config.upstreams@.contains_key(name));
        }
        assert forall|k: int| 0 <= k < config.stream.servers@.len() implies ((
        #[trigger] config.stream.servers@[k]).target matches StreamTarget::Upstream(name)
            ==> config.upstreams@.contains_key(name@)) by {
            assert(crate::config::stream_target(
                config.stream.servers@[k],
            ) matches Some(name) ==> config.upstreams@.contains_key(name));
        }
    } else {
        if (forall|i: int, j: int|
            0 <= i < config.http.servers@.len() && 0 <= j
                < config.http.servers@[i].locations@.len() ==> ((
            #[trigger] config.http.servers@[i].locations@[j]).action matches LocationAction::Proxy(
                name,
            ) ==> config.upstreams@.contains_key(name@))) && (forall|k: int|
            0 <= k < config.stream.servers@.len() ==> ((
            #[trigger] config.stream.servers@[k]).target matches StreamTarget::Upstream(name)
                ==> config.upstreams@.contains_key(name@))) {
            assert(config.unknown_upstream() is None);
        }
    }
}

/// The last unknown name of two lists is that of the second, else that of the
/// first.
proof fn lemma_last_unknown_concat(
    first: Seq<Option<Seq<char>>>,
    second: Seq<Option<Seq<char>>>,
    known: Set<Seq<char>>,
)
    ensures
        last_unknown(first + second, known) == if last_unknown(second, known) is Some {
            last_unknown(second, known)
        } else {
            last_unknown(first, known)
        },
    decreases second.len(),
{
    if second.len() == 0 {
        assert(first + second =~= first);
    } else {
        assert((first + second).drop_last() =~= first + second.drop_last());
        lemma_last_unknown_concat(first, second.drop_last(), known);
    }
}

/// The last unknown name of a list stands somewhere, with known ones only behind
/// it; without one all are known.
proof fn lemma_last_unknown_place(targets: Seq<Option<Seq<char>>>, known: Set<Seq<char>>) -> (place:
    int)
    ensures
        match last_unknown(targets, known) {
            Some(name) => {
                &&& 0 <= place < targets.len()
                &&& targets[place] == Some(name)
                &&& !known.contains(name)
                &&& forall|i: int|
                    place < i < targets.len() ==> ((#[trigger] targets[i]) matches Some(later)
                        ==> known.contains(later))
            },
            None => forall|i: int|
                0 <= i < targets.len() ==> ((#[trigger] targets[i]) matches Some(name)
                    ==> known.contains(name)),
        },
    decreases targets.len(),
{
    if targets.len() == 0 {
        0
    } else {
        let rest = targets.drop_last();
        let before = lemma_last_unknown_place(rest, known);
        assert(forall|i: int| 0 <= i < rest.len() ==> #[trigger] rest[i] == targets[i]);
        match targets.last() {
            Some(name) if !known.contains(name) => targets.len() - 1,
            _ => {
                assert forall|i: int|
                    (last_unknown(rest, known) is Some ==> before < i) && 0 <= i
                        < targets.len() implies ((#[trigger] targets[i]) matches Some(later)
                    ==> known.contains(later)) by {
                    if i < rest.len() {
                        assert(rest[i] == targets[i]);
                    }
                }
                before
            },
        }
    }
}

/// The last unknown name among the locations of the servers belongs to a location,
/// and those behind it have known ones; without one all have.
proof fn lemma_last_unknown_location(servers: Seq<HttpServerConfig>, known: Set<Seq<char>>) -> (place:
    (int, int))
    ensures
        match last_unknown(http_targets(servers), known) {
            Some(name) => {
                &&& 0 <= place.0 < servers.len()
                &&& 0 <= place.1 < servers[place.0].locations@.len()
                &&& servers[place.0].locations@[place.1].action matches LocationAction::Proxy(found)
                &&& found@ == name
                &&& !known.contains(name)
                &&& forall|i: int, j: int|
                    0 <= i < servers.len() && 0 <= j < servers[i].locations@.len() && (i > place.0
                        || i == place.0 && j > place.1) ==> ((
                    #[trigger] servers[i].locations@[j]).action matches LocationAction::Proxy(later)
                        ==> known.contains(later@))
            },
            None => forall|i: int, j: int|
                0 <= i < servers.len() && 0 <= j < servers[i].locations@.len() ==> ((
                #[trigger] servers[i].locations@[j]).action matches LocationAction::Proxy(name)
                    ==> known.contains(name@)),
        },
    decreases servers.len(),
{
    if servers.len() == 0 {
        (0, 0)
    } else {
        let rest = servers.drop_last();
        let last = servers.len() - 1;
        let targets = location_targets(servers.last().locations@);
        lemma_last_unknown_concat(http_targets(rest), targets, known);
        let before = lemma_last_unknown_location(rest, known);
        let inside = lemma_last_unknown_place(targets, known);
        assert(forall|i: int| 0 <= i < rest.len() ==> #[trigger] rest[i] == servers[i]);
        if last_unknown(targets, known) is Some {
            assert(targets[inside] == crate::config::location_target(
                servers[last].locations@[inside],
            ));
            assert forall|i: int, j: int|
                0 <= i < servers.len() && 0 <= j < servers[i].locations@.len() && (i > last || i
                    == last && j > inside) implies ((
            #[trigger] servers[i].locations@[j]).action matches LocationAction::Proxy(later)
                ==> known.contains(later@)) by {
                assert(targets[j] == crate::config::location_target(servers[i].locations@[j]));
            }
            (last, inside)
        } else {
            assert forall|i: int, j: int|
                0 <= i < servers.len() && 0 <= j < servers[i].locations@.len() && (last_unknown(
                    http_targets(rest),
                    known,
                ) is Some ==> i > before.0 || i == before.0 && j > before.1) implies ((
            #[trigger] servers[i].locations@[j]).action matches LocationAction::Proxy(later)
                ==> known.contains(later@)) by {
                if i < last {
                    assert(rest[i].locations@[j] == servers[i].locations@[j]);
                } else {
                    assert(targets[j] == crate::config::location_target(servers[i].locations@[j]));
                }
            }
            before
        }
    }
}

/// If the check fails, it names the last upstream that is not there: one of a
/// stream, behind which all streams have theirs; or one of a location, behind which
/// all locations have theirs, while all streams have theirs.
pub proof fn law_check_names_the_last(config: &MainConfig, res: Result<(), ConfigError>)
    requires
        call_ensures(MainConfig::verify_configuration, (config,), res),
        res is Err,
    ensures
        res->Err_0 is UnknownUpstream,
        !config.upstreams@.contains_key(res->Err_0->UnknownUpstream_name@),
        (exists|k: int|
            {
                &&& 0 <= k < config.stream.servers@.len()
                &&& (#[trigger] config.stream.servers@[k]).target matches StreamTarget::Upstream(name)
                &&& name@ == res->Err_0->UnknownUpstream_name@
                &&& forall|l: int|
                    k < l < config.stream.servers@.len() ==> ((
                    #[trigger] config.stream.servers@[l]).target matches StreamTarget::Upstream(
                        later,
                    ) ==> config.upstreams@.contains_key(later@))
            }) || {
            &&& forall|l: int|
                0 <= l < config.stream.servers@.len() ==> ((
                #[trigger] config.stream.servers@[l]).target matches StreamTarget::Upstream(later)
                    ==> config.upstreams@.contains_key(later@))
            &&& exists|i: int, j: int|
                {
                    &&& 0 <= i < config.http.servers@.len()
                    &&& 0 <= j < config.http.servers@[i].locations@.len()
                    &&& (
                    #[trigger] config.http.servers@[i].locations@[j]).action matches LocationAction::Proxy(
                        name,
                    )
                    &&& name@ == res->Err_0->UnknownUpstream_name@
                    &&& forall|m: int, n: int|
                        0 <= m < config.http.servers@.len() && 0 <= n
                            < config.http.servers@[m].locations@.len() && (m > i || m == i && n > j)
                            ==> ((
                        #[trigger] config.http.servers@[m].locations@[n]).action matches LocationAction::Proxy(
                            later,
                        ) ==> config.upstreams@.contains_key(later@))
                }
        },
{
    let known = config.upstreams@.dom();
    let http = http_targets(config.http.servers@);
    let stream = stream_targets(config.stream.servers@);
    lemma_last_unknown_concat(http, stream, known);
    let k = lemma_last_unknown_place(stream, known);
    let (i, j) = lemma_last_unknown_location(config.http.servers@, known);
    if last_unknown(stream, known) is Some {
        assert(stream[k] == crate::config::stream_target(config.stream.servers@[k]));
        assert forall|l: int| k < l < config.stream.servers@.len() implies ((
        #[trigger] config.stream.servers@[l]).target matches StreamTarget::Upstream(later)
            ==> config.upstreams@.contains_key(later@)) by {
            assert(stream[l] == crate::config::stream_target(config.stream.servers@[l]));
        }
        assert(config.stream.servers@[k].target is Upstream);
    } else {
        assert forall|l: int| 0 <= l < config.stream.servers@.len() implies ((
        #[trigger] config.stream.servers@[l]).target matches StreamTarget::Upstream(later)
            ==> config.upstreams@.contains_key(later@)) by {
            assert(stream[l] == crate::config::stream_target(config.stream.servers@[l]));
        }
        assert(config.http.servers@[i].locations@[j].action is Proxy);
    }
}

/// What the operator is told names the upstream, the path or the header name.
pub proof fn law_messages(error: ConfigError, res: String)
    requires
        call_ensures(ConfigError::message, (&error,), res),
    ensures
        match error {
            ConfigError::UnknownUpstream { name } => res@ == name@ + " not upstream"@,
            ConfigError::InvalidLocationRegex { path, .. } => res@ == "invalid location regex: "@
                + path@,
            ConfigError::InvalidHeaderName { name, .. } => res@
                == "invalid proxy_set_header name: "@ + name@,
        },
{
}

// ---- Headers to set ----

/// Header names have one to 65535 characters, each a letter, a digit or one of the
/// marks that may stand in a token.
pub proof fn law_header_names(name: Seq<char>)
    ensures
        is_header_name(name) <==> 1 <= name.len() <= 65535 && forall|i: int|
            0 <= i < name.len() ==> ('a' <= #[trigger] name[i] <= 'z' || 'A' <= name[i] <= 'Z'
                || '0' <= name[i] <= '9' || "!#$%&'*+-.^_`|~"@.contains(name[i])),
{
    lemma_marks();
    if is_header_name(name) {
        assert forall|i: int| 0 <= i < name.len() implies ('a' <= #[trigger] name[i] <= 'z' || 'A'
            <= name[i] <= 'Z' || '0' <= name[i] <= '9' || "!#$%&'*+-.^_`|~"@.contains(name[i])) by {
            assert(is_token_char(name[i]));
        }
    }
}

/// The marks that may stand in a token.
proof fn lemma_marks()
    ensures
        forall|c: char| #[trigger]
            is_token_char(c) <==> ('a' <= c <= 'z' || 'A' <= c <= 'Z' || '0' <= c <= '9'
                || "!#$%&'*+-.^_`|~"@.contains(c)),
{
    reveal_strlit("!#$%&'*+-.^_`|~");
    let marks = "!#$%&'*+-.^_`|~"@;
    assert(marks.len() == 15);
    assert(marks[0] == '!' && marks[1] == '#' && marks[2] == '$' && marks[3] == '%' && marks[4]
        == '&' && marks[5] == '\'' && marks[6] == '*' && marks[7] == '+');
    assert(marks[8] == '-' && marks[9] == '.' && marks[10] == '^' && marks[11] == '_' && marks[12]
        == '`' && marks[13] == '|' && marks[14] == '~');
}

/// A header to set is made exactly of a header name. It has the name with its
/// capital letters made small, and the text that it was made with.
pub proof fn law_new_header(
    name: String,
    value: String,
    res: Result<RuntimeProxyHeader, ConfigError>,
)
    requires
        call_ensures(RuntimeProxyHeader::new, (name, value), res),
    ensures
        res is Ok <==> is_header_name(name@),
        res matches Ok(header) ==> {
            &&& header.spec_value() == value@
            &&& header.spec_name().len() == name@.len()
            &&& forall|i: int|
                0 <= i < name@.len() ==> #[trigger] header.spec_name()[i] as int == name@[i] as int
                    + if 'A' <= name@[i] <= 'Z' {
                    32int
                } else {
                    0int
                }
        },
        res matches Err(error) ==> (error matches ConfigError::InvalidHeaderName {
            name: bad,
            cause,
        } && bad@ == name@ && cause@ == "invalid HTTP header name"@),
{
    if res is Ok {
        assert forall|i: int| 0 <= i < name@.len() implies #[trigger] lower(name@)[i] as int
            == name@[i] as int + if 'A' <= name@[i] <= 'Z' {
            32int
        } else {
            0int
        } by {
            assert(lower(name@)[i] == lower_char(name@[i]));
        }
    }
}

/// A header to set shows the name and the text that it has.
pub proof fn law_header_shows(header: RuntimeProxyHeader, name: &str, value: &str)
    requires
        call_ensures(RuntimeProxyHeader::name, (&header,), name),
        call_ensures(RuntimeProxyHeader::value, (&header,), value),
    ensures
        name@ == header.spec_name(),
        value@ == header.spec_value(),
{
}

/// The headers of a server and of a location of it are merged exactly if all their
/// names are header names. The location's own come last, all of them, in order;
/// before them come those of the server whose name the location does not have, and
/// no others.
pub proof fn law_merged_headers(
    server: &NameMap<String>,
    location: &NameMap<String>,
    res: Result<Vec<RuntimeProxyHeader>, ConfigError>,
)
    requires
        call_ensures(RuntimeLocation::merge_headers, (server, location), res),
    ensures
        res is Ok <==> (forall|k: int|
            0 <= k < server.pairs().len() ==> is_header_name((#[trigger] server.pairs()[k]).0)) && (
        forall|k: int|
            0 <= k < location.pairs().len() ==> is_header_name((#[trigger] location.pairs()[k]).0)),
        res matches Ok(headers) ==> merges(headers@, server.pairs(), location.pairs()),
        res matches Err(error) ==> names_bad_header(error, server.pairs(), location.pairs()),
{
    lemma_merged(server.pairs(), location.pairs());
    if res is Ok {
        lemma_merges(res->Ok_0@, server.pairs(), location.pairs());
    }
}

/// Whether a header sets the value of a pair to the name of the pair, with its
/// capital letters made small.
pub open spec fn sets_pair(header: RuntimeProxyHeader, pair: (Seq<char>, String)) -> bool {
    header.spec_name() == lower(pair.0) && header.spec_value() == pair.1@
}

/// Whether headers are those of a location, which come last, in order, and before
/// them those of its server whose name the location does not have.
pub open spec fn merges(
    headers: Seq<RuntimeProxyHeader>,
    server: Seq<(Seq<char>, String)>,
    location: Seq<(Seq<char>, String)>,
) -> bool {
    let kept = headers.len() - location.len();
    &&& kept >= 0
    &&& forall|k: int|
        #![trigger location[k]]
        0 <= k < location.len() ==> sets_pair(headers[kept + k], location[k])
    &&& forall|k: int|
        #![trigger server[k]]
        0 <= k < server.len() && !(exists|m: int|
            0 <= m < location.len() && (#[trigger] location[m]).0 == server[k].0) ==> is_set(
            headers.take(kept),
            server[k],
        )
    &&& forall|i: int| 0 <= i < kept ==> is_inherited(#[trigger] headers[i], server, location)
}

/// Whether one of the headers sets the value of a pair to its name.
pub open spec fn is_set(headers: Seq<RuntimeProxyHeader>, pair: (Seq<char>, String)) -> bool {
    exists|i: int| 0 <= i < headers.len() && sets_pair(#[trigger] headers[i], pair)
}

/// Whether a header is one of the server whose name the location does not have.
pub open spec fn is_inherited(
    header: RuntimeProxyHeader,
    server: Seq<(Seq<char>, String)>,
    location: Seq<(Seq<char>, String)>,
) -> bool {
    exists|k: int|
        0 <= k < server.len() && #[trigger] sets_pair(header, server[k]) && !(exists|m: int|
            0 <= m < location.len() && (#[trigger] location[m]).0 == server[k].0)
}

/// Whether an error names a header of a server or of a location that has no header
/// name.
pub open spec fn names_bad_header(
    error: ConfigError,
    server: Seq<(Seq<char>, String)>,
    location: Seq<(Seq<char>, String)>,
) -> bool {
    &&& error matches ConfigError::InvalidHeaderName { name, cause }
    &&& cause@ == "invalid HTTP header name"@
    &&& !is_header_name(name@)
    &&& (exists|k: int| 0 <= k < server.len() && (#[trigger] server[k]).0 == name@) || (exists|
        k: int,
    |
        0 <= k < location.len() && (#[trigger] location[k]).0 == name@)
}

/// A merged list has header names exactly if both lists have, and otherwise its
/// first bad name comes from one of them.
proof fn lemma_merged(server: Seq<(Seq<char>, String)>, location: Seq<(Seq<char>, String)>)
    ensures
        first_bad_name(merged_headers(server, location)) is None <==> (forall|k: int|
            0 <= k < server.len() ==> is_header_name((#[trigger] server[k]).0)) && (forall|k: int|
            0 <= k < location.len() ==> is_header_name((#[trigger] location[k]).0)),
        first_bad_name(merged_headers(server, location)) matches Some(name) ==> !is_header_name(name)
            && ((exists|k: int| 0 <= k < server.len() && (#[trigger] server[k]).0 == name) || (
        exists|k: int| 0 <= k < location.len() && (#[trigger] location[k]).0 == name)),
{
    let missing = |pair: (Seq<char>, String)| !names_contain(location, pair.0);
    let kept = server.filter(missing);
    let merged = merged_headers(server, location);
    assert(merged == kept + location);
    lemma_bad_names(merged);
    lemma_first_bad(merged);
    if first_bad_name(merged) is None {
        assert forall|k: int| 0 <= k < location.len() implies is_header_name(
            (#[trigger] location[k]).0,
        ) by {
            assert(merged[kept.len() + k] == location[k]);
        }
        assert forall|k: int| 0 <= k < server.len() implies is_header_name(
            (#[trigger] server[k]).0,
        ) by {
            if names_contain(location, server[k].0) {
                let m = position_of(location, server[k].0);
                assert(merged[kept.len() + m] == location[m]);
            } else {
                lemma_filter_keeps(server, missing, k);
                let m = choose|m: int| 0 <= m < kept.len() && #[trigger] kept[m] == server[k];
                assert(merged[m] == server[k]);
            }
        }
    } else {
        let name = first_bad_name(merged)->0;
        let i = choose|i: int| 0 <= i < merged.len() && (#[trigger] merged[i]).0 == name;
        if i < kept.len() {
            lemma_filter_element(server, missing, i);
            let k = choose|k: int| 0 <= k < server.len() && #[trigger] server[k] == kept[i];
            assert(server[k].0 == name);
        } else {
            assert(location[i - kept.len()].0 == name);
        }
    }
}

/// The first bad name is bad, and one of the names.
proof fn lemma_first_bad(pairs: Seq<(Seq<char>, String)>)
    ensures
        first_bad_name(pairs) matches Some(name) ==> !is_header_name(name) && exists|i: int|
            0 <= i < pairs.len() && (#[trigger] pairs[i]).0 == name,
    decreases pairs.len(),
{
    if pairs.len() > 0 {
        lemma_first_bad(pairs.drop_last());
        if first_bad_name(pairs.drop_last()) is Some {
            let name = first_bad_name(pairs.drop_last())->0;
            let i = choose|i: int|
                0 <= i < pairs.drop_last().len() && (#[trigger] pairs.drop_last()[i]).0 == name;
            assert(pairs[i].0 == name);
        } else {
            assert(pairs[pairs.len() - 1] == pairs.last());
        }
    }
}

/// Headers that set a merged list are merged.
proof fn lemma_merges(
    headers: Seq<RuntimeProxyHeader>,
    server: Seq<(Seq<char>, String)>,
    location: Seq<(Seq<char>, String)>,
)
    requires
        crate::config::sets_headers(headers, merged_headers(server, location)),
    ensures
        merges(headers, server, location),
{
    let missing = |pair: (Seq<char>, String)| !names_contain(location, pair.0);
    let kept = server.filter(missing);
    let merged = merged_headers(server, location);
    assert(merged == kept + location);
    let count = headers.len() - location.len();
    assert(count == kept.len());
    assert forall|k: int|
        #![trigger location[k]]
        0 <= k < location.len() implies sets_pair(headers[count + k], location[k]) by {
        assert(merged[count + k] == location[k]);
        assert(headers[count + k].spec_name() == lower(merged[count + k].0));
    }
    assert forall|k: int|
        #![trigger server[k]]
        0 <= k < server.len() && !(exists|m: int|
            0 <= m < location.len() && (#[trigger] location[m]).0 == server[k].0) implies is_set(
        headers.take(count),
        server[k],
    ) by {
        lemma_filter_keeps(server, missing, k);
        let i = choose|i: int| 0 <= i < kept.len() && #[trigger] kept[i] == server[k];
        assert(merged[i] == server[k]);
        assert(headers[i].spec_name() == lower(merged[i].0));
        assert(sets_pair(headers.take(count)[i], server[k]));
    }
    assert forall|i: int| 0 <= i < count implies is_inherited(
        #[trigger] headers[i],
        server,
        location,
    ) by {
        lemma_filter_element(server, missing, i);
        let k = choose|k: int| 0 <= k < server.len() && #[trigger] server[k] == kept[i];
        assert(merged[i] == kept[i]);
        assert(headers[i].spec_name() == lower(merged[i].0));
        assert(sets_pair(headers[i], server[k]));
        assert(!names_contain(location, server[k].0));
    }
}

// ---- Locations and servers ----

/// A location keeps its path, its kind and its action, has an expression exactly if
/// it is a regular-expression location, and then that of its path, and sets its own
/// headers and those of its server that it does not have.
pub proof fn law_built_location(
    location: RuntimeLocation,
    server_headers: Seq<(Seq<char>, String)>,
    config: LocationConfig,
)
    requires
        location.built_from(server_headers, config),
    ensures
        location.path@ == config.path@,
        location.match_type == config.match_type,
        location.action == config.action,
        merges(location.proxy_set_header@, server_headers, config.proxy_set_header.pairs()),
        config.match_type is Regex ==> (location.regex matches Some(regex) && regex.pattern()
            == config.path@ && compiled_regex(config.path@) is Ok && compiled_regex(config.path@)->Ok_0
            == regex.compiled()),
        config.match_type !is Regex ==> location.regex is None,
{
    lemma_merges(
        location.proxy_set_header@,
        server_headers,
        config.proxy_set_header.pairs(),
    );
}

/// Whether the path compiles, if it is a regular expression, and the location and
/// its server set only headers with header names.
pub open spec fn can_be_served(
    server_headers: Seq<(Seq<char>, String)>,
    config: LocationConfig,
) -> bool {
    &&& config.match_type is Regex ==> compiled_regex(config.path@) is Ok
    &&& forall|k: int|
        0 <= k < server_headers.len() ==> is_header_name((#[trigger] server_headers[k]).0)
    &&& forall|k: int|
        0 <= k < config.proxy_set_header.pairs().len() ==> is_header_name(
            (#[trigger] config.proxy_set_header.pairs()[k]).0,
        )
}

/// Whether an error tells what is wrong with a location: its path, if that is to
/// compile and does not, with the cause; else a header name.
pub open spec fn tells_fault(
    error: ConfigError,
    server_headers: Seq<(Seq<char>, String)>,
    config: LocationConfig,
) -> bool {
    if config.match_type is Regex && compiled_regex(config.path@) is Err {
        error matches ConfigError::InvalidLocationRegex { path, cause } && path@ == config.path@
            && cause@ == compiled_regex(config.path@)->Err_0
    } else {
        names_bad_header(error, server_headers, config.proxy_set_header.pairs())
    }
}

/// What is wrong with a location is told, and nothing if it can be served.
proof fn lemma_location_fault(server_headers: Seq<(Seq<char>, String)>, config: LocationConfig)
    ensures
        location_fault(server_headers, config) is None <==> can_be_served(server_headers, config),
        forall|error: ConfigError|
            location_fault(server_headers, config) == Some(#[trigger] error@) ==> tells_fault(
                error,
                server_headers,
                config,
            ),
{
    lemma_merged(server_headers, config.proxy_set_header.pairs());
}

/// A location is made exactly if its path compiles, where it is a regular
/// expression, and all headers have header names; it then does what its
/// configuration says. Otherwise the error tells the fault.
pub proof fn law_location_from_config(
    server_headers: &NameMap<String>,
    config: &LocationConfig,
    res: Result<RuntimeLocation, ConfigError>,
)
    requires
        call_ensures(RuntimeLocation::from_config, (server_headers, config), res),
    ensures
        res is Ok <==> {
            &&& config.match_type is Regex ==> compiled_regex(config.path@) is Ok
            &&& forall|k: int|
                0 <= k < server_headers.pairs().len() ==> is_header_name(
                    (#[trigger] server_headers.pairs()[k]).0,
                )
            &&& forall|k: int|
                0 <= k < config.proxy_set_header.pairs().len() ==> is_header_name(
                    (#[trigger] config.proxy_set_header.pairs()[k]).0,
                )
        },
        res matches Ok(location) ==> {
            &&& location.path@ == config.path@
            &&& location.match_type == config.match_type
            &&& location.action == config.action
            &&& location.regex is Some <==> config.match_type is Regex
            &&& location.regex matches Some(regex) ==> regex.pattern() == config.path@
                && compiled_regex(config.path@)->Ok_0 == regex.compiled()
            &&& merges(
                location.proxy_set_header@,
                server_headers.pairs(),
                config.proxy_set_header.pairs(),
            )
        },
        res matches Err(error) ==> tells_fault(error, server_headers.pairs(), *config),
{
    lemma_location_fault(server_headers.pairs(), *config);
    if res is Ok {
        law_built_location(res->Ok_0, server_headers.pairs(), *config);
    }
}

/// A location with a given expression has that expression, and otherwise what its
/// configuration says.
pub proof fn law_location_with_regex(
    server_headers: &NameMap<String>,
    config: &LocationConfig,
    regex: Option<LocationRegex>,
    res: Result<RuntimeLocation, ConfigError>,
)
    requires
        call_ensures(RuntimeLocation::with_regex, (server_headers, config, regex), res),
    ensures
        res is Ok <==> (forall|k: int|
            0 <= k < server_headers.pairs().len() ==> is_header_name(
                (#[trigger] server_headers.pairs()[k]).0,
            )) && (forall|k: int|
            0 <= k < config.proxy_set_header.pairs().len() ==> is_header_name(
                (#[trigger] config.proxy_set_header.pairs()[k]).0,
            )),
        res matches Ok(location) ==> {
            &&& location.path@ == config.path@
            &&& location.match_type == config.match_type
            &&& location.action == config.action
            &&& location.regex == regex
            &&& merges(
                location.proxy_set_header@,
                server_headers.pairs(),
                config.proxy_set_header.pairs(),
            )
        },
        res matches Err(error) ==> names_bad_header(
            error,
            server_headers.pairs(),
            config.proxy_set_header.pairs(),
        ),
{
    lemma_merged(server_headers.pairs(), config.proxy_set_header.pairs());
    if res is Ok {
        lemma_merges(
            res->Ok_0.proxy_set_header@,
            server_headers.pairs(),
            config.proxy_set_header.pairs(),
        );
    }
}

/// A pattern gives an expression exactly if it compiles, and then the one that it
/// compiles to; otherwise the text of the error.
pub proof fn law_compiled_pattern(pattern: &str, res: Result<LocationRegex, String>)
    requires
        call_ensures(LocationRegex::compile, (pattern,), res),
    ensures
        res is Ok <==> compiled_regex(pattern@) is Ok,
        res matches Ok(regex) ==> regex.pattern() == pattern@ && compiled_regex(pattern@)->Ok_0
            == regex.compiled(),
        res matches Err(error) ==> compiled_regex(pattern@)->Err_0 == error@,
{
}

/// The kind of a location is told as it is written, before and after it is made.
pub proof fn law_kinds(
    written: LocationConfig,
    exact: bool,
    regex: bool,
    prefix: bool,
    built: RuntimeLocation,
    built_exact: bool,
    built_regex: bool,
    built_prefix: bool,
)
    requires
        call_ensures(LocationConfig::is_exact, (&written,), exact),
        call_ensures(LocationConfig::is_regex, (&written,), regex),
        call_ensures(LocationConfig::is_prefix, (&written,), prefix),
        call_ensures(RuntimeLocation::is_exact, (&built,), built_exact),
        call_ensures(RuntimeLocation::is_regex, (&built,), built_regex),
        call_ensures(RuntimeLocation::is_prefix, (&built,), built_prefix),
    ensures
        exact <==> written.match_type == LocationMatch::Exact,
        regex <==> written.match_type == LocationMatch::Regex,
        prefix <==> written.match_type == LocationMatch::Prefix,
        built_exact <==> built.match_type == LocationMatch::Exact,
        built_regex <==> built.match_type == LocationMatch::Regex,
        built_prefix <==> built.match_type == LocationMatch::Prefix,
{
}

/// The first location with a fault is the one that is told.
proof fn lemma_first_fault(
    server_headers: Seq<(Seq<char>, String)>,
    locations: Seq<LocationConfig>,
) -> (place: int)
    ensures
        match first_location_fault(server_headers, locations) {
            Some(fault) => {
                &&& 0 <= place < locations.len()
                &&& location_fault(server_headers, locations[place]) == Some(fault)
                &&& forall|j: int|
                    0 <= j < place ==> location_fault(server_headers, #[trigger] locations[j]) is None
            },
            None => forall|j: int|
                0 <= j < locations.len() ==> location_fault(
                    server_headers,
                    #[trigger] locations[j],
                ) is None,
        },
    decreases locations.len(),
{
    if locations.len() == 0 {
        0
    } else {
        let rest = locations.drop_last();
        let before = lemma_first_fault(server_headers, rest);
        assert(forall|j: int| 0 <= j < rest.len() ==> #[trigger] rest[j] == locations[j]);
        assert(locations.last() == locations[locations.len() - 1]);
        if first_location_fault(server_headers, rest) is Some {
            assert forall|j: int| 0 <= j < before implies location_fault(
                server_headers,
                #[trigger] locations[j],
            ) is None by {
                assert(location_fault(server_headers, rest[j]) is None);
            }
            before
        } else {
            assert forall|j: int| 0 <= j < rest.len() implies location_fault(
                server_headers,
                #[trigger] locations[j],
            ) is None by {
                assert(location_fault(server_headers, rest[j]) is None);
            }
            locations.len() - 1
        }
    }
}

/// A server is made exactly if all its locations can be served. It then listens
/// where it should, and has all the locations, in order, each doing what is
/// written. Otherwise the error tells the fault of the first location that cannot
/// be served.
pub proof fn law_server_from_config(
    config: HttpServerConfig,
    res: Result<RuntimeHttpServer, ConfigError>,
)
    requires
        call_ensures(RuntimeHttpServer::from_config, (config,), res),
    ensures
        res is Ok <==> forall|j: int|
            0 <= j < config.locations@.len() ==> can_be_served(
                config.proxy_set_header.pairs(),
                #[trigger] config.locations@[j],
            ),
        res matches Ok(server) ==> serves(server, config),
        res matches Err(error) ==> exists|j: int|
            0 <= j < config.locations@.len() && tells_fault(
                error,
                config.proxy_set_header.pairs(),
                #[trigger] config.locations@[j],
            ) && !can_be_served(config.proxy_set_header.pairs(), config.locations@[j]) && forall|
                k: int,
            |
                0 <= k < j ==> can_be_served(
                    config.proxy_set_header.pairs(),
                    #[trigger] config.locations@[k],
                ),
{
    let headers = config.proxy_set_header.pairs();
    let place = lemma_first_fault(headers, config.locations@);
    assert forall|j: int| 0 <= j < config.locations@.len() implies (location_fault(
        headers,
        #[trigger] config.locations@[j],
    ) is None <==> can_be_served(headers, config.locations@[j])) by {
        lemma_location_fault(headers, config.locations@[j]);
    }
    if res is Ok {
        lemma_serves(res->Ok_0, config);
    } else {
        lemma_location_fault(headers, config.locations@[place]);
        assert(tells_fault(res->Err_0, headers, config.locations@[place]));
    }
}

/// Whether a server listens where it should, under its name, and has the locations
/// of its configuration, in order, each with its path, kind, action, expression and
/// headers.
pub open spec fn serves(server: RuntimeHttpServer, config: HttpServerConfig) -> bool {
    &&& server.listen == config.listen
    &&& server.server_name@ == config.server_name@
    &&& server.locations@.len() == config.locations@.len()
    &&& forall|j: int|
        0 <= j < config.locations@.len() ==> {
            let written = config.locations@[j];
            &&& (#[trigger] server.locations@[j]).path@ == written.path@
            &&& server.locations@[j].match_type == written.match_type
            &&& server.locations@[j].action == written.action
            &&& server.locations@[j].regex is Some <==> written.match_type is Regex
            &&& server.locations@[j].regex matches Some(regex) ==> regex.pattern() == written.path@
                && compiled_regex(written.path@)->Ok_0 == regex.compiled()
            &&& merges(
                server.locations@[j].proxy_set_header@,
                config.proxy_set_header.pairs(),
                written.proxy_set_header.pairs(),
            )
        }
}

/// A server that is built from its configuration serves it.
proof fn lemma_serves(server: RuntimeHttpServer, config: HttpServerConfig)
    requires
        server.built_from(config),
    ensures
        serves(server, config),
{
    assert forall|j: int| 0 <= j < config.locations@.len() implies {
        let written = config.locations@[j];
        &&& (#[trigger] server.locations@[j]).path@ == written.path@
        &&& server.locations@[j].match_type == written.match_type
        &&& server.locations@[j].action == written.action
        &&& server.locations@[j].regex is Some <==> written.match_type is Regex
        &&& server.locations@[j].regex matches Some(regex) ==> regex.pattern() == written.path@
            && compiled_regex(written.path@)->Ok_0 == regex.compiled()
        &&& merges(
            server.locations@[j].proxy_set_header@,
            config.proxy_set_header.pairs(),
            written.proxy_set_header.pairs(),
        )
    } by {
        law_built_location(
            server.locations@[j],
            config.proxy_set_header.pairs(),
            config.locations@[j],
        );
    }
}

/// A location can be served exactly if it is sound.
proof fn lemma_sound(server_headers: Seq<(Seq<char>, String)>, config: LocationConfig)
    ensures
        location_is_sound(server_headers, config) <==> can_be_served(server_headers, config),
{
    lemma_merged(server_headers, config.proxy_set_header.pairs());
    lemma_bad_names(merged_headers(server_headers, config.proxy_set_header.pairs()));
}

/// No server has a fault exactly if all their locations can be served.
proof fn lemma_all_served(servers: Seq<HttpServerConfig>)
    ensures
        first_server_fault(servers) is None <==> forall|i: int, j: int|
            0 <= i < servers.len() && 0 <= j < servers[i].locations@.len() ==> can_be_served(
                servers[i].proxy_set_header.pairs(),
                #[trigger] servers[i].locations@[j],
            ),
{
    lemma_server_faults(servers);
    assert forall|i: int, j: int|
        0 <= i < servers.len() && 0 <= j < servers[i].locations@.len() implies (location_is_sound(
        servers[i].proxy_set_header.pairs(),
        #[trigger] servers[i].locations@[j],
    ) <==> can_be_served(servers[i].proxy_set_header.pairs(), servers[i].locations@[j])) by {
        lemma_sound(servers[i].proxy_set_header.pairs(), servers[i].locations@[j]);
    }
}

/// The fault of the servers is that of a location of theirs that cannot be served.
proof fn lemma_server_fault_place(servers: Seq<HttpServerConfig>) -> (place: (int, int))
    ensures
        first_server_fault(servers) matches Some(fault) ==> {
            &&& 0 <= place.0 < servers.len()
            &&& 0 <= place.1 < servers[place.0].locations@.len()
            &&& location_fault(
                servers[place.0].proxy_set_header.pairs(),
                servers[place.0].locations@[place.1],
            ) == Some(fault)
        },
    decreases servers.len(),
{
    if servers.len() == 0 {
        (0, 0)
    } else if first_server_fault(servers.drop_last()) is Some {
        lemma_server_fault_place(servers.drop_last())
    } else {
        let last = servers.last();
        let j = lemma_first_fault(last.proxy_set_header.pairs(), last.locations@);
        (servers.len() - 1, j)
    }
}

/// The HTTP part is made exactly if all locations of all servers can be served. It
/// then has all the servers, in order.
pub proof fn law_http_from_config(config: HttpConfig, res: Result<RuntimeHttpConfig, ConfigError>)
    requires
        call_ensures(RuntimeHttpConfig::from_config, (config,), res),
    ensures
        res is Ok <==> forall|i: int, j: int|
            0 <= i < config.servers@.len() && 0 <= j < config.servers@[i].locations@.len()
                ==> can_be_served(
                config.servers@[i].proxy_set_header.pairs(),
                #[trigger] config.servers@[i].locations@[j],
            ),
        res matches Ok(http) ==> {
            &&& http.include_mimes == config.include_mimes
            &&& http.servers@.len() == config.servers@.len()
            &&& forall|i: int|
                0 <= i < config.servers@.len() ==> serves(
                    #[trigger] http.servers@[i],
                    config.servers@[i],
                )
        },
        res matches Err(error) ==> exists|i: int, j: int|
            0 <= i < config.servers@.len() && 0 <= j < config.servers@[i].locations@.len()
                && tells_fault(
                error,
                config.servers@[i].proxy_set_header.pairs(),
                #[trigger] config.servers@[i].locations@[j],
            ) && !can_be_served(
                config.servers@[i].proxy_set_header.pairs(),
                config.servers@[i].locations@[j],
            ),
{
    lemma_all_served(config.servers@);
    if res is Ok {
        assert forall|i: int| 0 <= i < config.servers@.len() implies serves(
            #[trigger] res->Ok_0.servers@[i],
            config.servers@[i],
        ) by {
            assert(res->Ok_0.servers@[i].built_from(config.servers@[i]));
            lemma_serves(res->Ok_0.servers@[i], config.servers@[i]);
        }
    } else {
        let (i, j) = lemma_server_fault_place(config.servers@);
        lemma_location_fault(
            config.servers@[i].proxy_set_header.pairs(),
            config.servers@[i].locations@[j],
        );
        assert(tells_fault(
            res->Err_0,
            config.servers@[i].proxy_set_header.pairs(),
            config.servers@[i].locations@[j],
        ));
    }
}

/// A stream server listens where it should, and forwards where it should; the
/// stream part has all of them, in order.
pub proof fn law_streams_from_config(
    one: StreamServerConfig,
    built: RuntimeStreamServer,
    config: StreamConfig,
    res: RuntimeStreamConfig,
)
    requires
        call_ensures(RuntimeStreamServer::from_config, (one,), built),
        call_ensures(RuntimeStreamConfig::from_config, (config,), res),
    ensures
        built.listen == one.listen,
        built.target == one.target,
        res.servers@.len() == config.servers@.len(),
        forall|k: int|
            0 <= k < config.servers@.len() ==> (#[trigger] res.servers@[k]).listen
                == config.servers@[k].listen && res.servers@[k].target == config.servers@[k].target,
{
    assert forall|k: int| 0 <= k < config.servers@.len() implies (
    #[trigger] res.servers@[k]).listen == config.servers@[k].listen && res.servers@[k].target
        == config.servers@[k].target by {
        assert(res.servers@[k].built_from(config.servers@[k]));
    }
}

// ---- The whole configuration ----

/// A configuration is served exactly if every upstream is there that a location or
/// a stream forwards to, and all locations can be served.
pub proof fn law_served_exactly_if_sound(
    config: MainConfig,
    res: Result<RuntimeConfig, ConfigError>,
    check: Result<(), ConfigError>,
)
    requires
        call_ensures(<RuntimeConfig as TryFrom<MainConfig>>::try_from, (config,), res),
        call_ensures(MainConfig::verify_configuration, (&config,), check),
    ensures
        res is Ok <==> check is Ok && forall|i: int, j: int|
            0 <= i < config.http.servers@.len() && 0 <= j
                < config.http.servers@[i].locations@.len() ==> can_be_served(
                config.http.servers@[i].proxy_set_header.pairs(),
                #[trigger] config.http.servers@[i].locations@[j],
            ),
        check matches Err(unknown) ==> (res matches Err(error) && error is UnknownUpstream
            && error->UnknownUpstream_name@ == unknown->UnknownUpstream_name@),
        check is Ok && res is Err ==> exists|i: int, j: int|
            0 <= i < config.http.servers@.len() && 0 <= j
                < config.http.servers@[i].locations@.len() && tells_fault(
                res->Err_0,
                config.http.servers@[i].proxy_set_header.pairs(),
                #[trigger] config.http.servers@[i].locations@[j],
            ) && !can_be_served(
                config.http.servers@[i].proxy_set_header.pairs(),
                config.http.servers@[i].locations@[j],
            ),
{
    lemma_all_served(config.http.servers@);
    if check is Ok && res is Err {
        let (i, j) = lemma_server_fault_place(config.http.servers@);
        lemma_location_fault(
            config.http.servers@[i].proxy_set_header.pairs(),
            config.http.servers@[i].locations@[j],
        );
        assert(tells_fault(
            res->Err_0,
            config.http.servers@[i].proxy_set_header.pairs(),
            config.http.servers@[i].locations@[j],
        ));
    }
}

/// A configuration that is served has all that is written: its groups under their
/// names, each with its servers in order and its method, its HTTP servers and its
/// streams.
pub proof fn law_served_as_written(config: MainConfig, res: Result<RuntimeConfig, ConfigError>)
    requires
        call_ensures(<RuntimeConfig as TryFrom<MainConfig>>::try_from, (config,), res),
        res is Ok,
    ensures
        res->Ok_0.worker_processes == config.worker_processes,
        res->Ok_0.error_log@ == config.error_log@,
        forall|name: Seq<char>| #[trigger]
            res->Ok_0.upstreams@.contains_key(name) <==> config.upstreams@.contains_key(name),
        forall|name: Seq<char>| #[trigger]
            config.upstreams@.contains_key(name) ==> res->Ok_0.upstreams@[name].servers@
                == config.upstreams@[name].servers@ && res->Ok_0.upstreams@[name].load_balancing
                == config.upstreams@[name].load_balancing,
        res->Ok_0.http.include_mimes == config.http.include_mimes,
        res->Ok_0.http.servers@.len() == config.http.servers@.len(),
        forall|i: int|
            0 <= i < config.http.servers@.len() ==> serves(
                #[trigger] res->Ok_0.http.servers@[i],
                config.http.servers@[i],
            ),
        res->Ok_0.stream.servers@.len() == config.stream.servers@.len(),
        forall|k: int|
            0 <= k < config.stream.servers@.len() ==> (
            #[trigger] res->Ok_0.stream.servers@[k]).listen == config.stream.servers@[k].listen
                && res->Ok_0.stream.servers@[k].target == config.stream.servers@[k].target,
{
    let runtime = res->Ok_0;
    let built = runtime.upstreams.pairs();
    let written = config.upstreams.pairs();
    assert(crate::names::names_distinct(built)) by {
        assert forall|i: int, j: int| 0 <= i < j < built.len() implies (#[trigger] built[i]).0 != (
        #[trigger] built[j]).0 by {
            assert(written[i].0 != written[j].0);
        }
    }
    assert forall|name: Seq<char>| #[trigger]
        runtime.upstreams@.contains_key(name) <==> config.upstreams@.contains_key(name) by {
        if names_contain(built, name) {
            let k = position_of(built, name);
            assert(written[k].0 == name);
        }
        if names_contain(written, name) {
            let k = position_of(written, name);
            assert(built[k].0 == name);
        }
    }
    assert forall|name: Seq<char>| #[trigger] config.upstreams@.contains_key(name) implies
        runtime.upstreams@[name].servers@ == config.upstreams@[name].servers@
        && runtime.upstreams@[name].load_balancing == config.upstreams@[name].load_balancing by {
        let k = position_of(written, name);
        assert(built[k].0 == name);
        lemma_pair_is_entry(written, k);
        lemma_pair_is_entry(built, k);
    }
    assert forall|i: int| 0 <= i < config.http.servers@.len() implies serves(
        #[trigger] runtime.http.servers@[i],
        config.http.servers@[i],
    ) by {
        assert(runtime.http.servers@[i].built_from(config.http.servers@[i]));
        lemma_serves(runtime.http.servers@[i], config.http.servers@[i]);
    }
    assert forall|k: int| 0 <= k < config.stream.servers@.len() implies (
    #[trigger] runtime.stream.servers@[k]).listen == config.stream.servers@[k].listen
        && runtime.stream.servers@[k].target == config.stream.servers@[k].target by {
        assert(runtime.stream.servers@[k].built_from(config.stream.servers@[k]));
    }
}

/// In a configuration that is served, a request that matches a location which
/// forwards goes to one of the servers that the configuration gives the upstream of
/// that location, if it gives it any.
pub proof fn law_served_requests_reach_configured_servers<'a>(
    config: MainConfig,
    served: Result<RuntimeConfig, ConfigError>,
    index: int,
    path: &str,
    server: &'a RuntimeHttpServer,
    upstreams: &NameMap<RuntimeUpstream>,
    remote_addr: SocketAddr,
    res: RequestAction<'a>,
    locations: &[RuntimeLocation],
    matched: Option<&RuntimeLocation>,
)
    requires
        call_ensures(<RuntimeConfig as TryFrom<MainConfig>>::try_from, (config,), served),
        served is Ok,
        0 <= index < served->Ok_0.http.servers@.len(),
        *server == served->Ok_0.http.servers@[index],
        *upstreams == served->Ok_0.upstreams,
        call_ensures(handler_http, (path, server, upstreams, remote_addr), res),
        locations@ == server.locations@,
        call_ensures(match_location, (path, locations), matched),
        matched is Some,
        matched->0.action is Proxy,
    ensures
        ({
            let name = matched->0.action->Proxy_0@;
            &&& config.upstreams@.contains_key(name)
            &&& config.upstreams@[name].servers@.len() > 0 ==> (
            res matches RequestAction::Forward { target, proxy_set_header }
                && config.upstreams@[name].servers@.contains(target) && proxy_set_header@
                == matched->0.proxy_set_header@)
            &&& config.upstreams@[name].servers@.len() == 0 ==> (
            res matches RequestAction::Respond(response) && response.status == 200
                && response.body@ == "hello"@)
        }),
{
    law_served_as_written(config, served);
    law_match_nothing(path, locations, matched);
    law_request_outcome(path, server, upstreams, remote_addr, res, locations, matched);
    crate::laws::law_served_upstreams_exist(config, served->Ok_0);
    let name = matched->0.action->Proxy_0@;
    let j = choose|j: int| 0 <= j < locations@.len() && locations@[j] == *matched->0;
    assert(served->Ok_0.http.servers@[index].locations@[j].action is Proxy);
    assert(served->Ok_0.upstreams@.contains_key(name));
    let servers = config.upstreams@[name].servers@;
    if servers.len() > 0 {
        assert forall|number: int| number >= 0 implies servers.contains(
            #[trigger] servers[number % (servers.len() as int)],
        ) by {
            vstd::arithmetic::div_mod::lemma_mod_bound(number, servers.len() as int);
        }
    }
}

// ---- Named values ----

/// A new map has no names.
pub proof fn law_new_map<V>(map: NameMap<V>, name: &str, res: Option<&V>, len: usize)
    requires
        call_ensures(NameMap::<V>::new, (), map),
        call_ensures(NameMap::<V>::get, (&map, name), res),
        call_ensures(NameMap::<V>::len, (&map,), len),
    ensures
        res is None,
        len == 0,
{
}

/// A name that is given a value has it, and every other name stays as it was.
pub proof fn law_insert_and_get<V>(
    map: &mut NameMap<V>,
    name: String,
    value: V,
    other: &str,
    before: Option<&V>,
    after: Option<&V>,
    there: bool,
)
    requires
        call_ensures(NameMap::<V>::insert, (map, name, value), ()),
        call_ensures(NameMap::<V>::get, (&*old(map), other), before),
        call_ensures(NameMap::<V>::get, (&*final(map), other), after),
        call_ensures(NameMap::<V>::contains_key, (&*final(map), other), there),
    ensures
        other@ == name@ ==> after == Some(&value),
        other@ != name@ ==> after == before,
        there <==> after is Some,
{
}

/// A name that is given a value is in the list of the map with that value, at the
/// end if it is new. Every other pair stays where it was.
pub proof fn law_insert_and_list<V>(map: &mut NameMap<V>, name: String, value: V)
    requires
        call_ensures(NameMap::<V>::insert, (map, name, value), ()),
    ensures
        ({
            let before = old(map).pairs();
            let after = final(map).pairs();
            let known = exists|i: int| 0 <= i < before.len() && (#[trigger] before[i]).0 == name@;
            &&& after.contains((name@, value))
            &&& after.len() == before.len() + if known {
                0int
            } else {
                1int
            }
            &&& !known ==> after.last() == (name@, value)
            &&& forall|i: int|
                0 <= i < before.len() && (#[trigger] before[i]).0 != name@ ==> after[i] == before[i]
        }),
{
    let before = old(map).pairs();
    let after = final(map).pairs();
    if names_contain(before, name@) {
        let k = position_of(before, name@);
        assert(after[k] == (name@, value));
    } else {
        assert(after[before.len() as int] == (name@, value));
    }
}

/// The list of a map is shown pair by pair, and taken out as it is; what it shows
/// is what the map has.
pub proof fn law_listed_pairs<V>(
    map: NameMap<V>,
    len: usize,
    index: usize,
    shown: (&str, &V),
    taken: Vec<(String, V)>,
    name: &str,
    found: Option<&V>,
)
    requires
        call_ensures(NameMap::<V>::len, (&map,), len),
        index < len,
        call_ensures(NameMap::<V>::pair_at, (&map, index), shown),
        call_ensures(NameMap::<V>::into_pairs, (map,), taken),
        name@ == shown.0@,
        call_ensures(NameMap::<V>::get, (&map, name), found),
    ensures
        len == map.pairs().len(),
        taken@.len() == len,
        taken@[index as int].0@ == shown.0@,
        taken@[index as int].1 == *shown.1,
        map.pairs()[index as int] == (shown.0@, *shown.1),
        found == Some(shown.1),
{
    lemma_pair_is_entry(map.pairs(), index as int);
    let listed = taken@.map_values(|entry: (String, V)| (entry.0@, entry.1));
    assert(listed[index as int] == map.pairs()[index as int]);
    assert(listed.len() == taken@.len());
}

} // verus!
