//! What holds of the proxy as a whole.
use crate::addr::{decimal, dotted, ip_text, socket_text, SocketAddr};
use crate::config::{first_bad_name, first_location_fault, first_server_fault, http_targets};
use crate::config::{last_unknown, location_fault, location_target, location_targets};
use crate::config::{merged_headers, stream_target, stream_targets};
use crate::config::{HttpServerConfig, LocationAction, LocationConfig, MainConfig, RuntimeConfig};
use crate::config::{RuntimeLocation, RuntimeProxyHeader, StreamTarget};
use crate::forward::{after_stage, forwarded_headers, header_source, header_value};
use crate::forward::{headers_set_for, host_of, last_value};
use crate::forward::{ForwardStage, HeaderError, HeaderSource, NextStep};
use crate::headers::{has_room, header_contents, is_header_name, lower, text_value, Field};
use crate::names::{lemma_pair_is_entry, names_contain, names_distinct, pairs_map, position_of};
use crate::pattern::compiled_regex;
use crate::proxy::{decision_for, exact_hit, first_exact, first_hit, first_regex, is_first_hit};
use crate::proxy::{is_longest_prefix, lemma_first_hit, lemma_located_in_range};
use crate::proxy::{lemma_longest_prefix, located};
use crate::proxy::{location_for, longest_prefix, prefix_hit, regex_hit, Decision};
use crate::proxy::{STATUS_BAD_GATEWAY, STATUS_OK};
use crate::upstream::{law_selection_is_a_server, RuntimeUpstream};
use hyper::header::HeaderValue;
use hyper::HeaderMap;
use vstd::prelude::*;
use vstd::utf8::{encode_utf8, is_ascii_chars, is_ascii_chars_encode_utf8};

verus! {

// ---- The location that answers a request ----

/// If something hits, something hits first, and not later.
pub proof fn lemma_first_hit_exists(
    locations: Seq<RuntimeLocation>,
    hit: spec_fn(RuntimeLocation) -> bool,
    index: int,
)
    requires
        0 <= index < locations.len(),
        hit(locations[index]),
    ensures
        first_hit(locations, hit) matches Some(first) && is_first_hit(locations, hit, first)
            && first <= index,
    decreases index,
{
    if exists|other: int| 0 <= other < index && hit(#[trigger] locations[other]) {
        let other = choose|other: int| 0 <= other < index && hit(#[trigger] locations[other]);
        lemma_first_hit_exists(locations, hit, other);
    } else {
        assert(is_first_hit(locations, hit, index));
        lemma_first_hit(locations, hit, index);
    }
}

/// If a prefix hits, one of them is the longest.
pub proof fn lemma_longest_prefix_exists(
    path: Seq<char>,
    locations: Seq<RuntimeLocation>,
    count: int,
    index: int,
) -> (longest: int)
    requires
        0 <= index < count <= locations.len(),
        prefix_hit(locations[index], path),
    ensures
        is_longest_prefix(path, locations.take(count), longest),
    decreases count,
{
    let shown = locations.take(count);
    let last = count - 1;
    if exists|other: int| 0 <= other < last && prefix_hit(#[trigger] locations[other], path) {
        let other = choose|other: int|
            0 <= other < last && prefix_hit(#[trigger] locations[other], path);
        let before = lemma_longest_prefix_exists(path, locations, last, other);
        assert(forall|i: int| 0 <= i < last ==> #[trigger] shown[i] == locations.take(last)[i]);
        if prefix_hit(locations[last], path) && locations[last].path@.len()
            > locations[before].path@.len() {
            assert(is_longest_prefix(path, shown, last));
            last
        } else {
            assert(is_longest_prefix(path, shown, before));
            before
        }
    } else {
        assert(index == last);
        assert(is_longest_prefix(path, shown, last));
        last
    }
}

/// A request for the path of an exact location is answered by an exact location
/// with that path, whatever prefixes and regular expressions it hits as well.
pub proof fn law_exact_comes_first(
    path: Seq<char>,
    locations: Seq<RuntimeLocation>,
    index: int,
)
    requires
        0 <= index < locations.len(),
        exact_hit(locations[index], path),
    ensures
        located(path, locations) matches Some(chosen) && 0 <= chosen <= index && exact_hit(
            locations[chosen],
            path,
        ),
{
    lemma_first_hit_exists(
        locations,
        |location: RuntimeLocation| exact_hit(location, path),
        index,
    );
}

/// Without an exact location for its path, a request that matches a regular
/// expression is answered by the first one that it matches, whatever prefixes it
/// hits as well.
pub proof fn law_regex_comes_before_prefix(
    path: Seq<char>,
    locations: Seq<RuntimeLocation>,
    index: int,
)
    requires
        forall|i: int| 0 <= i < locations.len() ==> !exact_hit(#[trigger] locations[i], path),
        0 <= index < locations.len(),
        regex_hit(locations[index], path),
    ensures
        located(path, locations) matches Some(chosen) && 0 <= chosen <= index && regex_hit(
            locations[chosen],
            path,
        ) && forall|i: int| 0 <= i < chosen ==> !regex_hit(#[trigger] locations[i], path),
{
    let hit = |location: RuntimeLocation| regex_hit(location, path);
    lemma_first_hit_exists(locations, hit, index);
    assert(first_exact(path, locations) is None);
    let chosen = first_hit(locations, hit)->0;
    assert forall|i: int| 0 <= i < chosen implies !regex_hit(#[trigger] locations[i], path) by {
        assert(!hit(locations[i]));
    }
}

/// Without an exact location or a regular expression for its path, a request is
/// answered by the longest prefix, and among those of one length by the first.
pub proof fn law_longest_prefix_answers(
    path: Seq<char>,
    locations: Seq<RuntimeLocation>,
    index: int,
)
    requires
        forall|i: int|
            0 <= i < locations.len() ==> !exact_hit(#[trigger] locations[i], path) && !regex_hit(
                locations[i],
                path,
            ),
        0 <= index < locations.len(),
        prefix_hit(locations[index], path),
    ensures
        located(path, locations) matches Some(chosen) && is_longest_prefix(path, locations, chosen),
{
    let longest = lemma_longest_prefix_exists(path, locations, locations.len() as int, index);
    assert(locations.take(locations.len() as int) =~= locations);
    lemma_longest_prefix(path, locations, longest);
    assert(first_exact(path, locations) is None);
    assert(first_regex(path, locations) is None);
}

/// A request has no location exactly if it hits none.
pub proof fn law_no_location_without_hit(path: Seq<char>, locations: Seq<RuntimeLocation>)
    ensures
        located(path, locations) is None <==> forall|i: int|
            0 <= i < locations.len() ==> {
                &&& !exact_hit(#[trigger] locations[i], path)
                &&& !regex_hit(locations[i], path)
                &&& !prefix_hit(locations[i], path)
            },
{
    if exists|i: int|
        0 <= i < locations.len() && (exact_hit(#[trigger] locations[i], path) || regex_hit(
            locations[i],
            path,
        ) || prefix_hit(locations[i], path)) {
        let i = choose|i: int|
            0 <= i < locations.len() && (exact_hit(#[trigger] locations[i], path) || regex_hit(
                locations[i],
                path,
            ) || prefix_hit(locations[i], path));
        if exact_hit(locations[i], path) {
            law_exact_comes_first(path, locations, i);
        } else if regex_hit(locations[i], path) {
            lemma_first_hit_exists(
                locations,
                |location: RuntimeLocation| regex_hit(location, path),
                i,
            );
        } else {
            let longest = lemma_longest_prefix_exists(path, locations, locations.len() as int, i);
            assert(locations.take(locations.len() as int) =~= locations);
            lemma_longest_prefix(path, locations, longest);
        }
    } else {
        assert(first_exact(path, locations) is None);
        assert(first_regex(path, locations) is None);
        assert(longest_prefix(path, locations) is None);
    }
}

// ---- The configuration ----

/// Nothing is unknown exactly if all targets are known; and what is unknown is a
/// target.
proof fn lemma_last_unknown(targets: Seq<Option<Seq<char>>>, known: Set<Seq<char>>)
    ensures
        last_unknown(targets, known) is None <==> forall|i: int|
            0 <= i < targets.len() ==> ((#[trigger] targets[i]) matches Some(name) ==> known.contains(
                name,
            )),
        last_unknown(targets, known) matches Some(name) ==> !known.contains(name)
            && targets.contains(Some(name)),
    decreases targets.len(),
{
    if targets.len() > 0 {
        let rest = targets.drop_last();
        lemma_last_unknown(rest, known);
        assert(forall|i: int| 0 <= i < rest.len() ==> #[trigger] rest[i] == targets[i]);
        assert(targets.last() == targets[targets.len() - 1]);
        if last_unknown(targets, known) is None {
            assert forall|i: int| 0 <= i < targets.len() implies ((
            #[trigger] targets[i]) matches Some(name) ==> known.contains(name)) by {
                if i < rest.len() {
                    assert(rest[i] == targets[i]);
                }
            }
        }
        if last_unknown(targets, known) is Some {
            let name = last_unknown(targets, known)->0;
            if rest.contains(Some(name)) {
                let i = choose|i: int| 0 <= i < rest.len() && rest[i] == Some(name);
                assert(targets[i] == Some(name));
            }
        }
    }
}

/// The target of every location is among those of all the servers.
proof fn lemma_http_target(servers: Seq<HttpServerConfig>, server: int, location: int)
    requires
        0 <= server < servers.len(),
        0 <= location < servers[server].locations@.len(),
    ensures
        http_targets(servers).contains(location_target(servers[server].locations@[location])),
    decreases servers.len(),
{
    let rest = http_targets(servers.drop_last());
    let last = location_targets(servers.last().locations@);
    let target = location_target(servers[server].locations@[location]);
    if server == servers.len() - 1 {
        assert((rest + last)[rest.len() + location] == target);
    } else {
        lemma_http_target(servers.drop_last(), server, location);
        let i = choose|i: int| 0 <= i < rest.len() && rest[i] == target;
        assert((rest + last)[i] == target);
    }
}

/// A configuration passes the check of its references exactly if every upstream
/// is there that a location or a stream refers to.
pub proof fn law_check_finds_missing_upstreams(config: MainConfig)
    ensures
        config.unknown_upstream() is None <==> {
            &&& forall|i: int, j: int|
                0 <= i < config.http.servers@.len() && 0 <= j
                    < config.http.servers@[i].locations@.len() ==> (location_target(
                    #[trigger] config.http.servers@[i].locations@[j],
                ) matches Some(name) ==> config.upstreams@.contains_key(name))
            &&& forall|i: int|
                0 <= i < config.stream.servers@.len() ==> (stream_target(
                    #[trigger] config.stream.servers@[i],
                ) matches Some(name) ==> config.upstreams@.contains_key(name))
        },
        config.unknown_upstream() matches Some(name) ==> !config.upstreams@.contains_key(name),
{
    let targets = config.targets();
    let http = http_targets(config.http.servers@);
    let stream = stream_targets(config.stream.servers@);
    let known = config.upstreams@.dom();
    lemma_last_unknown(targets, known);
    if config.unknown_upstream() is None {
        assert forall|i: int, j: int|
            0 <= i < config.http.servers@.len() && 0 <= j
                < config.http.servers@[i].locations@.len() implies (location_target(
            #[trigger] config.http.servers@[i].locations@[j],
        ) matches Some(name) ==> config.upstreams@.contains_key(name)) by {
            lemma_http_target(config.http.servers@, i, j);
            let target = location_target(config.http.servers@[i].locations@[j]);
            let k = choose|k: int| 0 <= k < http.len() && http[k] == target;
            assert(targets[k] == target);
        }
        assert forall|i: int| 0 <= i < config.stream.servers@.len() implies (stream_target(
            #[trigger] config.stream.servers@[i],
        ) matches Some(name) ==> config.upstreams@.contains_key(name)) by {
            assert(targets[http.len() + i] == stream_target(config.stream.servers@[i]));
        }
    } else {
        let name = config.unknown_upstream()->0;
        let k = choose|k: int| 0 <= k < targets.len() && targets[k] == Some(name);
        if k < http.len() {
            assert(http[k] == Some(name));
            lemma_http_target_source(config.http.servers@, k);
        } else {
            assert(stream[k - http.len()] == Some(name));
            assert(stream_target(config.stream.servers@[k - http.len()]) == Some(name));
        }
    }
}

/// Every target of the servers is that of a location.
proof fn lemma_http_target_source(servers: Seq<HttpServerConfig>, index: int)
    requires
        0 <= index < http_targets(servers).len(),
    ensures
        exists|i: int, j: int|
            0 <= i < servers.len() && 0 <= j < servers[i].locations@.len() && location_target(
                #[trigger] servers[i].locations@[j],
            ) == http_targets(servers)[index],
    decreases servers.len(),
{
    let rest = http_targets(servers.drop_last());
    let last = servers.len() - 1;
    if index < rest.len() {
        lemma_http_target_source(servers.drop_last(), index);
        let (i, j) = choose|i: int, j: int|
            0 <= i < servers.drop_last().len() && 0 <= j
                < servers.drop_last()[i].locations@.len() && location_target(
                #[trigger] servers.drop_last()[i].locations@[j],
            ) == rest[index];
        assert(location_target(servers[i].locations@[j]) == http_targets(servers)[index]);
    } else {
        let j = index - rest.len();
        assert(location_target(servers[last].locations@[j]) == http_targets(servers)[index]);
    }
}

/// In a configuration that is served, every upstream is there that a location or
/// a stream refers to.
pub proof fn law_served_upstreams_exist(config: MainConfig, runtime: RuntimeConfig)
    requires
        config.fault() is None,
        runtime.built_from(config),
    ensures
        forall|i: int, j: int|
            0 <= i < runtime.http.servers@.len() && 0 <= j
                < runtime.http.servers@[i].locations@.len() ==> ((
            #[trigger] runtime.http.servers@[i].locations@[j]).action matches LocationAction::Proxy(
                name,
            ) ==> runtime.upstreams@.contains_key(name@)),
        forall|i: int|
            0 <= i < runtime.stream.servers@.len() ==> ((
            #[trigger] runtime.stream.servers@[i]).target matches StreamTarget::Upstream(name)
                ==> runtime.upstreams@.contains_key(name@)),
{
    law_check_finds_missing_upstreams(config);
    assert forall|name: Seq<char>| #[trigger]
        config.upstreams@.contains_key(name) implies runtime.upstreams@.contains_key(name) by {
        let k = position_of(config.upstreams.pairs(), name);
        assert(runtime.upstreams.pairs()[k].0 == name);
    }
    assert forall|i: int, j: int|
        0 <= i < runtime.http.servers@.len() && 0 <= j
            < runtime.http.servers@[i].locations@.len() implies ((
    #[trigger] runtime.http.servers@[i].locations@[j]).action matches LocationAction::Proxy(name)
        ==> runtime.upstreams@.contains_key(name@)) by {
        let server = runtime.http.servers@[i];
        assert(server.built_from(config.http.servers@[i]));
        let location = server.locations@[j];
        let written = config.http.servers@[i].locations@[j];
        assert(location.built_from(
            config.http.servers@[i].proxy_set_header.pairs(),
            written,
        ));
        assert(location_target(written) matches Some(name) ==> config.upstreams@.contains_key(
            name,
        ));
    }
    assert forall|i: int| 0 <= i < runtime.stream.servers@.len() implies ((
    #[trigger] runtime.stream.servers@[i]).target matches StreamTarget::Upstream(name)
        ==> runtime.upstreams@.contains_key(name@)) by {
        assert(runtime.stream.servers@[i].built_from(config.stream.servers@[i]));
        assert(stream_target(config.stream.servers@[i]) matches Some(name)
            ==> config.upstreams@.contains_key(name));
    }
}

/// A server of a configuration that is served never answers for want of an
/// upstream: what it answers itself has the status of success.
pub proof fn law_served_requests_find_their_upstream(
    config: MainConfig,
    runtime: RuntimeConfig,
    server: int,
    path: Seq<char>,
    ticket: usize,
    remote_addr: SocketAddr,
)
    requires
        config.fault() is None,
        runtime.built_from(config),
        0 <= server < runtime.http.servers@.len(),
    ensures
        decision_for(
            path,
            runtime.http.servers@[server].locations@,
            runtime.upstreams@,
            ticket,
            remote_addr,
        ) matches Decision::Respond { status, .. } ==> status == STATUS_OK,
{
    law_served_upstreams_exist(config, runtime);
    let locations = runtime.http.servers@[server].locations@;
    lemma_located_in_range(path, locations);
    if located(path, locations) is Some {
        let location = runtime.http.servers@[server].locations@[located(path, locations)->0];
    }
}

/// The headers that a location sets are, as a map, those of its server overridden
/// by its own.
pub proof fn law_location_headers_override(
    server: Seq<(Seq<char>, String)>,
    location: Seq<(Seq<char>, String)>,
)
    requires
        names_distinct(server),
        names_distinct(location),
    ensures
        names_distinct(merged_headers(server, location)),
        pairs_map(merged_headers(server, location)) == pairs_map(server).union_prefer_right(
            pairs_map(location),
        ),
{
    let missing = |pair: (Seq<char>, String)| !names_contain(location, pair.0);
    let kept = server.filter(missing);
    let merged = kept + location;
    lemma_filter_distinct(server, missing);
    assert forall|i: int, j: int| 0 <= i < j < merged.len() implies (#[trigger] merged[i]).0 != (
    #[trigger] merged[j]).0 by {
        if i < kept.len() && j >= kept.len() {
            lemma_filter_element(server, missing, i);
            assert(location[j - kept.len()].0 != kept[i].0);
        } else if i >= kept.len() {
            assert(location[i - kept.len()].0 != location[j - kept.len()].0);
        }
    }
    let overridden = pairs_map(server).union_prefer_right(pairs_map(location));
    assert forall|name: Seq<char>|
        pairs_map(merged).contains_key(name) == #[trigger] overridden.contains_key(name) && (
        overridden.contains_key(name) ==> pairs_map(merged)[name] == overridden[name]) by {
        if names_contain(location, name) {
            let i = position_of(location, name);
            assert(merged[kept.len() + i] == location[i]);
            lemma_pair_is_entry(merged, kept.len() + i);
            lemma_pair_is_entry(location, i);
        } else if names_contain(server, name) {
            let i = position_of(server, name);
            lemma_filter_keeps(server, missing, i);
            let k = choose|k: int| 0 <= k < kept.len() && kept[k] == server[i];
            assert(merged[k] == server[i]);
            lemma_pair_is_entry(merged, k);
            lemma_pair_is_entry(server, i);
        } else if names_contain(merged, name) {
            let i = position_of(merged, name);
            if i >= kept.len() {
                assert(location[i - kept.len()].0 == name);
            } else {
                lemma_filter_element(server, missing, i);
                let k = choose|k: int| 0 <= k < server.len() && server[k] == kept[i];
                assert(server[k].0 == name);
            }
        }
    }
    assert(pairs_map(merged) =~= overridden);
}

/// A kept element is one of the sequence for which the condition holds.
pub proof fn lemma_filter_element<A>(seq: Seq<A>, keep: spec_fn(A) -> bool, index: int)
    requires
        0 <= index < seq.filter(keep).len(),
    ensures
        keep(seq.filter(keep)[index]),
        exists|k: int| 0 <= k < seq.len() && #[trigger] seq[k] == seq.filter(keep)[index],
    decreases seq.len(),
{
    reveal(Seq::filter);
    if seq.len() > 0 {
        let rest = seq.drop_last().filter(keep);
        if index < rest.len() {
            lemma_filter_element(seq.drop_last(), keep, index);
            let k = choose|k: int|
                0 <= k < seq.drop_last().len() && #[trigger] seq.drop_last()[k] == rest[index];
            assert(seq[k] == seq.filter(keep)[index]);
        } else {
            assert(seq[seq.len() - 1] == seq.filter(keep)[index]);
        }
    }
}

/// An element for which the condition holds is kept.
pub proof fn lemma_filter_keeps<A>(seq: Seq<A>, keep: spec_fn(A) -> bool, index: int)
    requires
        0 <= index < seq.len(),
        keep(seq[index]),
    ensures
        exists|k: int| 0 <= k < seq.filter(keep).len() && #[trigger] seq.filter(keep)[k] == seq[index],
    decreases seq.len(),
{
    reveal(Seq::filter);
    let rest = seq.drop_last().filter(keep);
    if index < seq.len() - 1 {
        lemma_filter_keeps(seq.drop_last(), keep, index);
        let k = choose|k: int| 0 <= k < rest.len() && #[trigger] rest[k] == seq[index];
        assert(seq.filter(keep)[k] == seq[index]);
    } else {
        assert(seq.filter(keep)[rest.len() as int] == seq[index]);
    }
}

/// Kept pairs have different names if all have.
proof fn lemma_filter_distinct(
    pairs: Seq<(Seq<char>, String)>,
    keep: spec_fn((Seq<char>, String)) -> bool,
)
    requires
        names_distinct(pairs),
    ensures
        names_distinct(pairs.filter(keep)),
    decreases pairs.len(),
{
    reveal(Seq::filter);
    if pairs.len() > 0 {
        let rest = pairs.drop_last();
        lemma_filter_distinct(rest, keep);
        let kept = pairs.filter(keep);
        assert forall|i: int, j: int| 0 <= i < j < kept.len() implies (#[trigger] kept[i]).0 != (
        #[trigger] kept[j]).0 by {
            if j < rest.filter(keep).len() {
                assert(rest.filter(keep)[i].0 != rest.filter(keep)[j].0);
            } else {
                lemma_filter_element(rest, keep, i);
                let k = choose|k: int| 0 <= k < rest.len() && #[trigger] rest[k] == kept[i];
                assert(pairs[k].0 != pairs[pairs.len() - 1].0);
            }
        }
    }
}

/// Whether a location is refused rests on its path only if that is a regular
/// expression.
pub proof fn law_only_regex_paths_are_compiled(
    server_headers: Seq<(Seq<char>, String)>,
    first: LocationConfig,
    second: LocationConfig,
)
    requires
        first.match_type !is Regex,
        second.match_type !is Regex,
        first.proxy_set_header.pairs() == second.proxy_set_header.pairs(),
    ensures
        location_fault(server_headers, first) == location_fault(server_headers, second),
{
}

/// Whether the path of a location compiles, if it is a regular expression, and
/// all the headers that it sets have header names.
pub open spec fn location_is_sound(
    server_headers: Seq<(Seq<char>, String)>,
    location: LocationConfig,
) -> bool {
    let merged = merged_headers(server_headers, location.proxy_set_header.pairs());
    &&& location.match_type is Regex ==> compiled_regex(location.path@) is Ok
    &&& forall|k: int| 0 <= k < merged.len() ==> is_header_name((#[trigger] merged[k]).0)
}

/// A configuration is served exactly if every upstream is there that it refers
/// to, every regular expression compiles, and every header that it sets has a
/// header name.
pub proof fn law_sound_configurations_are_served(config: MainConfig)
    ensures
        config.fault() is None <==> {
            &&& config.unknown_upstream() is None
            &&& forall|i: int, j: int|
                0 <= i < config.http.servers@.len() && 0 <= j
                    < config.http.servers@[i].locations@.len() ==> location_is_sound(
                    config.http.servers@[i].proxy_set_header.pairs(),
                    #[trigger] config.http.servers@[i].locations@[j],
                )
        },
{
    lemma_server_faults(config.http.servers@);
}

/// No name is bad exactly if all are header names.
pub proof fn lemma_bad_names(pairs: Seq<(Seq<char>, String)>)
    ensures
        first_bad_name(pairs) is None <==> forall|k: int|
            0 <= k < pairs.len() ==> is_header_name((#[trigger] pairs[k]).0),
    decreases pairs.len(),
{
    if pairs.len() > 0 {
        let rest = pairs.drop_last();
        lemma_bad_names(rest);
        assert(forall|k: int| 0 <= k < rest.len() ==> #[trigger] rest[k] == pairs[k]);
        assert(pairs.last() == pairs[pairs.len() - 1]);
        if first_bad_name(pairs) is None {
            assert forall|k: int| 0 <= k < pairs.len() implies is_header_name(
                (#[trigger] pairs[k]).0,
            ) by {
                if k < rest.len() {
                    assert(rest[k] == pairs[k]);
                }
            }
        }
    }
}

/// No location has a fault exactly if all are sound.
proof fn lemma_location_faults(
    server_headers: Seq<(Seq<char>, String)>,
    locations: Seq<LocationConfig>,
)
    ensures
        first_location_fault(server_headers, locations) is None <==> forall|j: int|
            0 <= j < locations.len() ==> location_is_sound(server_headers, #[trigger] locations[j]),
    decreases locations.len(),
{
    if locations.len() > 0 {
        let rest = locations.drop_last();
        let last = locations.last();
        lemma_location_faults(server_headers, rest);
        lemma_bad_names(merged_headers(server_headers, last.proxy_set_header.pairs()));
        assert(location_fault(server_headers, last) is None <==> location_is_sound(
            server_headers,
            last,
        ));
        assert(forall|j: int| 0 <= j < rest.len() ==> #[trigger] rest[j] == locations[j]);
        assert(last == locations[locations.len() - 1]);
        if first_location_fault(server_headers, locations) is None {
            assert forall|j: int| 0 <= j < locations.len() implies location_is_sound(
                server_headers,
                #[trigger] locations[j],
            ) by {
                if j < rest.len() {
                    assert(rest[j] == locations[j]);
                }
            }
        }
    }
}

/// No server has a fault exactly if all their locations are sound.
pub proof fn lemma_server_faults(servers: Seq<HttpServerConfig>)
    ensures
        first_server_fault(servers) is None <==> forall|i: int, j: int|
            0 <= i < servers.len() && 0 <= j < servers[i].locations@.len() ==> location_is_sound(
                servers[i].proxy_set_header.pairs(),
                #[trigger] servers[i].locations@[j],
            ),
    decreases servers.len(),
{
    if servers.len() > 0 {
        let rest = servers.drop_last();
        let last = servers.last();
        lemma_server_faults(rest);
        lemma_location_faults(last.proxy_set_header.pairs(), last.locations@);
        assert(forall|i: int| 0 <= i < rest.len() ==> #[trigger] rest[i] == servers[i]);
        assert(last == servers[servers.len() - 1]);
        if first_server_fault(servers) is None {
            assert forall|i: int, j: int|
                0 <= i < servers.len() && 0 <= j < servers[i].locations@.len() implies location_is_sound(
                servers[i].proxy_set_header.pairs(),
                #[trigger] servers[i].locations@[j],
            ) by {
                if i < rest.len() {
                    assert(rest[i].locations@[j] == servers[i].locations@[j]);
                } else {
                    assert(last.locations@[j] == servers[i].locations@[j]);
                }
            }
        }
        if forall|i: int, j: int|
            0 <= i < servers.len() && 0 <= j < servers[i].locations@.len() ==> location_is_sound(
                servers[i].proxy_set_header.pairs(),
                #[trigger] servers[i].locations@[j],
            ) {
            assert forall|i: int, j: int|
                0 <= i < rest.len() && 0 <= j < rest[i].locations@.len() implies location_is_sound(
                rest[i].proxy_set_header.pairs(),
                #[trigger] rest[i].locations@[j],
            ) by {
                assert(servers[i].locations@[j] == rest[i].locations@[j]);
            }
            assert forall|j: int| 0 <= j < last.locations@.len() implies location_is_sound(
                last.proxy_set_header.pairs(),
                #[trigger] last.locations@[j],
            ) by {
                assert(servers[servers.len() - 1].locations@[j] == last.locations@[j]);
            }
        }
    }
}

// ---- What is done with a request ----

/// A request from the same client for the same path is dealt with in the same way
/// each time, if its upstream goes by the client's address: neither the port nor
/// any counter matters.
pub proof fn law_ip_hash_keeps_decision(
    path: Seq<char>,
    locations: Seq<RuntimeLocation>,
    upstreams: Map<Seq<char>, RuntimeUpstream>,
    name: String,
    first: SocketAddr,
    second: SocketAddr,
    first_ticket: usize,
    second_ticket: usize,
)
    requires
        location_for(path, locations) matches Some(location) && location.action
            == LocationAction::Proxy(name),
        upstreams.contains_key(name@),
        upstreams[name@].load_balancing is IpHash,
        first.spec_ip() == second.spec_ip(),
    ensures
        decision_for(path, locations, upstreams, first_ticket, first) == decision_for(
            path,
            locations,
            upstreams,
            second_ticket,
            second,
        ),
{
}

/// A request is forwarded exactly if its location names an upstream that is there
/// and has servers; and then to one of these, with the headers of the location.
pub proof fn law_requests_reach_their_upstream(
    path: Seq<char>,
    locations: Seq<RuntimeLocation>,
    upstreams: Map<Seq<char>, RuntimeUpstream>,
    ticket: usize,
    remote_addr: SocketAddr,
)
    ensures
        ({
            let decision = decision_for(path, locations, upstreams, ticket, remote_addr);
            &&& decision is Forward <==> (location_for(path, locations) matches Some(location)
                && location.action matches LocationAction::Proxy(name) && upstreams.contains_key(
                name@,
            ) && upstreams[name@].servers@.len() > 0)
            &&& decision matches Decision::Forward { target, proxy_set_header } ==> {
                &&& location_for(path, locations) matches Some(location)
                &&& location.action matches LocationAction::Proxy(name)
                &&& upstreams[name@].servers@.contains(target)
                &&& proxy_set_header == location.proxy_set_header@
            }
        }),
{
    if location_for(path, locations) is Some {
        let location = location_for(path, locations)->0;
        if let LocationAction::Proxy(name) = location.action {
            law_selection_is_a_server(upstreams[name@], ticket, Some(remote_addr));
        }
    }
}

// ---- The headers of a forwarded request ----

/// The characters are visible ASCII characters.
spec fn is_visible(text: Seq<char>) -> bool {
    forall|i: int| 0 <= i < text.len() ==> ' ' <= #[trigger] text[i] <= '~'
}

/// Visible characters are a header value.
proof fn lemma_visible_value(text: Seq<char>)
    requires
        is_visible(text),
    ensures
        text_value(text) is Some,
{
    assert(is_ascii_chars(text));
    is_ascii_chars_encode_utf8(text);
    assert forall|i: int| 0 <= i < encode_utf8(text).len() implies 32 <= #[trigger] encode_utf8(
        text,
    )[i] <= 126 by {
        assert(text[i] as u8 == encode_utf8(text)[i]);
    }
}

/// Decimal digits are visible.
proof fn lemma_decimal_visible(number: nat)
    ensures
        is_visible(decimal(number)),
    decreases number,
{
    if number >= 10 {
        lemma_decimal_visible(number / 10);
    }
}

/// Dotted octets are visible.
proof fn lemma_dotted_visible(octets: Seq<u8>)
    ensures
        is_visible(dotted(octets)),
{
    reveal_strlit(".");
    lemma_decimal_visible(octets[0] as nat);
    lemma_decimal_visible(octets[1] as nat);
    lemma_decimal_visible(octets[2] as nat);
    lemma_decimal_visible(octets[3] as nat);
}

/// The texts of an IPv4 address, with its port and without, are header values.
pub proof fn law_ipv4_texts_are_header_values(addr: SocketAddr)
    requires
        addr is V4,
    ensures
        text_value(socket_text(addr)) is Some,
        text_value(ip_text(addr.spec_ip())) is Some,
{
    if let SocketAddr::V4(addr) = addr {
        reveal_strlit(":");
        lemma_dotted_visible(addr.octets@);
        lemma_decimal_visible(addr.port as nat);
        lemma_visible_value(dotted(addr.octets@));
        lemma_visible_value(dotted(addr.octets@) + ":"@ + decimal(addr.port as nat));
    }
}

/// The headers of a request to an IPv4 server are set whenever its header map has
/// room for `host` and for each header to set.
pub proof fn law_headers_with_room_are_set(
    before: HeaderMap<HeaderValue>,
    headers: Seq<RuntimeProxyHeader>,
    target: SocketAddr,
    remote_addr: SocketAddr,
    after: HeaderMap<HeaderValue>,
    res: Result<(), HeaderError>,
)
    requires
        headers_set_for(before, headers, socket_text(target), remote_addr, after, res),
        target is V4,
        has_room(header_contents(before), headers.len() + 1),
    ensures
        res is Ok,
{
    law_ipv4_texts_are_header_values(target);
}

/// If no header sets it, the `host` of a request that is forwarded is the address
/// of the server that it goes to.
pub proof fn law_host_is_the_upstream_server(
    before: HeaderMap<HeaderValue>,
    headers: Seq<RuntimeProxyHeader>,
    target: SocketAddr,
    remote_addr: SocketAddr,
    after: HeaderMap<HeaderValue>,
)
    requires
        headers_set_for(before, headers, socket_text(target), remote_addr, after, Ok(())),
        forall|i: int| 0 <= i < headers.len() ==> (#[trigger] headers[i]).spec_name() != "host"@,
    ensures
        header_contents(after).contains_key("host"@),
        header_contents(after)["host"@] == seq![
            Field { bytes: encode_utf8(socket_text(target)), sensitive: false },
        ],
{
    let host = text_value(socket_text(target))->0;
    let source = header_source(host_of(header_contents(before)), host, remote_addr);
    lemma_unset(headers, "host"@, source);
}

/// A header that is set to `$host` has the host that the client asked for, if it
/// asked for one and no later header sets it too.
pub proof fn law_dollar_host_is_the_original_host(
    contents: Map<Seq<char>, Seq<Field>>,
    headers: Seq<RuntimeProxyHeader>,
    source: HeaderSource,
    index: int,
)
    requires
        0 <= index < headers.len(),
        headers[index].spec_value() == "$host"@,
        source.original_host is Some,
        forall|i: int|
            index < i < headers.len() ==> (#[trigger] headers[i]).spec_name()
                != headers[index].spec_name(),
    ensures
        forwarded_headers(contents, headers, source).contains_key(headers[index].spec_name()),
        forwarded_headers(contents, headers, source)[headers[index].spec_name()]
            == seq![source.original_host->0],
{
    lemma_last_set(headers, source, index);
}

/// A header that is set to `$remote_addr` has the client's IP address, if no later
/// header sets it too.
pub proof fn law_dollar_remote_addr_is_the_client(
    contents: Map<Seq<char>, Seq<Field>>,
    headers: Seq<RuntimeProxyHeader>,
    original_host: Option<Field>,
    upstream_host: Field,
    remote_addr: SocketAddr,
    index: int,
)
    requires
        0 <= index < headers.len(),
        headers[index].spec_value() == "$remote_addr"@,
        remote_addr is V6 ==> text_value(ip_text(remote_addr.spec_ip())) is Some,
        forall|i: int|
            index < i < headers.len() ==> (#[trigger] headers[i]).spec_name()
                != headers[index].spec_name(),
    ensures
        ({
            let source = header_source(original_host, upstream_host, remote_addr);
            let forwarded = forwarded_headers(contents, headers, source);
            &&& forwarded.contains_key(headers[index].spec_name())
            &&& forwarded[headers[index].spec_name()] == seq![
                Field { bytes: encode_utf8(ip_text(remote_addr.spec_ip())), sensitive: false },
            ]
        }),
{
    reveal_strlit("$host");
    reveal_strlit("$remote_addr");
    assert("$host"@.len() != "$remote_addr"@.len());
    if remote_addr is V4 {
        law_ipv4_texts_are_header_values(remote_addr);
    }
    let source = header_source(original_host, upstream_host, remote_addr);
    lemma_last_set(headers, source, index);
}

/// A header that the configuration sets, for a server or for a location of it,
/// reaches the upstream server with the value that its text stands for, if no
/// later header differs from it in the case of its name only.
pub proof fn law_configured_headers_reach_the_server(
    server_headers: Seq<(Seq<char>, String)>,
    config: LocationConfig,
    location: RuntimeLocation,
    contents: Map<Seq<char>, Seq<Field>>,
    source: HeaderSource,
    index: int,
)
    requires
        location.built_from(server_headers, config),
        ({
            let merged = merged_headers(server_headers, config.proxy_set_header.pairs());
            &&& 0 <= index < merged.len()
            &&& header_value(merged[index].1@, source) is Some
            &&& forall|i: int|
                index < i < merged.len() ==> lower((#[trigger] merged[i]).0) != lower(
                    merged[index].0,
                )
        }),
    ensures
        ({
            let merged = merged_headers(server_headers, config.proxy_set_header.pairs());
            let forwarded = forwarded_headers(contents, location.proxy_set_header@, source);
            &&& forwarded.contains_key(lower(merged[index].0))
            &&& forwarded[lower(merged[index].0)] == seq![
                header_value(merged[index].1@, source)->0,
            ]
        }),
{
    let merged = merged_headers(server_headers, config.proxy_set_header.pairs());
    let headers = location.proxy_set_header@;
    assert(headers[index].spec_name() == lower(merged[index].0));
    assert forall|i: int| index < i < headers.len() implies (#[trigger] headers[i]).spec_name()
        != headers[index].spec_name() by {
        assert(headers[i].spec_name() == lower(merged[i].0));
    }
    law_headers_are_set(contents, headers, source, index);
}

/// A header has the value that it is set to, if its text stands for one and no
/// later header sets it too.
pub proof fn law_headers_are_set(
    contents: Map<Seq<char>, Seq<Field>>,
    headers: Seq<RuntimeProxyHeader>,
    source: HeaderSource,
    index: int,
)
    requires
        0 <= index < headers.len(),
        header_value(headers[index].spec_value(), source) is Some,
        forall|i: int|
            index < i < headers.len() ==> (#[trigger] headers[i]).spec_name()
                != headers[index].spec_name(),
    ensures
        forwarded_headers(contents, headers, source).contains_key(headers[index].spec_name()),
        forwarded_headers(contents, headers, source)[headers[index].spec_name()]
            == seq![header_value(headers[index].spec_value(), source)->0],
{
    lemma_last_set(headers, source, index);
}

/// What no header sets stays as the client sent it, `host` apart.
pub proof fn law_other_headers_stay(
    contents: Map<Seq<char>, Seq<Field>>,
    headers: Seq<RuntimeProxyHeader>,
    source: HeaderSource,
    name: Seq<char>,
)
    requires
        name != "host"@,
        forall|i: int| 0 <= i < headers.len() ==> (#[trigger] headers[i]).spec_name() != name,
    ensures
        forwarded_headers(contents, headers, source).contains_key(name) == contents.contains_key(
            name,
        ),
        contents.contains_key(name) ==> forwarded_headers(contents, headers, source)[name]
            == contents[name],
{
    lemma_unset(headers, name, source);
}

/// A name that no header has is not set.
pub proof fn lemma_unset(headers: Seq<RuntimeProxyHeader>, name: Seq<char>, source: HeaderSource)
    requires
        forall|i: int| 0 <= i < headers.len() ==> (#[trigger] headers[i]).spec_name() != name,
    ensures
        last_value(headers, name, source) is None,
    decreases headers.len(),
{
    if headers.len() > 0 {
        assert(headers.last() == headers[headers.len() - 1]);
        lemma_unset(headers.drop_last(), name, source);
    }
}

/// The last header of a name sets it, if its text stands for a value.
pub proof fn lemma_last_set(headers: Seq<RuntimeProxyHeader>, source: HeaderSource, index: int)
    requires
        0 <= index < headers.len(),
        header_value(headers[index].spec_value(), source) is Some,
        forall|i: int|
            index < i < headers.len() ==> (#[trigger] headers[i]).spec_name()
                != headers[index].spec_name(),
    ensures
        last_value(headers, headers[index].spec_name(), source) == header_value(
            headers[index].spec_value(),
            source,
        ),
    decreases headers.len(),
{
    if index < headers.len() - 1 {
        assert(headers[headers.len() - 1].spec_name() != headers[index].spec_name());
        let rest = headers.drop_last();
        assert(rest[index] == headers[index]);
        lemma_last_set(rest, source, index);
    }
}

// ---- The steps of forwarding a request ----

/// The client gets the server's answer exactly if the connection, the handshake
/// and the request succeed, and then after these three; otherwise it is told of
/// the first failure, as a bad gateway.
pub proof fn law_answer_is_relayed_after_success(
    target: Seq<char>,
    connect: Option<Seq<char>>,
    handshake: Option<Seq<char>>,
    send: Option<Seq<char>>,
)
    ensures
        ({
            let (stage1, step1) = after_stage(ForwardStage::Connecting, target, connect);
            let (stage2, step2) = after_stage(stage1, target, handshake);
            let (stage3, step3) = after_stage(stage2, target, send);
            let told = |text: Seq<char>|
                (NextStep::Respond { status: STATUS_BAD_GATEWAY, body: text });
            if connect is Some {
                stage1 is Done && step1 == told(
                    "failed to connect upstream "@ + target + ": "@ + connect->0,
                )
            } else if handshake is Some {
                step1 is Handshake && stage2 is Done && step2 == told(
                    "failed to handshake upstream "@ + target + ": "@ + handshake->0,
                )
            } else if send is Some {
                step1 is Handshake && step2 is Send && stage3 is Done && step3 == told(
                    "failed to send request to upstream "@ + target + ": "@ + send->0,
                )
            } else {
                step1 is Handshake && step2 is Send && stage3 is Done && step3 is Relay
            }
        }),
{
}

} // verus!
