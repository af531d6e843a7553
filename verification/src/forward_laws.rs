//! What a forwarded request carries and what comes of it, as callers of the
//! functions see it.
use crate::addr::{ip_text, socket_text, SocketAddr};
use crate::config::RuntimeProxyHeader;
use crate::forward::{apply_proxy_headers, forward_headers, forward_headers_to};
use crate::forward::{forwarded_headers, header_source, header_value, host_of, last_value};
use crate::forward::{opt_field, Forward, ForwardStage, ForwardStep, HeaderError, HeaderSource};
use crate::headers::{has_room_for, header_contents, text_value};
use crate::headers::{Field, FieldValue};
use crate::laws::{law_ipv4_texts_are_header_values, lemma_last_set, lemma_unset};
use crate::proxy::PlainResponse;
use crate::uri::{parsed_uri, UpstreamUri};
use hyper::header::HeaderValue;
use hyper::{HeaderMap, Uri};
use vstd::prelude::*;
use vstd::utf8::encode_utf8;

verus! {

// ---- Parts of the proofs ----

/// Bytes that are tabs or lie outside the control characters are the value of
/// their text, and no other bytes are.
proof fn lemma_text_value(text: Seq<char>)
    ensures
        (forall|b: int|
            0 <= b < encode_utf8(text).len() ==> (#[trigger] encode_utf8(text)[b] == 9 || (
            encode_utf8(text)[b] >= 32 && encode_utf8(text)[b] != 127))) <==> text_value(text)
            == Some(Field { bytes: encode_utf8(text), sensitive: false }),
        text_value(text) is Some ==> text_value(text) == Some(
            Field { bytes: encode_utf8(text), sensitive: false },
        ),
{
}

/// The two texts that stand for other values differ.
proof fn lemma_variables_differ()
    ensures
        "$host"@ != "$remote_addr"@,
{
    reveal_strlit("$host");
    reveal_strlit("$remote_addr");
    assert("$host"@.len() != "$remote_addr"@.len());
}

/// A header whose text stands for nothing makes no difference.
proof fn lemma_passed_over(
    headers: Seq<RuntimeProxyHeader>,
    source: HeaderSource,
    index: int,
    name: Seq<char>,
)
    requires
        0 <= index < headers.len(),
        header_value(headers[index].spec_value(), source) is None,
    ensures
        last_value(headers.remove(index), name, source) == last_value(headers, name, source),
    decreases headers.len(),
{
    let without = headers.remove(index);
    if index == headers.len() - 1 {
        assert(without =~= headers.drop_last());
    } else {
        assert(without.last() == headers.last());
        assert(without.drop_last() =~= headers.drop_last().remove(index));
        assert(headers.drop_last()[index] == headers[index]);
        lemma_passed_over(headers.drop_last(), source, index, name);
    }
}

/// A header whose text stands for nothing makes no difference to any name.
proof fn lemma_passed_over_all(
    contents: Map<Seq<char>, Seq<Field>>,
    headers: Seq<RuntimeProxyHeader>,
    source: HeaderSource,
    index: int,
)
    requires
        0 <= index < headers.len(),
        header_value(headers[index].spec_value(), source) is None,
    ensures
        forwarded_headers(contents, headers.remove(index), source) == forwarded_headers(
            contents,
            headers,
            source,
        ),
{
    assert forall|name: Seq<char>| #[trigger]
        last_value(headers.remove(index), name, source) == last_value(headers, name, source) by {
        lemma_passed_over(headers, source, index, name);
    }
    assert(forwarded_headers(contents, headers.remove(index), source) =~= forwarded_headers(
        contents,
        headers,
        source,
    ));
}

// ---- `apply_proxy_headers` ----

/// A header that no later one of its name follows is set: `$host` to the client's
/// host with its mark, if there is one; `$remote_addr` to the client's IP address;
/// and any other text to its own bytes, if these are a header value. It then has
/// this value only.
pub proof fn law_apply_proxy_headers_sets(
    map: &mut HeaderMap<HeaderValue>,
    rules: &[RuntimeProxyHeader],
    original_host: Option<FieldValue>,
    upstream_host: FieldValue,
    remote_addr: SocketAddr,
    res: Result<(), HeaderError>,
    index: int,
)
    requires
        call_ensures(apply_proxy_headers, (map, rules, original_host, upstream_host, remote_addr), res),
        res is Ok,
        0 <= index < rules@.len(),
        forall|i: int|
            index < i < rules@.len() ==> (#[trigger] rules@[i]).spec_name()
                != rules@[index].spec_name(),
    ensures
        ({
            let before = header_contents(*old(map));
            let after = header_contents(*final(map));
            let name = rules@[index].spec_name();
            let text = rules@[index].spec_value();
            let bytes = encode_utf8(text);
            let client = encode_utf8(ip_text(remote_addr.spec_ip()));
            &&& text == "$host"@ && original_host is Some ==> (after.contains_key(name)
                && after[name] == seq![
                Field {
                    bytes: original_host->0.bytes@,
                    sensitive: original_host->0.sensitive,
                },
            ])
            &&& text == "$remote_addr"@ && (remote_addr is V4 || forall|b: int|
                0 <= b < client.len() ==> (#[trigger] client[b] == 9 || (client[b] >= 32
                    && client[b] != 127))) ==> (after.contains_key(name) && after[name] == seq![
                Field { bytes: client, sensitive: false },
            ])
            &&& text != "$host"@ && text != "$remote_addr"@ && (forall|b: int|
                0 <= b < bytes.len() ==> (#[trigger] bytes[b] == 9 || (bytes[b] >= 32 && bytes[b]
                    != 127))) ==> (after.contains_key(name) && after[name] == seq![
                Field { bytes, sensitive: false },
            ])
        }),
{
    let before = header_contents(*old(map));
    let source = header_source(opt_field(original_host), upstream_host@, remote_addr);
    lemma_variables_differ();
    lemma_text_value(rules@[index].spec_value());
    lemma_text_value(ip_text(remote_addr.spec_ip()));
    if remote_addr is V4 {
        law_ipv4_texts_are_header_values(remote_addr);
    }
    if header_value(rules@[index].spec_value(), source) is Some {
        lemma_last_set(rules@, source, index);
    }
}

/// A name that no header to set has stays as the client sent it, and `host` becomes
/// the upstream server.
pub proof fn law_apply_proxy_headers_keeps(
    map: &mut HeaderMap<HeaderValue>,
    rules: &[RuntimeProxyHeader],
    original_host: Option<FieldValue>,
    upstream_host: FieldValue,
    remote_addr: SocketAddr,
    res: Result<(), HeaderError>,
    name: Seq<char>,
)
    requires
        call_ensures(apply_proxy_headers, (map, rules, original_host, upstream_host, remote_addr), res),
        res is Ok,
        forall|i: int| 0 <= i < rules@.len() ==> (#[trigger] rules@[i]).spec_name() != name,
    ensures
        ({
            let before = header_contents(*old(map));
            let after = header_contents(*final(map));
            if name == "host"@ {
                after.contains_key(name) && after[name] == seq![
                    Field { bytes: upstream_host.bytes@, sensitive: upstream_host.sensitive },
                ]
            } else {
                &&& after.contains_key(name) == before.contains_key(name)
                &&& before.contains_key(name) ==> after[name] == before[name]
            }
        }),
{
    let before = header_contents(*old(map));
    let source = header_source(opt_field(original_host), upstream_host@, remote_addr);
    lemma_unset(rules@, name, source);
}

/// A header to set makes no difference if its text stands for nothing: `$host`
/// without a host of the client, or a text whose bytes are no header value.
pub proof fn law_apply_proxy_headers_passes_over(
    map: &mut HeaderMap<HeaderValue>,
    rules: &[RuntimeProxyHeader],
    original_host: Option<FieldValue>,
    upstream_host: FieldValue,
    remote_addr: SocketAddr,
    res: Result<(), HeaderError>,
    other_map: &mut HeaderMap<HeaderValue>,
    fewer: &[RuntimeProxyHeader],
    other_res: Result<(), HeaderError>,
    index: int,
)
    requires
        call_ensures(apply_proxy_headers, (map, rules, original_host, upstream_host, remote_addr), res),
        res is Ok,
        call_ensures(apply_proxy_headers, (other_map, fewer, original_host, upstream_host, remote_addr), other_res),
        other_res is Ok,
        header_contents(*old(map)) == header_contents(*old(other_map)),
        0 <= index < rules@.len(),
        fewer@ == rules@.remove(index),
        ({
            let before = header_contents(*old(map));
            let text = rules@[index].spec_value();
            let bytes = encode_utf8(text);
            if text == "$host"@ {
                original_host is None
            } else {
                text != "$remote_addr"@ && exists|b: int|
                    0 <= b < bytes.len() && !(#[trigger] bytes[b] == 9 || (bytes[b] >= 32 && bytes[b]
                        != 127))
            }
        }),
    ensures
        header_contents(*final(map)) == header_contents(*final(other_map)),
{
    let before = header_contents(*old(map));
    let source = header_source(opt_field(original_host), upstream_host@, remote_addr);
    lemma_text_value(rules@[index].spec_value());
    lemma_passed_over_all(before, rules@, source, index);
}

/// Headers are set whenever the map has room for `host` and for each of them.
pub proof fn law_apply_proxy_headers_succeeds(
    map: &mut HeaderMap<HeaderValue>,
    rules: &[RuntimeProxyHeader],
    original_host: Option<FieldValue>,
    upstream_host: FieldValue,
    remote_addr: SocketAddr,
    res: Result<(), HeaderError>,
)
    requires
        call_ensures(
            apply_proxy_headers,
            (map, rules, original_host, upstream_host, remote_addr),
            res,
        ),
    ensures
        res matches Err(error) ==> error is TooManyHeaders,
        res is Err ==> header_contents(*old(map)).dom().finite() && header_contents(
            *old(map),
        ).dom().len() + rules@.len() + 1 > 6554,
{
}

// ---- `forward_headers_to` ----

/// A header that no later one of its name follows is set: `$host` to the client's
/// host with its mark, if there is one; `$remote_addr` to the client's IP address;
/// and any other text to its own bytes, if these are a header value. It then has
/// this value only.
pub proof fn law_forward_headers_to_sets(
    map: &mut HeaderMap<HeaderValue>,
    rules: &[RuntimeProxyHeader],
    upstream_host: &str,
    remote_addr: SocketAddr,
    res: Result<(), HeaderError>,
    index: int,
)
    requires
        call_ensures(forward_headers_to, (map, rules, upstream_host, remote_addr), res),
        res is Ok,
        0 <= index < rules@.len(),
        forall|i: int|
            index < i < rules@.len() ==> (#[trigger] rules@[i]).spec_name()
                != rules@[index].spec_name(),
    ensures
        ({
            let before = header_contents(*old(map));
            let after = header_contents(*final(map));
            let name = rules@[index].spec_name();
            let text = rules@[index].spec_value();
            let bytes = encode_utf8(text);
            let client = encode_utf8(ip_text(remote_addr.spec_ip()));
            &&& text == "$host"@ && before.contains_key("host"@) ==> (after.contains_key(name)
                && after[name] == seq![before["host"@][0]])
            &&& text == "$remote_addr"@ && (remote_addr is V4 || forall|b: int|
                0 <= b < client.len() ==> (#[trigger] client[b] == 9 || (client[b] >= 32
                    && client[b] != 127))) ==> (after.contains_key(name) && after[name] == seq![
                Field { bytes: client, sensitive: false },
            ])
            &&& text != "$host"@ && text != "$remote_addr"@ && (forall|b: int|
                0 <= b < bytes.len() ==> (#[trigger] bytes[b] == 9 || (bytes[b] >= 32 && bytes[b]
                    != 127))) ==> (after.contains_key(name) && after[name] == seq![
                Field { bytes, sensitive: false },
            ])
        }),
{
    let before = header_contents(*old(map));
    let source = header_source(host_of(before), text_value(upstream_host@)->0, remote_addr);
    lemma_variables_differ();
    lemma_text_value(rules@[index].spec_value());
    lemma_text_value(ip_text(remote_addr.spec_ip()));
    if remote_addr is V4 {
        law_ipv4_texts_are_header_values(remote_addr);
    }
    if header_value(rules@[index].spec_value(), source) is Some {
        lemma_last_set(rules@, source, index);
    }
}

/// A name that no header to set has stays as the client sent it, and `host` becomes
/// the upstream server.
pub proof fn law_forward_headers_to_keeps(
    map: &mut HeaderMap<HeaderValue>,
    rules: &[RuntimeProxyHeader],
    upstream_host: &str,
    remote_addr: SocketAddr,
    res: Result<(), HeaderError>,
    name: Seq<char>,
)
    requires
        call_ensures(forward_headers_to, (map, rules, upstream_host, remote_addr), res),
        res is Ok,
        forall|i: int| 0 <= i < rules@.len() ==> (#[trigger] rules@[i]).spec_name() != name,
    ensures
        ({
            let before = header_contents(*old(map));
            let after = header_contents(*final(map));
            if name == "host"@ {
                after.contains_key(name) && after[name] == seq![
                    Field { bytes: encode_utf8(upstream_host@), sensitive: false },
                ]
            } else {
                &&& after.contains_key(name) == before.contains_key(name)
                &&& before.contains_key(name) ==> after[name] == before[name]
            }
        }),
{
    let before = header_contents(*old(map));
    let source = header_source(host_of(before), text_value(upstream_host@)->0, remote_addr);
    lemma_text_value(upstream_host@);
    lemma_unset(rules@, name, source);
}

/// A header to set makes no difference if its text stands for nothing: `$host`
/// without a host of the client, or a text whose bytes are no header value.
pub proof fn law_forward_headers_to_passes_over(
    map: &mut HeaderMap<HeaderValue>,
    rules: &[RuntimeProxyHeader],
    upstream_host: &str,
    remote_addr: SocketAddr,
    res: Result<(), HeaderError>,
    other_map: &mut HeaderMap<HeaderValue>,
    fewer: &[RuntimeProxyHeader],
    other_res: Result<(), HeaderError>,
    index: int,
)
    requires
        call_ensures(forward_headers_to, (map, rules, upstream_host, remote_addr), res),
        res is Ok,
        call_ensures(forward_headers_to, (other_map, fewer, upstream_host, remote_addr), other_res),
        other_res is Ok,
        header_contents(*old(map)) == header_contents(*old(other_map)),
        0 <= index < rules@.len(),
        fewer@ == rules@.remove(index),
        ({
            let before = header_contents(*old(map));
            let text = rules@[index].spec_value();
            let bytes = encode_utf8(text);
            if text == "$host"@ {
                !before.contains_key("host"@)
            } else {
                text != "$remote_addr"@ && exists|b: int|
                    0 <= b < bytes.len() && !(#[trigger] bytes[b] == 9 || (bytes[b] >= 32 && bytes[b]
                        != 127))
            }
        }),
    ensures
        header_contents(*final(map)) == header_contents(*final(other_map)),
{
    let before = header_contents(*old(map));
    let source = header_source(host_of(before), text_value(upstream_host@)->0, remote_addr);
    lemma_text_value(rules@[index].spec_value());
    lemma_passed_over_all(before, rules@, source, index);
}

/// Headers are set whenever the address of the server is a header value and the map
/// has room for `host` and for each of them. If it is no header value, nothing
/// changes.
pub proof fn law_forward_headers_to_succeeds(
    map: &mut HeaderMap<HeaderValue>,
    rules: &[RuntimeProxyHeader],
    upstream_host: &str,
    remote_addr: SocketAddr,
    res: Result<(), HeaderError>,
)
    requires
        call_ensures(forward_headers_to, (map, rules, upstream_host, remote_addr), res),
    ensures
        res == Err::<(), HeaderError>(HeaderError::InvalidHost) <==> exists|b: int|
            0 <= b < encode_utf8(upstream_host@).len() && !(#[trigger] encode_utf8(upstream_host@)[b] == 9
                || (encode_utf8(upstream_host@)[b] >= 32 && encode_utf8(upstream_host@)[b] != 127)),
        res == Err::<(), HeaderError>(HeaderError::InvalidHost) ==> *final(map) == *old(map),
        res == Err::<(), HeaderError>(HeaderError::TooManyHeaders) ==> header_contents(
            *old(map),
        ).dom().finite() && header_contents(*old(map)).dom().len() + rules@.len() + 1 > 6554,
{
    lemma_text_value(upstream_host@);
}

// ---- `forward_headers` ----

/// A header that no later one of its name follows is set: `$host` to the client's
/// host with its mark, if there is one; `$remote_addr` to the client's IP address;
/// and any other text to its own bytes, if these are a header value. It then has
/// this value only.
pub proof fn law_forward_headers_sets(
    map: &mut HeaderMap<HeaderValue>,
    rules: &[RuntimeProxyHeader],
    target: SocketAddr,
    remote_addr: SocketAddr,
    res: Result<(), HeaderError>,
    index: int,
)
    requires
        call_ensures(forward_headers, (map, rules, target, remote_addr), res),
        res is Ok,
        0 <= index < rules@.len(),
        forall|i: int|
            index < i < rules@.len() ==> (#[trigger] rules@[i]).spec_name()
                != rules@[index].spec_name(),
    ensures
        ({
            let before = header_contents(*old(map));
            let after = header_contents(*final(map));
            let name = rules@[index].spec_name();
            let text = rules@[index].spec_value();
            let bytes = encode_utf8(text);
            let client = encode_utf8(ip_text(remote_addr.spec_ip()));
            &&& text == "$host"@ && before.contains_key("host"@) ==> (after.contains_key(name)
                && after[name] == seq![before["host"@][0]])
            &&& text == "$remote_addr"@ && (remote_addr is V4 || forall|b: int|
                0 <= b < client.len() ==> (#[trigger] client[b] == 9 || (client[b] >= 32
                    && client[b] != 127))) ==> (after.contains_key(name) && after[name] == seq![
                Field { bytes: client, sensitive: false },
            ])
            &&& text != "$host"@ && text != "$remote_addr"@ && (forall|b: int|
                0 <= b < bytes.len() ==> (#[trigger] bytes[b] == 9 || (bytes[b] >= 32 && bytes[b]
                    != 127))) ==> (after.contains_key(name) && after[name] == seq![
                Field { bytes, sensitive: false },
            ])
        }),
{
    let before = header_contents(*old(map));
    let source = header_source(host_of(before), text_value(socket_text(target))->0, remote_addr);
    lemma_variables_differ();
    lemma_text_value(rules@[index].spec_value());
    lemma_text_value(ip_text(remote_addr.spec_ip()));
    if remote_addr is V4 {
        law_ipv4_texts_are_header_values(remote_addr);
    }
    if header_value(rules@[index].spec_value(), source) is Some {
        lemma_last_set(rules@, source, index);
    }
}

/// A name that no header to set has stays as the client sent it, and `host` becomes
/// the upstream server.
pub proof fn law_forward_headers_keeps(
    map: &mut HeaderMap<HeaderValue>,
    rules: &[RuntimeProxyHeader],
    target: SocketAddr,
    remote_addr: SocketAddr,
    res: Result<(), HeaderError>,
    name: Seq<char>,
)
    requires
        call_ensures(forward_headers, (map, rules, target, remote_addr), res),
        res is Ok,
        forall|i: int| 0 <= i < rules@.len() ==> (#[trigger] rules@[i]).spec_name() != name,
    ensures
        ({
            let before = header_contents(*old(map));
            let after = header_contents(*final(map));
            if name == "host"@ {
                after.contains_key(name) && after[name] == seq![
                    Field { bytes: encode_utf8(socket_text(target)), sensitive: false },
                ]
            } else {
                &&& after.contains_key(name) == before.contains_key(name)
                &&& before.contains_key(name) ==> after[name] == before[name]
            }
        }),
{
    let before = header_contents(*old(map));
    let source = header_source(host_of(before), text_value(socket_text(target))->0, remote_addr);
    lemma_text_value(socket_text(target));
    lemma_unset(rules@, name, source);
}

/// A header to set makes no difference if its text stands for nothing: `$host`
/// without a host of the client, or a text whose bytes are no header value.
pub proof fn law_forward_headers_passes_over(
    map: &mut HeaderMap<HeaderValue>,
    rules: &[RuntimeProxyHeader],
    target: SocketAddr,
    remote_addr: SocketAddr,
    res: Result<(), HeaderError>,
    other_map: &mut HeaderMap<HeaderValue>,
    fewer: &[RuntimeProxyHeader],
    other_res: Result<(), HeaderError>,
    index: int,
)
    requires
        call_ensures(forward_headers, (map, rules, target, remote_addr), res),
        res is Ok,
        call_ensures(forward_headers, (other_map, fewer, target, remote_addr), other_res),
        other_res is Ok,
        header_contents(*old(map)) == header_contents(*old(other_map)),
        0 <= index < rules@.len(),
        fewer@ == rules@.remove(index),
        ({
            let before = header_contents(*old(map));
            let text = rules@[index].spec_value();
            let bytes = encode_utf8(text);
            if text == "$host"@ {
                !before.contains_key("host"@)
            } else {
                text != "$remote_addr"@ && exists|b: int|
                    0 <= b < bytes.len() && !(#[trigger] bytes[b] == 9 || (bytes[b] >= 32 && bytes[b]
                        != 127))
            }
        }),
    ensures
        header_contents(*final(map)) == header_contents(*final(other_map)),
{
    let before = header_contents(*old(map));
    let source = header_source(host_of(before), text_value(socket_text(target))->0, remote_addr);
    lemma_text_value(rules@[index].spec_value());
    lemma_passed_over_all(before, rules@, source, index);
}

/// Headers are set whenever the address of the server is a header value and the map
/// has room for `host` and for each of them. If it is no header value, nothing
/// changes.
pub proof fn law_forward_headers_succeeds(
    map: &mut HeaderMap<HeaderValue>,
    rules: &[RuntimeProxyHeader],
    target: SocketAddr,
    remote_addr: SocketAddr,
    res: Result<(), HeaderError>,
)
    requires
        call_ensures(forward_headers, (map, rules, target, remote_addr), res),
    ensures
        res == Err::<(), HeaderError>(HeaderError::InvalidHost) <==> exists|b: int|
            0 <= b < encode_utf8(socket_text(target)).len() && !(#[trigger] encode_utf8(socket_text(target))[b] == 9
                || (encode_utf8(socket_text(target))[b] >= 32 && encode_utf8(socket_text(target))[b] != 127)),
        res == Err::<(), HeaderError>(HeaderError::InvalidHost) ==> *final(map) == *old(map),
        target is V4 ==> res != Err::<(), HeaderError>(HeaderError::InvalidHost),
        res == Err::<(), HeaderError>(HeaderError::TooManyHeaders) ==> header_contents(
            *old(map),
        ).dom().finite() && header_contents(*old(map)).dom().len() + rules@.len() + 1 > 6554,
{
    lemma_text_value(socket_text(target));
    if target is V4 {
        law_ipv4_texts_are_header_values(target);
    }
}

/// A map is sure to take more names exactly as long as it has at most 6554 with
/// them.
pub proof fn law_room(map: &HeaderMap<HeaderValue>, more: usize, res: bool)
    requires
        call_ensures(has_room_for, (map, more), res),
    ensures
        header_contents(*map).dom().finite(),
        res <==> header_contents(*map).dom().len() + more <= 6554,
{
}

// ---- The steps of forwarding a request ----

/// A text gives a request target exactly if it is one, and then the one that it
/// parses to; otherwise the text of the error.
pub proof fn law_parsed_target(text: &str, res: Result<UpstreamUri, String>)
    requires
        call_ensures(UpstreamUri::parse, (text,), res),
    ensures
        res is Ok <==> parsed_uri(text@) is Ok,
        res matches Ok(uri) ==> uri.text() == text@ && parsed_uri(text@) == Ok::<Uri, Seq<char>>(
            uri.parsed(),
        ),
        res matches Err(error) ==> parsed_uri(text@) == Err::<Uri, Seq<char>>(error@),
{
}

/// A request for a path and query is forwarded exactly if that is a request target,
/// and then for just that path and query. Otherwise the client is told of the error
/// in it, as a bad gateway.
pub proof fn law_start_keeps_path_and_query(
    text: &str,
    target: SocketAddr,
    res: Result<Forward, PlainResponse>,
)
    requires
        call_ensures(Forward::start, (Some(text), target), res),
    ensures
        res is Ok <==> parsed_uri(text@) is Ok,
        res matches Ok(forward) ==> {
            &&& forward.uri.text() == text@
            &&& parsed_uri(text@) == Ok::<Uri, Seq<char>>(forward.uri.parsed())
            &&& forward.target == target
            &&& forward.stage is Connecting
        },
        res matches Err(response) ==> parsed_uri(text@) is Err && response.status == 502
            && response.body@ == "invalid upstream uri: "@ + parsed_uri(text@)->Err_0,
{
}

/// A request without a path is forwarded for the root.
pub proof fn law_start_without_path(target: SocketAddr, res: Result<Forward, PlainResponse>)
    requires
        call_ensures(Forward::start, (None, target), res),
    ensures
        res is Ok <==> parsed_uri("/"@) is Ok,
        res matches Ok(forward) ==> {
            &&& forward.uri.text() == "/"@
            &&& parsed_uri("/"@) == Ok::<Uri, Seq<char>>(forward.uri.parsed())
            &&& forward.target == target
            &&& forward.stage is Connecting
        },
        res matches Err(response) ==> parsed_uri("/"@) is Err && response.status == 502
            && response.body@ == "invalid upstream uri: "@ + parsed_uri("/"@)->Err_0,
{
}

/// What is sent to the server is the target that the text parses to.
pub proof fn law_sent_target_is_parsed(
    text: &str,
    target: SocketAddr,
    res: Result<Forward, PlainResponse>,
    shown: &str,
    sent: &Uri,
)
    requires
        call_ensures(Forward::start, (Some(text), target), res),
        res is Ok,
        call_ensures(UpstreamUri::as_str, (&res->Ok_0.uri,), shown),
        call_ensures(UpstreamUri::as_uri, (&res->Ok_0.uri,), sent),
    ensures
        shown@ == text@,
        parsed_uri(text@) == Ok::<Uri, Seq<char>>(*sent),
{
}

/// With a request target at hand forwarding starts with it; with the error in one
/// the client is told of it.
pub proof fn law_start_with_uri(
    uri: Result<UpstreamUri, String>,
    target: SocketAddr,
    res: Result<Forward, PlainResponse>,
)
    requires
        call_ensures(Forward::with_uri, (uri, target), res),
    ensures
        match uri {
            Ok(uri) => res matches Ok(forward) && forward.uri == uri && forward.target == target
                && forward.stage is Connecting,
            Err(error) => res matches Err(response) && response.status == 502 && response.body@
                == "invalid upstream uri: "@ + error@,
        },
{
}

/// What was done goes well: a connection leads to the handshake, the handshake to
/// the request, and the request to the answer of the server.
pub proof fn law_advance_after_success(
    forward: &mut Forward,
    outcome: Result<(), String>,
    res: ForwardStep,
)
    requires
        call_ensures(Forward::advance, (forward, outcome), res),
        outcome is Ok,
    ensures
        final(forward).uri == old(forward).uri,
        final(forward).target == old(forward).target,
        old(forward).stage is Connecting ==> res is Handshake && final(forward).stage is Handshaking,
        old(forward).stage is Handshaking ==> res is Send && final(forward).stage is Sending,
        old(forward).stage is Sending ==> res is Relay && final(forward).stage is Done,
{
}

/// What was done fails: the client is told what it was, of which server, and the
/// error, as a bad gateway, and nothing more is done.
pub proof fn law_advance_after_failure(
    forward: &mut Forward,
    outcome: Result<(), String>,
    res: ForwardStep,
)
    requires
        call_ensures(Forward::advance, (forward, outcome), res),
        outcome is Err,
        old(forward).stage !is Done,
    ensures
        final(forward).uri == old(forward).uri,
        final(forward).target == old(forward).target,
        final(forward).stage is Done,
        res matches ForwardStep::Respond(response) && response.status == 502 && response.body@ == (
        match old(forward).stage {
            ForwardStage::Connecting => "failed to connect upstream "@,
            ForwardStage::Handshaking => "failed to handshake upstream "@,
            _ => "failed to send request to upstream "@,
        }) + socket_text(old(forward).target) + ": "@ + outcome->Err_0@,
{
}

} // verus!
