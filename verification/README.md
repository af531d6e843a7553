# listen-proxy

A small reverse proxy. It reads `proxy-config.toml`, listens on the addresses of
its HTTP and stream servers, and forwards HTTP requests to groups of upstream
servers.

`src/` is the library: what the proxy decides, with contracts that Verus proves.
Under `round_robin` the contracts say that a request draws a number from the
counter of its group and gets the server for that number; the value of the counter
itself is not part of them.

- `config`: the written configuration, its check, and the configuration that
  requests are served by.
- `proxy`: the location that answers a request (an exact path, else the first
  regular expression that matches, else the longest prefix), and what is done
  with the request there.
- `upstream`: the choice of a server (`round_robin`, `least_conn`, `ip_hash`).
- `forward`: the headers of a forwarded request, and the steps from the connection
  to the answer.
- `names`, `text`, `addr`: named values, comparisons of texts, addresses.
- `headers`, `pattern`, `uri`: what the library takes on trust of `http` and
  `regex`; `upstream` does so of `ahash`, and `addr` of the texts of addresses.
- `laws`: what holds of the proxy as a whole. The laws on the choice of a server
  stand in `upstream`.

`app/` is the program around it: the sockets, the configuration file, and the log.

## Configuration

```toml
worker_processes = 4
error_log = "error.log"

[upstreams.backend_api]
servers = ["127.0.0.1:8081"]
load_balancing = "round_robin"

[http]
include_mimes = true

[[http.servers]]
listen = "127.0.0.1:3000"
server_name = "www.example.com"

[http.servers.proxy_set_header]
X-Real-IP = "$remote_addr"
Host = "$host"

[[http.servers.locations]]
path = "/api/v1"
match_type = "prefix"
action = { type = "Proxy", value = "backend_api" }

[stream]
servers = []
```

In `proxy_set_header`, `$host` stands for the host that the client asked for and
`$remote_addr` for the client's address. Without a `Host` there, the upstream
server sees its own address as the host. A header of a location overrides the one
of its server that is written with the same name. Names are compared as written:
if two differ in case only, both are set, that of the location last.
