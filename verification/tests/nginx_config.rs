use stryvo::config::internal::{
    Config, ListenerKind, RequestSelector, SelectionKind, Settings, ALPN,
};
use stryvo::config::nginx::{Nginx, NginxParseError};
use stryvo::proxy::rate_limiting::{
    AllRateConfig, MultiRequestKeyKind, RefillInterval, SingleRequestKeyKind,
};

fn parse(text: &str) -> Config {
    Config::from(Nginx::from_string(text).unwrap())
}

fn fails(text: &str) -> NginxParseError {
    match Nginx::from_string(text) {
        Ok(_) => panic!("the text was accepted"),
        Err(e) => e,
    }
}

/// A text with one server that holds the given lines.
fn server(lines: &str) -> String {
    format!("http {{\nserver {{\nlisten 0.0.0.0:80\n{}\n}}\n}}\n", lines)
}

/// A text with one server that has a backend and a location with the given lines.
fn location(lines: &str) -> String {
    server(&format!(
        "upstream b {{ server 1.2.3.4:80; }}\nlocation / {{\n{}\n}}",
        lines
    ))
}

fn value(s: &Settings, key: &str) -> Option<String> {
    s.get(key).cloned()
}

#[test]
fn test_basic_config() {
    let config = r#"
            system {
                threads_per_service 8;
                daemonize false;
                pid_file "/tmp/stryvo.pidfile";
            }
            http {
                server {
                    server_name Example1;
                    listen 0.0.0.0:8080;
                    upstream backend {
                        server 91.107.223.4:80;
                    }
                    location / {
                        proxy_pass backend;
                    }
                }
            }
        "#;
    let nginx = Nginx::from_string(config).unwrap();
    let config = Config::from(nginx);
    assert_eq!(config.threads_per_service, 8);
    assert_eq!(config.daemonize, false);
    assert_eq!(config.pid_file, Some("/tmp/stryvo.pidfile".to_string()));
    assert_eq!(config.basic_proxies.len(), 1);
}

#[test]
fn test_missing_brace() {
    let config = r#"
            system
                threads_per_service 8;
            }
        "#;
    let result = Nginx::from_string(config);
    assert!(result.is_err());
    if let Err(e) = result {
        assert_eq!(e.line, 2);
        assert!(e.message.contains("Expected '{'"));
    }
}

#[test]
fn test_invalid_value() {
    let config = r#"
            system {
                threads_per_service invalid;
            }
        "#;
    let result = Nginx::from_string(config);
    assert!(result.is_err());
    if let Err(e) = result {
        assert_eq!(e.line, 3);
        assert!(e.message.contains("Invalid value"));
    }
}

#[test]
fn test_rate_limiting() {
    let config = r#"
            http {
                server {
                    listen 0.0.0.0:8080;
                    upstream backend { server 1.2.3.4:80; }
                    location / {
                        proxy_pass backend;
                        limit_req zone=ip burst=10 rate=100r/s;
                        limit_req zone=any_mp4 burst=50 rate=666r/s;
                    }
                }
            }
        "#;
    let nginx = Nginx::from_string(config).unwrap();
    let config = Config::from(nginx);
    assert_eq!(config.basic_proxies[0].rate_limiting.rules.len(), 2);
}

#[test]
fn test_upstream_random() {
    let config = r#"
            upstream backend_simple {
                server 91.107.223.4:80;
                random;
            }
            http {
                server {
                    server_name Example2;
                    listen 0.0.0.0:8000;
                    location / {
                        proxy_pass backend_simple;
                    }
                }
            }
        "#;
    let nginx = Nginx::from_string(config).unwrap();
    let config = Config::from(nginx);
    assert_eq!(config.basic_proxies.len(), 1);
    assert_eq!(
        config.basic_proxies[0].upstream_options.selection,
        SelectionKind::Random
    );
}

#[test]
fn test_cache_config() {
    let config = r#"
            http {
                server {
                    server_name CacheExample;
                    listen 0.0.0.0:8080;
                    upstream backend {
                        server 91.107.223.4:80;
                    }
                    cache {
                        cache_enabled true;
                        cache_ttl 7200;
                        browser_cache_enabled true;
                        browser_cache_ttl 3600;
                        cache_dir "/var/cache/stryvo";
                        max_file_size 1048576;
                        shard_count 16;
                    }
                    location / {
                        proxy_pass backend;
                    }
                }
            }
        "#;
    let nginx = Nginx::from_string(config).unwrap();
    let config = Config::from(nginx);
    assert_eq!(config.basic_proxies.len(), 1);
    let proxy = &config.basic_proxies[0];
    assert_eq!(proxy.name, "CacheExample");
    assert_eq!(proxy.cache_enabled, true);
    assert_eq!(proxy.cache_ttl, 7200);
    assert_eq!(proxy.browser_cache_enabled, true);
    assert_eq!(proxy.browser_cache_ttl, 3600);
    assert_eq!(proxy.cache_dir, Some("/var/cache/stryvo".to_string()));
    assert_eq!(proxy.max_file_size, Some(1048576));
    assert_eq!(proxy.shard_count, Some(16));
}

#[test]
fn empty_text_gives_the_defaults() {
    let c = parse("");
    assert_eq!(c.threads_per_service, 8);
    assert!(!c.daemonize && !c.upgrade && !c.validate_configs);
    assert_eq!(c.pid_file, None);
    assert_eq!(c.upgrade_socket, None);
    assert_eq!(c.basic_proxies.len(), 0);
    assert_eq!(c.file_servers.len(), 0);
    assert!(!c.logging.enabled);
}

#[test]
fn system_block_sets_everything() {
    let c = parse(
        "system {\nthreads_per_service +3;\ndaemonize true;\npid_file \"a b\";\nupgrade_socket \"/run/s\";;\n}",
    );
    assert_eq!(c.threads_per_service, 3);
    assert!(c.daemonize);
    assert_eq!(c.pid_file, Some("a".to_string()));
    assert_eq!(c.upgrade_socket, Some("/run/s".to_string()));
}

#[test]
fn server_defaults() {
    let c = parse(&server("upstream b {\nserver a:1\n}"));
    let p = &c.basic_proxies[0];
    assert_eq!(p.name, "Server0");
    assert!(!p.cache_enabled);
    assert_eq!(p.cache_ttl, 300);
    assert!(!p.browser_cache_enabled);
    assert_eq!(p.browser_cache_ttl, 3600);
    assert_eq!(p.cache_dir, None);
    assert_eq!(p.max_file_size, None);
    assert_eq!(p.shard_count, None);
    assert_eq!(p.upstream_options.selection, SelectionKind::RoundRobin);
    assert_eq!(p.upstream_options.selector, RequestSelector::Null);
    assert_eq!(p.upstreams[0].address, "a:1");
    assert!(!p.upstreams[0].tls);
}

#[test]
fn unnamed_servers_are_numbered() {
    let text = "http {\nserver {\nlisten a\nroot \"/w\"\n}\nserver {\nlisten b\nproxy_pass http://x\n}\nserver {\nlisten c\nroot /v\n}\n}";
    let c = parse(text);
    assert_eq!(c.file_servers[0].name, "Server0");
    assert_eq!(c.basic_proxies[0].name, "Server1");
    assert_eq!(c.file_servers[1].name, "Server2");
    assert_eq!(c.file_servers[0].base_path, Some("/w".to_string()));
    assert_eq!(c.file_servers[1].base_path, Some("/v".to_string()));
    assert_eq!(c.basic_proxies[0].upstreams.len(), 0);
}

#[test]
fn listeners_with_encryption() {
    let c = parse(&server(
        "listen 1.1.1.1:443 ssl cert=\"c.pem\" key=k.pem http2\nupstream b { server a:1 }",
    ));
    let l = &c.basic_proxies[0].listeners;
    assert_eq!(l.len(), 2);
    match &l[1].source {
        ListenerKind::Tcp { addr, tls, offer_h2 } => {
            assert_eq!(addr, "1.1.1.1:443");
            assert!(*offer_h2);
            let t = tls.as_ref().unwrap();
            assert_eq!(t.cert_path, "c.pem");
            assert_eq!(t.key_path, "k.pem");
        }
        ListenerKind::Uds(_) => panic!("not a socket in the file system"),
    }
    match &l[0].source {
        ListenerKind::Tcp { tls, offer_h2, .. } => {
            assert!(tls.is_none());
            assert!(!*offer_h2);
        }
        ListenerKind::Uds(_) => panic!("not a socket in the file system"),
    }
}

#[test]
fn backends_with_encryption() {
    let c = parse(&server(
        "upstream b {\nserver a:1 tls_sni=\"x.org\" proto=h2-or-h1\nserver b:2 tls_sni=y proto=h2-only\nserver c:3 tls_sni=z\nserver d:4 proto=h2-only\n}",
    ));
    let u = &c.basic_proxies[0].upstreams;
    assert_eq!(u[0].sni, "x.org");
    assert!(u[0].tls);
    assert_eq!(u[0].alpn, ALPN::H2H1);
    assert_eq!(u[1].alpn, ALPN::H2);
    assert_eq!(u[2].alpn, ALPN::H1);
    assert!(!u[3].tls);
    assert_eq!(u[3].alpn, ALPN::H1);
    assert_eq!(u[3].sni, "");
}

#[test]
fn balancing_directives() {
    let sel = |line: &str| {
        let c = parse(&server(&format!("upstream b {{\nserver a:1\n{}\n}}", line)));
        c.basic_proxies[0].upstream_options
    };
    assert_eq!(sel("hash").selection, SelectionKind::Ketama);
    assert_eq!(sel("hash consistent").selector, RequestSelector::UriPath);
    assert_eq!(sel("ip_hash").selection, SelectionKind::Ketama);
    assert_eq!(
        sel("ip_hash").selector,
        RequestSelector::SourceAddrAndUriPath
    );
    assert_eq!(sel("least_conn").selection, SelectionKind::RoundRobin);
    assert_eq!(sel("random").selection, SelectionKind::Random);
    assert_eq!(sel("health_check none").selection, SelectionKind::RoundRobin);
}

#[test]
fn named_group_on_server_level() {
    let text = "upstream g {\nserver a:1\nserver b:2\nip_hash\n}\nhttp {\nserver {\nlisten x\nproxy_pass g\n}\n}";
    let c = parse(text);
    assert_eq!(c.basic_proxies[0].upstreams.len(), 2);
    assert_eq!(
        c.basic_proxies[0].upstream_options.selection,
        SelectionKind::Ketama
    );
}

#[test]
fn location_filters() {
    let c = parse(&location(
        "deny 10.0.0.0/8\nproxy_set_header X-A \"v\"\nadd_header X-B \"w\"\nproxy_hide_header secret\nhide_header etag\nproxy_pass b",
    ));
    let p = &c.basic_proxies[0].path_control;
    assert_eq!(p.request_filters.len(), 1);
    assert_eq!(value(&p.request_filters[0], "kind"), Some("block-cidr-range".to_string()));
    assert_eq!(value(&p.request_filters[0], "addrs"), Some("10.0.0.0/8".to_string()));
    // the filter that only names where requests go is gone
    assert_eq!(p.upstream_request_filters.len(), 2);
    assert_eq!(value(&p.upstream_request_filters[0], "kind"), Some("upsert-header".to_string()));
    assert_eq!(value(&p.upstream_request_filters[0], "key"), Some("X-A".to_string()));
    assert_eq!(value(&p.upstream_request_filters[0], "value"), Some("v".to_string()));
    assert_eq!(
        value(&p.upstream_request_filters[1], "kind"),
        Some("remove-header-key-regex".to_string())
    );
    assert_eq!(value(&p.upstream_request_filters[1], "pattern"), Some("secret".to_string()));
    assert_eq!(p.upstream_response_filters.len(), 2);
    assert_eq!(value(&p.upstream_response_filters[0], "key"), Some("X-B".to_string()));
    assert_eq!(value(&p.upstream_response_filters[1], "pattern"), Some("etag".to_string()));
}

#[test]
fn rate_rules_in_detail() {
    let c = parse(&location(
        "limit_req zone=ip\nlimit_req zone=\"static/.*\" burst=7 rate=2.5r/s\nlimit_req zone=any_mp4 rate=30r/m burst=4\nlimit_req zone=ip rate=5",
    ));
    let r = &c.basic_proxies[0].rate_limiting.rules;
    assert_eq!(r.len(), 4);
    match &r[0] {
        AllRateConfig::Multi { kind, config } => {
            assert!(matches!(kind, MultiRequestKeyKind::SourceIp));
            assert_eq!(config.threads, 4);
            assert_eq!(config.max_buckets, 4000);
            assert_eq!(config.max_tokens_per_bucket, 10);
            assert_eq!(config.refill_qty, 1);
            assert!(matches!(config.refill_interval, RefillInterval::Millis(10)));
        }
        AllRateConfig::Single { .. } => panic!("one bucket"),
    }
    match &r[1] {
        AllRateConfig::Multi { kind, config } => {
            assert!(matches!(kind, MultiRequestKeyKind::Uri { .. }));
            assert_eq!(config.max_tokens_per_bucket, 7);
            match &config.refill_interval {
                RefillInterval::PerSecond(n) => assert_eq!(n, "2.5"),
                _ => panic!("per second"),
            }
        }
        AllRateConfig::Single { .. } => panic!("one bucket"),
    }
    match &r[2] {
        AllRateConfig::Single { kind, config } => {
            assert!(matches!(kind, SingleRequestKeyKind::UriGroup { .. }));
            assert_eq!(config.max_tokens_per_bucket, 4);
            match &config.refill_interval {
                RefillInterval::PerMinute(n) => assert_eq!(n, "30"),
                _ => panic!("per minute"),
            }
        }
        AllRateConfig::Multi { .. } => panic!("many buckets"),
    }
    match &r[3] {
        AllRateConfig::Multi { config, .. } => {
            assert!(matches!(config.refill_interval, RefillInterval::Millis(10)));
        }
        AllRateConfig::Single { .. } => panic!("one bucket"),
    }
}

#[test]
fn rate_literals_are_those_of_floating_point_numbers() {
    for literal in [
        "1", "1.", ".5", "1.5", "1e3", "1E-3", "+2", "-2", "inf", "NaN", "Infinity", "-.5e+1", "",
        ".", "e3", "1e", "1e+", "1.2.3", "0x10", "1_0", "in", "+", "--1", "1 ", "٣", "infinit",
    ] {
        let expected = literal.parse::<f64>().is_ok();
        let text = location(&format!("limit_req zone=ip rate={}r/s", literal));
        // a blank inside the literal would end the word
        if !literal.contains(' ') {
            assert_eq!(Nginx::from_string(&text).is_ok(), expected, "{:?}", literal);
        }
    }
}

#[test]
fn faults_are_reported_with_message_and_line() {
    let cases: Vec<(String, &str, usize)> = vec![
        ("system {\nfoo 1\n}".to_string(), "Unknown system directive", 2),
        ("system {\ndaemonize\n}".to_string(), "Missing value for daemonize", 2),
        ("system {\ndaemonize 1\n}".to_string(), "Invalid value for daemonize", 2),
        ("http\n".to_string(), "Expected '{'", 1),
        ("upstream\n".to_string(), "Invalid upstream directive: missing name", 1),
        ("upstream g\n".to_string(), "Expected '{'", 1),
        ("upstream g {\nfoo\n}".to_string(), "Unknown upstream directive: foo", 2),
        ("upstream g {\n;\n}".to_string(), "Empty directive in upstream block", 2),
        ("upstream g {\nserver\n}".to_string(), "Invalid server directive in upstream", 2),
        (
            "upstream g {\nserver a tls_sni=b proto=h3\n}".to_string(),
            "Invalid proto value",
            2,
        ),
        ("http {\nserver\n}".to_string(), "Expected '{'", 2),
        (server("foo"), "Unknown server directive", 4),
        (server("server_name"), "Missing value for server_name", 4),
        (server("listen"), "Invalid listen directive", 4),
        (server("listen a ssl cert=x"), "SSL requires both cert and key", 4),
        (server("upstream b { foo a; }"), "Invalid single-line upstream directive", 4),
        (server("upstream b"), "Expected '{'", 4),
        (server("proxy_pass nowhere"), "Unknown upstream reference", 4),
        (server("location {\nfoo"), "Unknown location directive", 5),
        (server("location"), "Invalid location directive", 4),
        (server("cache"), "Expected '{'", 4),
        (server("cache {\n;\n}"), "Empty directive in cache block", 5),
        (server("cache {\nfoo\n}"), "Unknown cache directive", 5),
        (server("cache {\ncache_ttl -1\n}"), "cache_ttl must be non-negative", 5),
        (server("cache {\nbrowser_cache_ttl -1\n}"), "browser_cache_ttl must be non-negative", 5),
        (server("cache {\nmax_file_size -1\n}"), "max_file_size must be non-negative", 5),
        (server("cache {\nshard_count 0\n}"), "shard_count must be positive", 5),
        (location("foo"), "Unknown location directive", 6),
        (location("add_header a"), "Missing value for add_header value", 6),
        (location("limit_req burst=1"), "Invalid or missing zone in limit_req", 6),
        (location("limit_req zone=ip burst=x"), "Invalid burst value", 6),
        (location("limit_req zone=ip rate=xr/s"), "Invalid rate value", 6),
        (
            "http {\nserver {\nupstream b { server a }\n}\n}".to_string(),
            "Server must have at least one listener",
            4,
        ),
        (server(""), "Proxy server must have at least one upstream", 4),
    ];
    for (text, message, line) in cases {
        let e = fails(&text);
        assert_eq!(e.message, message, "{}", text);
        assert_eq!(e.line, line, "{}", text);
        assert_eq!(e.source_code, text);
    }
}

#[test]
fn regular_expressions_that_do_not_compile() {
    let e = fails(&location("limit_req zone=any_("));
    let expected = format!("Invalid regex: {}", regex::Regex::new("(").unwrap_err());
    assert_eq!(e.message, expected);
    let e = fails(&location("limit_req zone=[a"));
    let expected = format!("Invalid regex: {}", regex::Regex::new("[a").unwrap_err());
    assert_eq!(e.message, expected);
}

#[test]
fn spans_count_bytes() {
    let text = "# ä\nsystem {\n  foo bar;\n}";
    let e = fails(text);
    // the comment line takes five bytes with its end, the next line nine
    assert_eq!(e.span.offset, 14);
    assert_eq!(e.span.len, 7);
    assert_eq!(e.to_text(), "Nginx configuration error at line 3: Unknown system directive");
    let e = fails("system\n");
    assert_eq!(e.span.offset, 5);
    assert_eq!(e.span.len, 1);
}

#[test]
fn comments_and_blank_lines_change_nothing() {
    let plain = "system {\nthreads_per_service 5\n}\nhttp {\nserver {\nlisten a\nroot /w\n}\n}";
    let noisy = "# head\n\n  system { # open\n\r\n threads_per_service 5; # five\n } \n\nhttp {\n\tserver {\n listen a;;\n#\n root /w\n}\n}\n# end";
    let a = parse(plain);
    let b = parse(noisy);
    assert_eq!(a.threads_per_service, b.threads_per_service);
    assert_eq!(a.file_servers.len(), b.file_servers.len());
    assert_eq!(a.file_servers[0].name, b.file_servers[0].name);
    assert_eq!(a.file_servers[0].base_path, b.file_servers[0].base_path);
    let x = fails("system {\nfoo\n}");
    let y = fails("# c\n\nsystem { # d\n foo;\n}");
    assert_eq!(x.message, y.message);
    assert_eq!(y.line, 4);
}

#[test]
fn directives_without_words_are_told_apart() {
    assert!(Nginx::from_string_checked("system {\n;\n}").is_none());
    assert!(Nginx::from_string_checked(&server(";;")).is_none());
    assert!(Nginx::from_string_checked(&location(";")).is_none());
    assert!(matches!(Nginx::from_string_checked(";\n"), Some(Ok(_))));
    assert!(matches!(Nginx::from_string_checked("http {\n;\n}"), Some(Ok(_))));
    assert!(matches!(Nginx::from_string_checked("system\n"), Some(Err(_))));
}

#[test]
fn unreadable_files_have_an_error() {
    let e = NginxParseError::unreadable("no such file");
    assert_eq!(e.message, "IO error: no such file");
    assert_eq!(e.line, 0);
    assert_eq!(e.source_code, "");
    assert_eq!((e.span.offset, e.span.len), (0, 0));
}

#[test]
fn blocks_may_end_with_the_text() {
    let c = parse("system {\nthreads_per_service 2");
    assert_eq!(c.threads_per_service, 2);
    let c = parse("http {\nserver {\nlisten a\nroot b");
    assert_eq!(c.file_servers.len(), 1);
}
