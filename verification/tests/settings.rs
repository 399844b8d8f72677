use stryvo::clock::{deserialize_instant, serialize_instant, Instant};
use stryvo::config::internal::{Config, ListenerConfig, ListenerKind, TlsConfig, UpstreamOptions};
use stryvo::config::listeners::{listener_action, ListenerAction};
use stryvo::config::nginx::Nginx;
use stryvo::config::{
    apply_cli, apply_toml, choose_source, find_contradiction, Cli, ConfigSource, Contradiction,
    Toml,
};
use stryvo::logging::{Level, LogBuffer, LogEntry, LoggingConfig};

fn empty_cli() -> Cli {
    Cli {
        validate_configs: false,
        threads_per_service: None,
        config_toml: None,
        config_kdl: None,
        config_nginx: None,
        daemonize: false,
        upgrade: false,
        pidfile: None,
        upgrade_socket: None,
    }
}

#[test]
fn command_line_has_priority() {
    let mut c = Config::default();
    c.threads_per_service = 3;
    c.daemonize = true;
    c.pid_file = Some("/run/p".to_string());
    let mut cli = empty_cli();
    assert_eq!(find_contradiction(&c, &cli), None);
    apply_cli(&mut c, &cli);
    assert_eq!(c.threads_per_service, 3);
    assert!(c.daemonize);
    assert_eq!(c.pid_file, Some("/run/p".to_string()));

    cli.threads_per_service = Some(16);
    cli.upgrade = true;
    cli.validate_configs = true;
    cli.pidfile = Some("/run//p".to_string());
    cli.upgrade_socket = Some("/run/s".to_string());
    assert_eq!(find_contradiction(&c, &cli), None);
    apply_cli(&mut c, &cli);
    assert_eq!(c.threads_per_service, 16);
    assert!(c.daemonize && c.upgrade && c.validate_configs);
    assert_eq!(c.pid_file, Some("/run//p".to_string()));
    assert_eq!(c.upgrade_socket, Some("/run/s".to_string()));

    // once more changes nothing
    assert_eq!(find_contradiction(&c, &cli), None);
    apply_cli(&mut c, &cli);
    assert_eq!(c.threads_per_service, 16);
    assert_eq!(c.pid_file, Some("/run//p".to_string()));
}

#[test]
fn contradictions_are_found() {
    let mut c = Config::default();
    c.pid_file = Some("/run/p".to_string());
    c.upgrade_socket = Some("/run/s".to_string());
    let mut cli = empty_cli();
    cli.upgrade_socket = Some("/run/t".to_string());
    assert_eq!(find_contradiction(&c, &cli), Some(Contradiction::UpgradeSocket));
    cli.pidfile = Some("/run/q".to_string());
    assert_eq!(find_contradiction(&c, &cli), Some(Contradiction::PidFile));
    c.pid_file = None;
    assert_eq!(find_contradiction(&c, &cli), Some(Contradiction::UpgradeSocket));
    c.upgrade_socket = None;
    assert_eq!(find_contradiction(&c, &cli), None);
}

#[test]
fn one_configuration_file_at_most() {
    let mut cli = empty_cli();
    assert_eq!(choose_source(&cli), Ok(ConfigSource::Defaults));
    cli.config_toml = Some("a".to_string());
    assert_eq!(choose_source(&cli), Ok(ConfigSource::Toml));
    cli.config_kdl = Some("b".to_string());
    assert_eq!(choose_source(&cli), Err("Too many configuration options selected!"));
    cli.config_toml = None;
    assert_eq!(choose_source(&cli), Ok(ConfigSource::Kdl));
    cli.config_kdl = None;
    cli.config_nginx = Some("c".to_string());
    assert_eq!(choose_source(&cli), Ok(ConfigSource::Nginx));
}

#[test]
fn toml_sets_proxies_and_threads() {
    let text = "http {\nserver {\nserver_name a\nlisten x\nproxy_pass http://y\n}\n}";
    let proxies = Config::from(Nginx::from_string(text).unwrap()).basic_proxies;
    let mut c = Config::default();
    apply_toml(&mut c, Toml { threads_per_service: 2, basic_proxy: proxies });
    assert_eq!(c.threads_per_service, 2);
    assert_eq!(c.basic_proxies.len(), 1);
    assert_eq!(c.basic_proxies[0].name, "a");
}

#[test]
fn listeners_are_opened() {
    let tcp = |tls: bool, offer_h2: bool| ListenerConfig {
        source: ListenerKind::Tcp {
            addr: "1.2.3.4:5".to_string(),
            tls: if tls {
                Some(TlsConfig { cert_path: "c".to_string(), key_path: "k".to_string() })
            } else {
                None
            },
            offer_h2,
        },
    };
    match listener_action(tcp(true, true)) {
        Ok(ListenerAction::Tls { addr, cert_path, key_path, offer_h2 }) => {
            assert_eq!((addr.as_str(), cert_path.as_str(), key_path.as_str()), ("1.2.3.4:5", "c", "k"));
            assert!(offer_h2);
        }
        _ => panic!("encrypted"),
    }
    assert!(matches!(
        listener_action(tcp(true, false)),
        Ok(ListenerAction::Tls { offer_h2: false, .. })
    ));
    assert!(matches!(listener_action(tcp(false, false)), Ok(ListenerAction::Tcp { .. })));
    match listener_action(tcp(false, true)) {
        Err(addr) => assert_eq!(addr, "1.2.3.4:5"),
        Ok(_) => panic!("not supported"),
    }
    match listener_action(ListenerConfig { source: ListenerKind::Uds("/run/x".to_string()) }) {
        Ok(ListenerAction::Uds { path }) => assert_eq!(path, "/run/x"),
        _ => panic!("a socket in the file system"),
    }
}

#[test]
fn log_settings_at_first() {
    let c = LoggingConfig::default();
    assert_eq!(c.access_log, None);
    assert_eq!(c.error_log, None);
    assert_eq!(c.level, Level::Info);
    assert!(!c.enabled);
    let o = UpstreamOptions::default();
    assert_eq!(o, UpstreamOptions::default());
}

#[test]
fn access_log_line() {
    let e = LogEntry {
        method: "GET".to_string(),
        uri: "/a?b".to_string(),
        status: 200,
        upstream: "1.2.3.4:80".to_string(),
        elapsed_ms: 12,
        http_version: "HTTP/1.1".to_string(),
        user_agent: "curl".to_string(),
        referer: "-".to_string(),
        cache_status: "HIT".to_string(),
    };
    assert_eq!(
        e.line("2025-01-02 03:04:05.678 +0000"),
        "timestamp=2025-01-02 03:04:05.678 +0000 method=GET uri=/a?b status=200 upstream=1.2.3.4:80 elapsed_ms=12 http_version=HTTP/1.1 user_agent=curl referer=- cache=HIT"
    );
}

fn at(millis: u64) -> Instant {
    Instant { nanos: millis * 1_000_000 }
}

#[test]
fn log_lines_are_held_back_for_a_while() {
    let mut b = LogBuffer::new(at(0));
    assert_eq!(b.push("one", at(50)), None);
    assert_eq!(b.push("zwö", at(100)), None);
    assert_eq!(b.push("three", at(101)), Some("one\nzwö\nthree\n".as_bytes().to_vec()));
    assert_eq!(b.push("four", at(150)), None);
    assert_eq!(b.shutdown(), Some(b"four\n".to_vec()));
    assert_eq!(LogBuffer::new(at(0)).shutdown(), None);
}

#[test]
fn many_log_bytes_are_written_at_once() {
    let mut b = LogBuffer::new(at(0));
    let line = "x".repeat(32767);
    assert_eq!(b.push(&line, at(1)), None);
    let out = b.push("", at(1)).unwrap();
    assert_eq!(out.len(), 32769);
    assert_eq!(b.shutdown(), None);
}

#[test]
fn log_writer_loses_nothing() {
    let mut b = LogBuffer::new(at(0));
    let mut written: Vec<u8> = Vec::new();
    let mut expected = String::new();
    for i in 0..500u64 {
        let m = format!("message {}", i);
        expected.push_str(&m);
        expected.push('\n');
        if let Some(out) = b.push(&m, at(i * 7)) {
            written.extend(out);
        }
    }
    if let Some(out) = b.shutdown() {
        written.extend(out);
    }
    assert_eq!(written, expected.into_bytes());
}

#[test]
fn ages_in_whole_seconds() {
    assert_eq!(at(1000).elapsed_secs(at(2999)), 1);
    assert_eq!(at(1000).elapsed_secs(at(3000)), 2);
    assert_eq!(at(3000).elapsed_secs(at(1000)), 0);
}

#[test]
fn time_stamps() {
    let now = at(50_000);
    let epoch: u128 = 1_700_000_000_500_000_000;
    assert_eq!(serialize_instant(at(10_000), now, epoch), 1_700_000_000);
    assert_eq!(serialize_instant(at(51_000), now, epoch), 1_699_999_999);
    assert_eq!(serialize_instant(at(51_000), now, 5), 0);
    assert_eq!(
        deserialize_instant(1_700_000_000, now, epoch),
        Ok(Instant { nanos: 49_500_000_000 })
    );
    assert_eq!(deserialize_instant(1_700_000_001, now, epoch), Err("Invalid timestamp"));
}

#[test]
fn age_counts_from_storing() {
    let epoch: u128 = 1_700_000_000_250_000_000;
    let stamp = serialize_instant(at(1), at(100_000), epoch);
    let later = epoch + 7_000_000_000;
    let read = deserialize_instant(stamp, at(60_000), later).unwrap();
    assert_eq!(read.elapsed_secs(at(60_000)), 7);
}
