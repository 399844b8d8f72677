//! Configuration: its model, its Nginx-like file format, and what is laid over it.

pub mod grammar;
pub mod internal;
pub mod listeners;
pub mod nginx;
pub mod properties;

use crate::config::internal::{Config, ConfigV, ProxyConfig, ProxyV};
use crate::path;
use crate::views;
use vstd::prelude::*;

verus! {

/// What the command line says.
#[derive(Debug)]
pub struct Cli {
    pub validate_configs: bool,
    pub threads_per_service: Option<usize>,
    pub config_toml: Option<String>,
    pub config_kdl: Option<String>,
    pub config_nginx: Option<String>,
    pub daemonize: bool,
    pub upgrade: bool,
    pub pidfile: Option<String>,
    pub upgrade_socket: Option<String>,
}

/// Where a configuration comes from.
#[derive(Clone, Copy, Debug, PartialEq, Eq, Structural)]
pub enum ConfigSource {
    Toml,
    Kdl,
    Nginx,
    /// No file is given.
    Defaults,
}

/// Two paths are given, and they are not the same.
pub open spec fn mismatched(a: Option<String>, b: Option<Seq<char>>) -> bool {
    match (a, b) {
        (Some(x), Some(y)) => !path::same_path(x@, y),
        _ => false,
    }
}

/// The command line contradicts a configuration.
pub open spec fn contradicts(cli: Cli, c: ConfigV) -> bool {
    mismatched(cli.pidfile, c.pid_file) || mismatched(cli.upgrade_socket, c.upgrade_socket)
}

/// What the command line gives, or else what is there.
pub open spec fn given_or(a: Option<String>, b: Option<Seq<char>>) -> Option<Seq<char>> {
    match a {
        Some(x) => Some(x@),
        None => b,
    }
}

/// A configuration with the command line laid over it.
pub open spec fn with_cli(c: ConfigV, cli: Cli) -> ConfigV {
    ConfigV {
        validate_configs: c.validate_configs || cli.validate_configs,
        daemonize: c.daemonize || cli.daemonize,
        upgrade: c.upgrade || cli.upgrade,
        pid_file: given_or(cli.pidfile, c.pid_file),
        upgrade_socket: given_or(cli.upgrade_socket, c.upgrade_socket),
        threads_per_service: match cli.threads_per_service {
            Some(n) => n,
            None => c.threads_per_service,
        },
        ..c
    }
}

/// What keeps the command line from being laid over a configuration.
#[derive(Clone, Copy, Debug, PartialEq, Eq, Structural)]
pub enum Contradiction {
    PidFile,
    UpgradeSocket,
}

/// Whether two paths are given that are not the same.
fn is_mismatched(a: &Option<String>, b: &Option<String>) -> (r: bool)
    ensures
        r == mismatched(*a, views::opt_view(*b)),
{
    match (a, b) {
        (Some(x), Some(y)) => !path::path_eq(x.as_str(), y.as_str()),
        _ => false,
    }
}

/// The first thing in which the command line contradicts a configuration.
pub open spec fn contradiction(cli: Cli, c: ConfigV) -> Option<Contradiction> {
    if mismatched(cli.pidfile, c.pid_file) {
        Some(Contradiction::PidFile)
    } else if mismatched(cli.upgrade_socket, c.upgrade_socket) {
        Some(Contradiction::UpgradeSocket)
    } else {
        None
    }
}

/// The first thing in which the command line contradicts a configuration.
pub fn find_contradiction(conf: &Config, cli: &Cli) -> (r: Option<Contradiction>)
    ensures
        r == contradiction(*cli, conf@),
        r is None <==> !contradicts(*cli, conf@),
{
    if is_mismatched(&cli.pidfile, &conf.pid_file) {
        Some(Contradiction::PidFile)
    } else if is_mismatched(&cli.upgrade_socket, &conf.upgrade_socket) {
        Some(Contradiction::UpgradeSocket)
    } else {
        None
    }
}

/// Lays the command line over a configuration that it does not contradict.
pub fn apply_cli(conf: &mut Config, cli: &Cli)
    requires
        !contradicts(*cli, old(conf)@),
    ensures
        final(conf)@ == with_cli(old(conf)@, *cli),
        final(conf).logging == old(conf).logging,
{
    conf.validate_configs = conf.validate_configs || cli.validate_configs;
    conf.daemonize = conf.daemonize || cli.daemonize;
    conf.upgrade = conf.upgrade || cli.upgrade;
    if let Some(pidfile) = &cli.pidfile {
        conf.pid_file = Some(pidfile.clone());
    }
    if let Some(upgrade_socket) = &cli.upgrade_socket {
        conf.upgrade_socket = Some(upgrade_socket.clone());
    }
    if let Some(tps) = cli.threads_per_service {
        conf.threads_per_service = tps;
    }
}

/// What a TOML file says.
pub struct Toml {
    pub threads_per_service: usize,
    pub basic_proxy: Vec<ProxyConfig>,
}

/// A configuration with a TOML file laid over it.
pub open spec fn with_toml(c: ConfigV, threads: usize, proxies: Seq<ProxyV>) -> ConfigV {
    ConfigV { basic_proxies: proxies, threads_per_service: threads, ..c }
}

/// Lays a TOML file over a configuration that has no proxies yet.
pub fn apply_toml(conf: &mut Config, toml: Toml)
    requires
        old(conf).basic_proxies@.len() == 0,
    ensures
        final(conf)@ == with_toml(
            old(conf)@,
            toml.threads_per_service,
            views::views(toml.basic_proxy@),
        ),
        final(conf).logging == old(conf).logging,
{
    conf.basic_proxies = toml.basic_proxy;
    conf.threads_per_service = toml.threads_per_service;
}

/// Where the configuration comes from, given which files the command line names.
pub open spec fn source_of(toml: bool, kdl: bool, nginx: bool) -> Result<ConfigSource, Seq<char>> {
    match (toml, kdl, nginx) {
        (true, false, false) => Ok(ConfigSource::Toml),
        (false, true, false) => Ok(ConfigSource::Kdl),
        (false, false, true) => Ok(ConfigSource::Nginx),
        (false, false, false) => Ok(ConfigSource::Defaults),
        _ => Err("Too many configuration options selected!"@),
    }
}

/// Where the configuration comes from, given which files the command line names: from one at most.
pub fn choose_source(cli: &Cli) -> (r: Result<ConfigSource, &'static str>)
    ensures
        match source_of(cli.config_toml is Some, cli.config_kdl is Some, cli.config_nginx is Some) {
            Ok(s) => r == Ok::<ConfigSource, &'static str>(s),
            Err(e) => r matches Err(x) && x@ == e,
        },
{
    match (&cli.config_toml, &cli.config_kdl, &cli.config_nginx) {
        (Some(_), None, None) => Ok(ConfigSource::Toml),
        (None, Some(_), None) => Ok(ConfigSource::Kdl),
        (None, None, Some(_)) => Ok(ConfigSource::Nginx),
        (None, None, None) => Ok(ConfigSource::Defaults),
        _ => Err("Too many configuration options selected!"),
    }
}

/// The command line has priority over a configuration file: what it gives holds, and what it does
/// not give is as the file says. A switch that is on in either is on.
pub proof fn law_command_line_has_priority(c: ConfigV, cli: Cli)
    ensures
        cli.threads_per_service matches Some(n) ==> with_cli(c, cli).threads_per_service == n,
        cli.threads_per_service is None ==> with_cli(c, cli).threads_per_service
            == c.threads_per_service,
        cli.pidfile matches Some(p) ==> with_cli(c, cli).pid_file == Some(p@),
        cli.pidfile is None ==> with_cli(c, cli).pid_file == c.pid_file,
        cli.upgrade_socket matches Some(p) ==> with_cli(c, cli).upgrade_socket == Some(p@),
        cli.upgrade_socket is None ==> with_cli(c, cli).upgrade_socket == c.upgrade_socket,
        with_cli(c, cli).daemonize == (c.daemonize || cli.daemonize),
        with_cli(c, cli).upgrade == (c.upgrade || cli.upgrade),
        with_cli(c, cli).validate_configs == (c.validate_configs || cli.validate_configs),
        with_cli(c, cli).basic_proxies == c.basic_proxies,
        with_cli(c, cli).file_servers == c.file_servers,
{
}

/// Laying the command line over a configuration twice is laying it over once, and it does not
/// contradict what it has been laid over.
pub proof fn law_command_line_is_idempotent(c: ConfigV, cli: Cli)
    ensures
        !contradicts(cli, with_cli(c, cli)),
        with_cli(with_cli(c, cli), cli) == with_cli(c, cli),
{
}

} // verus!
