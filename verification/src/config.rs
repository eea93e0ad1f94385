//! Where the settings of the service come from.
use crate::text::text_option_view;
use vstd::prelude::*;

verus! {

/// Port on which shreds arrive.
pub const DEFAULT_UDP_PORT: u16 = 18_888;

/// Port of the JSON-RPC server.
pub const DEFAULT_RPC_PORT: u16 = 12_345;

/// Port of the websocket server.
pub const DEFAULT_WS_PORT: u16 = 38_899;

/// Settings as far as one source gives them: the command line with the environment, or the
/// configuration file.
#[derive(Debug)]
pub struct Config {
    pub udp_port: Option<u16>,
    pub rpc_port: Option<u16>,
    pub ws_port: Option<u16>,
    /// File for the trace of observed transactions.
    pub trace_log_path: Option<String>,
    /// File for the log of the service.
    pub log_path: Option<String>,
}

impl Default for Config {
    /// No setting is given.
    fn default() -> (config: Config)
        ensures
            config.udp_port is None,
            config.rpc_port is None,
            config.ws_port is None,
            config.trace_log_path is None,
            config.log_path is None,
    {
        Config {
            udp_port: None,
            rpc_port: None,
            ws_port: None,
            trace_log_path: None,
            log_path: None,
        }
    }
}

/// The settings of the service.
#[derive(Debug)]
pub struct Settings {
    pub udp_port: u16,
    pub rpc_port: u16,
    pub ws_port: u16,
    pub trace_log_path: Option<String>,
    pub log_path: Option<String>,
}

/// The first that is given.
pub open spec fn first_given<T>(first: Option<T>, second: Option<T>) -> Option<T> {
    if first is Some {
        first
    } else {
        second
    }
}

/// What is given, or else a default.
pub open spec fn given_or(port: Option<u16>, default: u16) -> u16 {
    match port {
        Some(port) => port,
        None => default,
    }
}

fn choose_port(first: Option<u16>, second: Option<u16>, default: u16) -> (port: u16)
    ensures
        port == given_or(first_given(first, second), default),
{
    match first {
        Some(port) => port,
        None => match second {
            Some(port) => port,
            None => default,
        },
    }
}

fn choose_path(first: Option<String>, second: Option<String>) -> (path: Option<String>)
    ensures
        path == first_given(first, second),
{
    match first {
        Some(path) => Some(path),
        None => second,
    }
}

/// Settles the settings: what the command line or the environment gives counts before what the
/// file gives, and that before the default.
pub fn resolve(args: Config, file: Config) -> (settings: Settings)
    ensures
        settings.udp_port == given_or(
            first_given(args.udp_port, file.udp_port),
            DEFAULT_UDP_PORT,
        ),
        settings.rpc_port == given_or(
            first_given(args.rpc_port, file.rpc_port),
            DEFAULT_RPC_PORT,
        ),
        settings.ws_port == given_or(first_given(args.ws_port, file.ws_port), DEFAULT_WS_PORT),
        settings.trace_log_path == first_given(args.trace_log_path, file.trace_log_path),
        settings.log_path == first_given(args.log_path, file.log_path),
{
    Settings {
        udp_port: choose_port(args.udp_port, file.udp_port, DEFAULT_UDP_PORT),
        rpc_port: choose_port(args.rpc_port, file.rpc_port, DEFAULT_RPC_PORT),
        ws_port: choose_port(args.ws_port, file.ws_port, DEFAULT_WS_PORT),
        trace_log_path: choose_path(args.trace_log_path, file.trace_log_path),
        log_path: choose_path(args.log_path, file.log_path),
    }
}

/// The configuration file to read: the one that was asked for, or else `config.toml` where that
/// exists.
pub fn config_file(asked_for: Option<String>, default_exists: bool) -> (path: Option<String>)
    ensures
        text_option_view(path) == if asked_for is Some {
            text_option_view(asked_for)
        } else if default_exists {
            Some("config.toml"@)
        } else {
            None
        },
{
    match asked_for {
        Some(path) => Some(path),
        None => if default_exists {
            Some("config.toml".to_owned())
        } else {
            None
        },
    }
}

/// A setting is taken from the command line or the environment where they give it, else from the
/// file where that does, and else it is the default; a path has none.
pub proof fn the_closest_source_counts(args: Config, file: Config, settings: Settings)
    requires
        call_ensures(resolve, (args, file), settings),
    ensures
        ({
            let port = |given: Option<u16>, filed: Option<u16>, default: u16|
                if given is Some {
                    given->0
                } else if filed is Some {
                    filed->0
                } else {
                    default
                };
            &&& settings.udp_port == port(args.udp_port, file.udp_port, 18_888)
            &&& settings.rpc_port == port(args.rpc_port, file.rpc_port, 12_345)
            &&& settings.ws_port == port(args.ws_port, file.ws_port, 38_899)
        }),
        args.trace_log_path is Some ==> settings.trace_log_path == args.trace_log_path,
        args.trace_log_path is None ==> settings.trace_log_path == file.trace_log_path,
        args.log_path is Some ==> settings.log_path == args.log_path,
        args.log_path is None ==> settings.log_path == file.log_path,
{
}

/// The file that was asked for is read, whatever others there are; else the default one, where it
/// exists.
pub proof fn the_file_asked_for_is_read(
    asked_for: Option<String>,
    default_exists: bool,
    path: Option<String>,
)
    requires
        call_ensures(config_file, (asked_for, default_exists), path),
    ensures
        asked_for is Some ==> path is Some && path->0@ == asked_for->0@,
        asked_for is None && default_exists ==> path is Some && path->0@ == "config.toml"@,
        asked_for is None && !default_exists ==> path is None,
{
}

} // verus!
