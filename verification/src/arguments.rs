//! The command line.

use crate::endpoint;
use crate::endpoint::{
    EncodedEndpoint, EncodedEndpointModel, Endpoint, EndpointError, EndpointModel,
};
use crate::text;
use core::num::ParseIntError;
use vstd::prelude::*;

verus! {

// ---------------------------------------------------------------------------------------------
// Switches

/// What an argument asks for.
#[derive(Clone, Copy, Debug, PartialEq, Eq, Structural)]
pub enum Switch {
    Help,
    Ip,
    Multipart,
    Name,
    Port,
    UnixSocketFile,
    UrlEncoded,
    Workers,
}

impl Switch {
    /// The long form of a switch, without the dashes before it.
    pub open spec fn long(self) -> Seq<char> {
        match self {
            Switch::Help => "help"@,
            Switch::Ip => "ip"@,
            Switch::Multipart => "multipart"@,
            Switch::Name => "name"@,
            Switch::Port => "port"@,
            Switch::UnixSocketFile => "unix-socket-file"@,
            Switch::UrlEncoded => "urlencoded"@,
            Switch::Workers => "workers"@,
        }
    }

    /// The short form of a switch, without the dash before it.
    pub open spec fn short(self) -> char {
        match self {
            Switch::Help => 'h',
            Switch::Ip => 'i',
            Switch::Multipart => 'm',
            Switch::Name => 'n',
            Switch::Port => 'p',
            Switch::UnixSocketFile => 'U',
            Switch::UrlEncoded => 'u',
            Switch::Workers => 'w',
        }
    }

    /// Whether the switch is there on a system that has Unix sockets, or has none.
    pub open spec fn available(self, unix_sockets: bool) -> bool {
        self is UnixSocketFile ==> unix_sockets
    }
}

/// The switch with the given long form.
pub open spec fn long_switch(s: Seq<char>, unix_sockets: bool) -> Option<Switch> {
    if s == "help"@ {
        Some(Switch::Help)
    } else if s == "ip"@ {
        Some(Switch::Ip)
    } else if s == "multipart"@ {
        Some(Switch::Multipart)
    } else if s == "name"@ {
        Some(Switch::Name)
    } else if s == "port"@ {
        Some(Switch::Port)
    } else if unix_sockets && s == "unix-socket-file"@ {
        Some(Switch::UnixSocketFile)
    } else if s == "urlencoded"@ {
        Some(Switch::UrlEncoded)
    } else if s == "workers"@ {
        Some(Switch::Workers)
    } else {
        None
    }
}

/// The switch with the given short form.
pub open spec fn short_switch(c: char, unix_sockets: bool) -> Option<Switch> {
    if c == 'h' {
        Some(Switch::Help)
    } else if c == 'i' {
        Some(Switch::Ip)
    } else if c == 'm' {
        Some(Switch::Multipart)
    } else if c == 'n' {
        Some(Switch::Name)
    } else if c == 'p' {
        Some(Switch::Port)
    } else if c == 'u' {
        Some(Switch::UrlEncoded)
    } else if unix_sockets && c == 'U' {
        Some(Switch::UnixSocketFile)
    } else if c == 'w' {
        Some(Switch::Workers)
    } else {
        None
    }
}

/// Why a command line is none.
#[derive(Debug)]
pub enum ArgumentError {
    /// No switch has this long form.
    UnknownLong(String),
    /// No switch has this short form.
    UnknownShort(char),
    /// An argument is neither a switch nor the value of one.
    Unknown(String),
    /// More characters stand behind the short form of a switch that takes a value.
    NotAlone,
    /// The command line ends where the value of a switch should stand.
    NoValue,
    /// A value describes no endpoint.
    Endpoint(EndpointError),
    /// The number of workers is not a number.
    Workers(ParseIntError),
}

/// The view of an `ArgumentError`.
pub enum ArgumentErrorModel {
    UnknownLong(Seq<char>),
    UnknownShort(char),
    Unknown(Seq<char>),
    NotAlone,
    NoValue,
    EndpointDelimiter,
    EndpointSize,
    Workers,
}

impl View for ArgumentError {
    type V = ArgumentErrorModel;

    open spec fn view(&self) -> ArgumentErrorModel {
        match self {
            ArgumentError::UnknownLong(s) => ArgumentErrorModel::UnknownLong(s@),
            ArgumentError::UnknownShort(c) => ArgumentErrorModel::UnknownShort(*c),
            ArgumentError::Unknown(s) => ArgumentErrorModel::Unknown(s@),
            ArgumentError::NotAlone => ArgumentErrorModel::NotAlone,
            ArgumentError::NoValue => ArgumentErrorModel::NoValue,
            ArgumentError::Endpoint(EndpointError::NoDelimiter) => {
                ArgumentErrorModel::EndpointDelimiter
            },
            ArgumentError::Endpoint(EndpointError::MaxRequestSize(_)) => {
                ArgumentErrorModel::EndpointSize
            },
            ArgumentError::Workers(_) => ArgumentErrorModel::Workers,
        }
    }
}

/// What an argument asks for. A dash alone asks for nothing. Only the switch for help may have more
/// characters behind its short form.
pub open spec fn asked_by(arg: Seq<char>, unix_sockets: bool) -> Result<
    Option<Switch>,
    ArgumentErrorModel,
> {
    if arg.len() >= 2 && arg[0] == '-' && arg[1] == '-' {
        match long_switch(arg.skip(2), unix_sockets) {
            Some(switch) => Ok(Some(switch)),
            None => Err(ArgumentErrorModel::UnknownLong(arg.skip(2))),
        }
    } else if arg.len() >= 1 && arg[0] == '-' {
        if arg.len() == 1 {
            Ok(None)
        } else {
            match short_switch(arg[1], unix_sockets) {
                Some(switch) => if switch != Switch::Help && arg.len() > 2 {
                    Err(ArgumentErrorModel::NotAlone)
                } else {
                    Ok(Some(switch))
                },
                None => Err(ArgumentErrorModel::UnknownShort(arg[1])),
            }
        }
    } else {
        Err(ArgumentErrorModel::Unknown(arg))
    }
}

fn find_long(s: &str, unix_sockets: bool) -> (switch: Option<Switch>)
    ensures
        switch == long_switch(s@, unix_sockets),
{
    if text::same(s, "help") {
        Some(Switch::Help)
    } else if text::same(s, "ip") {
        Some(Switch::Ip)
    } else if text::same(s, "multipart") {
        Some(Switch::Multipart)
    } else if text::same(s, "name") {
        Some(Switch::Name)
    } else if text::same(s, "port") {
        Some(Switch::Port)
    } else if unix_sockets && text::same(s, "unix-socket-file") {
        Some(Switch::UnixSocketFile)
    } else if text::same(s, "urlencoded") {
        Some(Switch::UrlEncoded)
    } else if text::same(s, "workers") {
        Some(Switch::Workers)
    } else {
        None
    }
}

fn find_short(c: char, unix_sockets: bool) -> (switch: Option<Switch>)
    ensures
        switch == short_switch(c, unix_sockets),
{
    match c {
        'h' => Some(Switch::Help),
        'i' => Some(Switch::Ip),
        'm' => Some(Switch::Multipart),
        'n' => Some(Switch::Name),
        'p' => Some(Switch::Port),
        'u' => Some(Switch::UrlEncoded),
        'U' => if unix_sockets {
            Some(Switch::UnixSocketFile)
        } else {
            None
        },
        'w' => Some(Switch::Workers),
        _ => None,
    }
}

/// What an argument asks for.
pub fn read_argument(arg: &str, unix_sockets: bool) -> (r: Result<Option<Switch>, ArgumentError>)
    ensures
        match r {
            Ok(switch) => asked_by(arg@, unix_sockets) == Ok::<_, ArgumentErrorModel>(switch),
            Err(e) => asked_by(arg@, unix_sockets) == Err::<Option<Switch>, _>(e@),
        },
{
    let chars = text::characters(arg);
    let len: usize = chars.len();
    if len >= 2 && chars[0] == '-' && chars[1] == '-' {
        let long = text::text_between(&chars, 2, len);
        assert(long@ == arg@.skip(2));
        match find_long(long.as_str(), unix_sockets) {
            Some(switch) => Ok(Some(switch)),
            None => Err(ArgumentError::UnknownLong(long)),
        }
    } else if len >= 1 && chars[0] == '-' {
        if len == 1 {
            Ok(None)
        } else {
            match find_short(chars[1], unix_sockets) {
                Some(switch) => if switch != Switch::Help && len > 2 {
                    Err(ArgumentError::NotAlone)
                } else {
                    Ok(Some(switch))
                },
                None => Err(ArgumentError::UnknownShort(chars[1])),
            }
        }
    } else {
        Err(ArgumentError::Unknown(arg.to_owned()))
    }
}

// ---------------------------------------------------------------------------------------------
// Settings

/// How the server is to run.
pub struct Settings {
    pub ip: String,
    pub port: String,
    pub unix_socket: Option<String>,
    pub workers: usize,
    pub name: Option<String>,
    pub endpoints: Vec<EncodedEndpoint>,
}

/// The view of some `Settings`.
#[verifier::ext_equal]
pub struct SettingsModel {
    pub ip: Seq<char>,
    pub port: Seq<char>,
    pub unix_socket: Option<Seq<char>>,
    pub workers: usize,
    pub name: Option<Seq<char>>,
    pub endpoints: Seq<EncodedEndpointModel>,
}

impl View for Settings {
    type V = SettingsModel;

    open spec fn view(&self) -> SettingsModel {
        SettingsModel {
            ip: self.ip@,
            port: self.port@,
            unix_socket: text::text_model(self.unix_socket),
            workers: self.workers,
            name: text::text_model(self.name),
            endpoints: self.endpoints@.map_values(|e: EncodedEndpoint| e@),
        }
    }
}

/// The settings of an empty command line.
pub open spec fn default_settings() -> SettingsModel {
    SettingsModel {
        ip: "localhost"@,
        port: "8080"@,
        unix_socket: None,
        workers: 0,
        name: None,
        endpoints: Seq::empty(),
    }
}

impl Default for Settings {
    fn default() -> (settings: Settings)
        ensures
            settings@ == default_settings(),
    {
        let settings = Settings {
            ip: "localhost".to_owned(),
            port: "8080".to_owned(),
            unix_socket: None,
            workers: 0,
            name: None,
            endpoints: Vec::new(),
        };
        assert(settings@.endpoints == Seq::<EncodedEndpointModel>::empty());
        settings
    }
}

impl SettingsModel {
    /// Whether `switch` takes the argument behind it as its value. The one for help never does, and
    /// the one for the name only as long as there is no name.
    pub open spec fn takes_value(self, switch: Switch) -> bool {
        match switch {
            Switch::Help => false,
            Switch::Name => self.name is None,
            _ => true,
        }
    }

    /// The settings once `switch` has been given `value`.
    pub open spec fn with(self, switch: Switch, value: Seq<char>) -> Result<
        SettingsModel,
        ArgumentErrorModel,
    > {
        match switch {
            Switch::Help => Ok(self),
            Switch::Ip => Ok(SettingsModel { ip: value, ..self }),
            Switch::Name => Ok(SettingsModel { name: Some(value), ..self }),
            Switch::Port => Ok(SettingsModel { port: value, ..self }),
            Switch::UnixSocketFile => Ok(SettingsModel { unix_socket: Some(value), ..self }),
            Switch::Workers => match text::number(value) {
                Some(n) if n <= usize::MAX => Ok(SettingsModel { workers: n as usize, ..self }),
                _ => Err(ArgumentErrorModel::Workers),
            },
            Switch::Multipart => if value.len() == 0 {
                Err(ArgumentErrorModel::EndpointDelimiter)
            } else if !endpoint::has_size(value) {
                Err(ArgumentErrorModel::EndpointSize)
            } else {
                Ok(self.with_endpoint(EncodedEndpointModel::Multipart(endpoint::described(value))))
            },
            Switch::UrlEncoded => if value.len() == 0 {
                Err(ArgumentErrorModel::EndpointDelimiter)
            } else if !endpoint::has_size(value) {
                Err(ArgumentErrorModel::EndpointSize)
            } else {
                Ok(self.with_endpoint(EncodedEndpointModel::UrlEncoded(endpoint::described(value))))
            },
        }
    }

    /// The settings with one more endpoint.
    pub open spec fn with_endpoint(self, endpoint: EncodedEndpointModel) -> SettingsModel {
        SettingsModel { endpoints: self.endpoints.push(endpoint), ..self }
    }
}

impl Settings {
    /// Gives `switch` the value `value`.
    pub fn set(self, switch: Switch, value: String) -> (r: Result<Settings, ArgumentError>)
        ensures
            match r {
                Ok(settings) => self@.with(switch, value@) == Ok::<_, ArgumentErrorModel>(
                    settings@,
                ),
                Err(e) => self@.with(switch, value@) == Err::<SettingsModel, _>(e@),
            },
    {
        let mut settings = self;
        match switch {
            Switch::Help => (),
            Switch::Ip => settings.ip = value,
            Switch::Name => settings.name = Some(value),
            Switch::Port => settings.port = value,
            Switch::UnixSocketFile => settings.unix_socket = Some(value),
            Switch::Workers => match text::parse_usize(value.as_str()) {
                Ok(workers) => settings.workers = workers,
                Err(e) => return Err(ArgumentError::Workers(e)),
            },
            Switch::Multipart => match Endpoint::parse(value) {
                Ok(endpoint) => {
                    settings.endpoints.push(EncodedEndpoint::Multipart(endpoint));
                    assert(settings@.endpoints == self@.endpoints.push(
                        EncodedEndpointModel::Multipart(endpoint@),
                    ));
                },
                Err(e) => return Err(ArgumentError::Endpoint(e)),
            },
            Switch::UrlEncoded => match Endpoint::parse(value) {
                Ok(endpoint) => {
                    settings.endpoints.push(EncodedEndpoint::UrlEncoded(endpoint));
                    assert(settings@.endpoints == self@.endpoints.push(
                        EncodedEndpointModel::UrlEncoded(endpoint@),
                    ));
                },
                Err(e) => return Err(ArgumentError::Endpoint(e)),
            },
        }
        Ok(settings)
    }
}

// ---------------------------------------------------------------------------------------------
// Command lines

/// What a command line asks for.
pub enum CommandLine {
    /// To show how to use the program.
    Help,
    /// To run the server.
    Serve(Settings),
}

/// The view of a `CommandLine`.
#[verifier::ext_equal]
pub enum CommandLineModel {
    Help,
    Serve(SettingsModel),
}

impl View for CommandLine {
    type V = CommandLineModel;

    open spec fn view(&self) -> CommandLineModel {
        match self {
            CommandLine::Help => CommandLineModel::Help,
            CommandLine::Serve(settings) => CommandLineModel::Serve(settings@),
        }
    }
}

/// What the arguments `args` ask for, behind others that have led to `settings`.
pub open spec fn asked_for(
    args: Seq<Seq<char>>,
    settings: SettingsModel,
    unix_sockets: bool,
) -> Result<CommandLineModel, ArgumentErrorModel>
    decreases args.len(),
{
    if args.len() == 0 {
        Ok(CommandLineModel::Serve(settings))
    } else {
        match asked_by(args[0], unix_sockets) {
            Err(e) => Err(e),
            Ok(None) => asked_for(args.skip(1), settings, unix_sockets),
            Ok(Some(switch)) => if switch == Switch::Help {
                Ok(CommandLineModel::Help)
            } else if !settings.takes_value(switch) {
                asked_for(args.skip(1), settings, unix_sockets)
            } else if args.len() == 1 {
                Err(ArgumentErrorModel::NoValue)
            } else {
                match settings.with(switch, args[1]) {
                    Err(e) => Err(e),
                    Ok(settings) => asked_for(args.skip(2), settings, unix_sockets),
                }
            },
        }
    }
}

/// What a command line asks for, the name of the program aside.
pub fn parse_arguments(args: Vec<String>, unix_sockets: bool) -> (r: Result<
    CommandLine,
    ArgumentError,
>)
    ensures
        match r {
            Ok(line) => asked_for(text::texts(args@), default_settings(), unix_sockets) == Ok::<
                _,
                ArgumentErrorModel,
            >(line@),
            Err(e) => asked_for(text::texts(args@), default_settings(), unix_sockets) == Err::<
                CommandLineModel,
                _,
            >(e@),
        },
{
    let ghost all = text::texts(args@);
    let mut settings = Settings::default();
    let mut next: usize = 0;
    assert(all.skip(0) == all);
    while next < args.len()
        invariant
            next <= args.len(),
            all == text::texts(args@),
            asked_for(all, default_settings(), unix_sockets) == asked_for(
                all.skip(next as int),
                settings@,
                unix_sockets,
            ),
        decreases args.len() - next,
    {
        let ghost rest = all.skip(next as int);
        assert(rest[0] == args@[next as int]@);
        assert(rest.skip(1) == all.skip(next + 1));
        let switch = match read_argument(args[next].as_str(), unix_sockets) {
            Ok(switch) => switch,
            Err(e) => return Err(e),
        };
        next += 1;
        if let Some(switch) = switch {
            let takes_value = match switch {
                Switch::Help => return Ok(CommandLine::Help),
                Switch::Name => settings.name.is_none(),
                _ => true,
            };
            if takes_value {
                if next == args.len() {
                    return Err(ArgumentError::NoValue);
                }
                assert(rest[1] == args@[next as int]@);
                assert(rest.skip(2) == all.skip(next + 1));
                settings = match settings.set(switch, args[next].clone()) {
                    Ok(settings) => settings,
                    Err(e) => return Err(e),
                };
                next += 1;
            }
        }
    }
    Ok(CommandLine::Serve(settings))
}

// ---------------------------------------------------------------------------------------------
// What the settings mean

/// Where the server listens.
pub enum Listener {
    /// On the Unix socket with this path.
    UnixSocket(String),
    /// On this TCP address.
    Tcp(String),
}

/// The view of a `Listener`.
pub enum ListenerModel {
    UnixSocket(Seq<char>),
    Tcp(Seq<char>),
}

impl View for Listener {
    type V = ListenerModel;

    open spec fn view(&self) -> ListenerModel {
        match self {
            Listener::UnixSocket(path) => ListenerModel::UnixSocket(path@),
            Listener::Tcp(address) => ListenerModel::Tcp(address@),
        }
    }
}

/// How the server runs.
#[derive(Clone, Copy, Debug, PartialEq, Eq, Structural)]
pub enum Runtime {
    /// On the thread that started it.
    CurrentThread,
    /// On this number of threads.
    Threads(usize),
}

impl SettingsModel {
    /// Where the server listens: on the Unix socket if there is one, and else at the port of the IP
    /// address.
    pub open spec fn listener(self) -> ListenerModel {
        match self.unix_socket {
            Some(path) => ListenerModel::UnixSocket(path),
            None => ListenerModel::Tcp(self.ip + ":"@ + self.port),
        }
    }

    /// How the server runs: without workers, on the thread that started it.
    pub open spec fn runtime(self) -> Runtime {
        if self.workers > 0 {
            Runtime::Threads(self.workers)
        } else {
            Runtime::CurrentThread
        }
    }

    /// What the names of temporary directories start with.
    pub open spec fn prefix(self) -> Seq<char> {
        match self.name {
            Some(name) => name,
            None => "postal."@,
        }
    }
}

impl Settings {
    /// Where the server listens.
    pub fn listener(&self) -> (listener: Listener)
        ensures
            listener@ == self@.listener(),
    {
        match &self.unix_socket {
            Some(path) => Listener::UnixSocket(path.clone()),
            None => Listener::Tcp(
                text::concat2(
                    text::concat2(self.ip.as_str(), ":").as_str(),
                    self.port.as_str(),
                ),
            ),
        }
    }

    /// How the server runs.
    pub fn runtime(&self) -> (runtime: Runtime)
        ensures
            runtime == self@.runtime(),
    {
        if self.workers > 0 {
            Runtime::Threads(self.workers)
        } else {
            Runtime::CurrentThread
        }
    }

    /// What the names of temporary directories start with.
    pub fn prefix(&self) -> (prefix: String)
        ensures
            prefix@ == self@.prefix(),
    {
        match &self.name {
            Some(name) => name.clone(),
            None => "postal.".to_owned(),
        }
    }
}

// ---------------------------------------------------------------------------------------------
// Laws

/// The two forms of a switch ask for the same.
pub proof fn law_forms_agree(switch: Switch, unix_sockets: bool)
    requires
        switch.available(unix_sockets),
    ensures
        asked_by(seq!['-', '-'] + switch.long(), unix_sockets) == Ok::<_, ArgumentErrorModel>(
            Some(switch),
        ),
        asked_by(seq!['-', switch.short()], unix_sockets) == Ok::<_, ArgumentErrorModel>(
            Some(switch),
        ),
{
    reveal_strlit("help");
    reveal_strlit("ip");
    reveal_strlit("multipart");
    reveal_strlit("name");
    reveal_strlit("port");
    reveal_strlit("unix-socket-file");
    reveal_strlit("urlencoded");
    reveal_strlit("workers");
    let long = seq!['-', '-'] + switch.long();
    assert(long.skip(2) == switch.long());
    assert("ip"@.len() == 2 && "help"@.len() == 4 && "name"@.len() == 4 && "port"@.len() == 4);
    assert("help"@[0] == 'h' && "name"@[0] == 'n' && "port"@[0] == 'p');
    assert("multipart"@.len() == 9 && "workers"@.len() == 7 && "urlencoded"@.len() == 10);
    assert("unix-socket-file"@.len() == 16);
}

/// A command line is read from left to right: what stands behind some complete arguments is read
/// as if it stood alone, except that it starts from the settings that they lead to.
pub proof fn law_arguments_add_up(
    args: Seq<Seq<char>>,
    more: Seq<Seq<char>>,
    settings: SettingsModel,
    unix_sockets: bool,
)
    requires
        asked_for(args, settings, unix_sockets) matches Ok(CommandLineModel::Serve(_)),
    ensures
        asked_for(args + more, settings, unix_sockets) == asked_for(
            more,
            (asked_for(args, settings, unix_sockets)->Ok_0)->Serve_0,
            unix_sockets,
        ),
    decreases args.len(),
{
    if args.len() == 0 {
        assert(args + more == more);
    } else {
        assert((args + more)[0] == args[0]);
        assert((args + more).skip(1) == args.skip(1) + more);
        match asked_by(args[0], unix_sockets)->Ok_0 {
            None => law_arguments_add_up(args.skip(1), more, settings, unix_sockets),
            Some(switch) => {
                if !settings.takes_value(switch) {
                    law_arguments_add_up(args.skip(1), more, settings, unix_sockets);
                } else {
                    assert((args + more)[1] == args[1]);
                    assert((args + more).skip(2) == args.skip(2) + more);
                    law_arguments_add_up(
                        args.skip(2),
                        more,
                        settings.with(switch, args[1])->Ok_0,
                        unix_sockets,
                    );
                }
            },
        }
    }
}

/// Help is all that a command line asks for from the switch for it on, whatever follows.
pub proof fn law_help_ends_the_line(
    args: Seq<Seq<char>>,
    more: Seq<Seq<char>>,
    settings: SettingsModel,
    unix_sockets: bool,
)
    requires
        asked_for(args, settings, unix_sockets) == Ok::<_, ArgumentErrorModel>(
            CommandLineModel::Help,
        ),
    ensures
        asked_for(args + more, settings, unix_sockets) == Ok::<_, ArgumentErrorModel>(
            CommandLineModel::Help,
        ),
    decreases args.len(),
{
    assert((args + more)[0] == args[0]);
    assert((args + more).skip(1) == args.skip(1) + more);
    match asked_by(args[0], unix_sockets)->Ok_0 {
        None => law_help_ends_the_line(args.skip(1), more, settings, unix_sockets),
        Some(switch) => {
            if switch != Switch::Help {
                if !settings.takes_value(switch) {
                    law_help_ends_the_line(args.skip(1), more, settings, unix_sockets);
                } else {
                    assert((args + more)[1] == args[1]);
                    assert((args + more).skip(2) == args.skip(2) + more);
                    law_help_ends_the_line(
                        args.skip(2),
                        more,
                        settings.with(switch, args[1])->Ok_0,
                        unix_sockets,
                    );
                }
            }
        },
    }
}

/// Further arguments never take an endpoint away or change one, and never change a name.
pub proof fn law_endpoints_and_name_stay(
    args: Seq<Seq<char>>,
    settings: SettingsModel,
    unix_sockets: bool,
)
    requires
        asked_for(args, settings, unix_sockets) matches Ok(CommandLineModel::Serve(_)),
    ensures
        ({
            let later = (asked_for(args, settings, unix_sockets)->Ok_0)->Serve_0;
            &&& settings.endpoints.is_prefix_of(later.endpoints)
            &&& settings.name is Some ==> later.name == settings.name
        }),
    decreases args.len(),
{
    if args.len() > 0 {
        match asked_by(args[0], unix_sockets)->Ok_0 {
            None => law_endpoints_and_name_stay(args.skip(1), settings, unix_sockets),
            Some(switch) => {
                if !settings.takes_value(switch) {
                    law_endpoints_and_name_stay(args.skip(1), settings, unix_sockets);
                } else {
                    let next = settings.with(switch, args[1])->Ok_0;
                    assert(settings.endpoints.is_prefix_of(next.endpoints));
                    law_endpoints_and_name_stay(args.skip(2), next, unix_sockets);
                    let later = (asked_for(args, settings, unix_sockets)->Ok_0)->Serve_0;
                    assert(settings.endpoints.is_prefix_of(later.endpoints)) by {
                        assert(settings.endpoints == next.endpoints.take(
                            settings.endpoints.len() as int,
                        ));
                        assert(next.endpoints == later.endpoints.take(
                            next.endpoints.len() as int,
                        ));
                        assert(settings.endpoints == later.endpoints.take(
                            settings.endpoints.len() as int,
                        ));
                    }
                }
            },
        }
    }
}

// ---------------------------------------------------------------------------------------------
// What each argument does

/// The switches have the forms that they are documented with.
pub proof fn law_forms(switch: Switch)
    ensures
        switch is Help ==> switch.long() == "help"@ && switch.short() == 'h',
        switch is Ip ==> switch.long() == "ip"@ && switch.short() == 'i',
        switch is Multipart ==> switch.long() == "multipart"@ && switch.short() == 'm',
        switch is Name ==> switch.long() == "name"@ && switch.short() == 'n',
        switch is Port ==> switch.long() == "port"@ && switch.short() == 'p',
        switch is UnixSocketFile ==> switch.long() == "unix-socket-file"@ && switch.short() == 'U',
        switch is UrlEncoded ==> switch.long() == "urlencoded"@ && switch.short() == 'u',
        switch is Workers ==> switch.long() == "workers"@ && switch.short() == 'w',
{
}

/// Only the forms of a switch ask for it, save that more may follow the short form of the switch for
/// help, and the switch for a Unix socket is there only on a system that has them. A dash alone asks
/// for nothing. An argument without a dash before it is none, and so is one with two dashes that is
/// not a long form, one with a dash that does not go on with a short form, and one that goes on behind
/// the short form of a switch that takes a value.
pub proof fn law_no_other_forms(arg: Seq<char>, unix_sockets: bool)
    ensures
        ({
            let asked = asked_by(arg, unix_sockets);
            let long = arg.len() >= 2 && arg[0] == '-' && arg[1] == '-';
            let short = arg.len() >= 2 && arg[0] == '-' && arg[1] != '-';
            &&& asked matches Ok(Some(switch)) ==> (switch is UnixSocketFile ==> unix_sockets) && (
            arg == seq!['-', '-'] + switch.long() || arg == seq!['-', switch.short()] || short && arg[
            1] == 'h' && switch is Help)
            &&& asked == Ok::<Option<Switch>, ArgumentErrorModel>(None) <==> arg == seq!['-']
            &&& arg.len() == 0 || arg[0] != '-' ==> asked == Err::<Option<Switch>, _>(
                ArgumentErrorModel::Unknown(arg),
            )
            &&& long && asked is Err ==> asked == Err::<Option<Switch>, _>(
                ArgumentErrorModel::UnknownLong(arg.skip(2)),
            )
            &&& short && asked is Err ==> asked == Err::<Option<Switch>, _>(
                ArgumentErrorModel::UnknownShort(arg[1]),
            ) || asked == Err::<Option<Switch>, _>(ArgumentErrorModel::NotAlone)
            &&& asked == Err::<Option<Switch>, _>(ArgumentErrorModel::NotAlone) <==> short
                && arg.len() > 2 && arg[1] != 'h' && asked_by(
                seq!['-', arg[1]],
                unix_sockets,
            ) is Ok
            &&& short && arg[1] == 'h' ==> asked == Ok::<_, ArgumentErrorModel>(Some(Switch::Help))
        }),
{
    if arg.len() >= 2 {
        assert(arg == seq![arg[0], arg[1]] + arg.skip(2));
        if arg.len() == 2 {
            assert(arg == seq![arg[0], arg[1]]);
        }
    } else if arg.len() == 1 {
        assert(arg == seq![arg[0]]);
    }
}

/// The settings without any argument: the address and the port to listen at, and nothing else.
pub proof fn law_default_settings(unix_sockets: bool)
    ensures
        asked_for(Seq::empty(), default_settings(), unix_sockets) == Ok::<_, ArgumentErrorModel>(
            CommandLineModel::Serve(
                SettingsModel {
                    ip: "localhost"@,
                    port: "8080"@,
                    unix_socket: None,
                    workers: 0,
                    name: None,
                    endpoints: Seq::empty(),
                },
            ),
        ),
{
}

/// What one switch and its value do behind arguments that lead to some settings.
proof fn lemma_switch_with_value(
    args: Seq<Seq<char>>,
    start: SettingsModel,
    unix_sockets: bool,
    switch: Switch,
    form: Seq<char>,
    value: Seq<char>,
)
    requires
        asked_for(args, start, unix_sockets) matches Ok(CommandLineModel::Serve(_)),
        switch != Switch::Help,
        switch is UnixSocketFile ==> unix_sockets,
        form == seq!['-', '-'] + switch.long() || form == seq!['-', switch.short()],
        ((asked_for(args, start, unix_sockets)->Ok_0)->Serve_0).takes_value(switch),
    ensures
        asked_for(args + seq![form, value], start, unix_sockets) == match ((asked_for(
            args,
            start,
            unix_sockets,
        )->Ok_0)->Serve_0).with(switch, value) {
            Ok(settings) => Ok(CommandLineModel::Serve(settings)),
            Err(e) => Err(e),
        },
        asked_for(args + seq![form], start, unix_sockets) == Err::<CommandLineModel, _>(
            ArgumentErrorModel::NoValue,
        ),
{
    let settings = (asked_for(args, start, unix_sockets)->Ok_0)->Serve_0;
    law_arguments_add_up(args, seq![form, value], start, unix_sockets);
    law_arguments_add_up(args, seq![form], start, unix_sockets);
    law_forms_agree(switch, unix_sockets);
    assert(seq![form, value].skip(2) == Seq::<Seq<char>>::empty());
    if settings.with(switch, value) is Ok {
        let later = settings.with(switch, value)->Ok_0;
        assert(asked_for(Seq::empty(), later, unix_sockets) == Ok::<_, ArgumentErrorModel>(
            CommandLineModel::Serve(later),
        ));
    }
}

/// Each switch, in either form, behind arguments that lead to some settings, sets its own setting to
/// the value behind it, as it is, and leaves all others: the address, the port, the Unix socket and
/// the name to the text, and the number of workers to the number that it writes. Without a value there
/// is no such command line, and neither is there with workers that are not a number.
pub proof fn law_switch_sets(
    args: Seq<Seq<char>>,
    start: SettingsModel,
    unix_sockets: bool,
    switch: Switch,
    form: Seq<char>,
    value: Seq<char>,
)
    requires
        asked_for(args, start, unix_sockets) matches Ok(CommandLineModel::Serve(_)),
        switch is UnixSocketFile ==> unix_sockets,
        form == seq!['-', '-'] + switch.long() || form == seq!['-', switch.short()],
    ensures
        ({
            let settings = (asked_for(args, start, unix_sockets)->Ok_0)->Serve_0;
            let later = asked_for(args + seq![form, value], start, unix_sockets);
            let set = (later->Ok_0)->Serve_0;
            &&& switch != Switch::Help && !(switch is Name && settings.name is Some) ==> asked_for(
                args + seq![form],
                start,
                unix_sockets,
            ) == Err::<CommandLineModel, _>(ArgumentErrorModel::NoValue)
            &&& switch is Ip || switch is Port || switch is UnixSocketFile || switch is Name
                && settings.name is None ==> later is Ok && later->Ok_0 is Serve
            &&& switch is Ip ==> set == (SettingsModel {
                ip: value,
                port: settings.port,
                unix_socket: settings.unix_socket,
                workers: settings.workers,
                name: settings.name,
                endpoints: settings.endpoints,
            })
            &&& switch is Port ==> set == (SettingsModel {
                ip: settings.ip,
                port: value,
                unix_socket: settings.unix_socket,
                workers: settings.workers,
                name: settings.name,
                endpoints: settings.endpoints,
            })
            &&& switch is UnixSocketFile ==> set == (SettingsModel {
                ip: settings.ip,
                port: settings.port,
                unix_socket: Some(value),
                workers: settings.workers,
                name: settings.name,
                endpoints: settings.endpoints,
            })
            &&& switch is Name && settings.name is None ==> set == (SettingsModel {
                ip: settings.ip,
                port: settings.port,
                unix_socket: settings.unix_socket,
                workers: settings.workers,
                name: Some(value),
                endpoints: settings.endpoints,
            })
            &&& switch is Workers && (text::number(value) matches Some(n) && n <= usize::MAX)
                ==> later == Ok::<_, ArgumentErrorModel>(
                CommandLineModel::Serve(
                    SettingsModel {
                        ip: settings.ip,
                        port: settings.port,
                        unix_socket: settings.unix_socket,
                        workers: text::number(value)->0 as usize,
                        name: settings.name,
                        endpoints: settings.endpoints,
                    },
                ),
            )
            &&& switch is Workers && !(text::number(value) matches Some(n) && n <= usize::MAX)
                ==> later == Err::<CommandLineModel, _>(ArgumentErrorModel::Workers)
        }),
{
    let settings = (asked_for(args, start, unix_sockets)->Ok_0)->Serve_0;
    if switch != Switch::Help && !(switch is Name && settings.name is Some) {
        lemma_switch_with_value(args, start, unix_sockets, switch, form, value);
    }
}

/// A switch for an endpoint, in either form, and a description behind arguments that lead to some
/// settings, leads to those settings with exactly one more endpoint at the end: one of the kind that
/// the switch names, with the size, the route, the command and the parameters that the description
/// writes. A description is a delimiter and then fields, none of which holds it, with the delimiter
/// between them; without a delimiter or without a size it is none, and there is no such command line.
pub proof fn law_switch_adds_endpoint(
    args: Seq<Seq<char>>,
    start: SettingsModel,
    unix_sockets: bool,
    switch: Switch,
    form: Seq<char>,
    delimiter: char,
    fields: Seq<Seq<char>>,
)
    requires
        asked_for(args, start, unix_sockets) matches Ok(CommandLineModel::Serve(_)),
        switch is Multipart || switch is UrlEncoded,
        form == seq!['-', '-'] + switch.long() || form == seq!['-', switch.short()],
        fields.len() > 0,
        forall|i: int| 0 <= i < fields.len() ==> !(#[trigger] fields[i]).contains(delimiter),
    ensures
        ({
            let settings = (asked_for(args, start, unix_sockets)->Ok_0)->Serve_0;
            let value = seq![delimiter] + text::joined(fields, delimiter);
            let later = asked_for(args + seq![form, value], start, unix_sockets);
            let size = text::number(fields[0]);
            let endpoint = EndpointModel {
                max_request_size: size->0 as usize,
                route: if fields.len() > 1 {
                    fields[1]
                } else {
                    Seq::empty()
                },
                command: if fields.len() > 2 {
                    fields[2]
                } else {
                    Seq::empty()
                },
                parameters: if fields.len() > 4 {
                    Seq::new(
                        (fields.len() - 3) as nat,
                        |i: int| endpoint::parameter_of(fields[i + 3]),
                    )
                } else {
                    Seq::empty()
                },
            };
            &&& size is Some && size->0 <= usize::MAX ==> later == Ok::<_, ArgumentErrorModel>(
                CommandLineModel::Serve(
                    SettingsModel {
                        ip: settings.ip,
                        port: settings.port,
                        unix_socket: settings.unix_socket,
                        workers: settings.workers,
                        name: settings.name,
                        endpoints: settings.endpoints.push(
                            if switch is Multipart {
                                EncodedEndpointModel::Multipart(endpoint)
                            } else {
                                EncodedEndpointModel::UrlEncoded(endpoint)
                            },
                        ),
                    },
                ),
            )
            &&& !(size is Some && size->0 <= usize::MAX) ==> later == Err::<CommandLineModel, _>(
                ArgumentErrorModel::EndpointSize,
            )
            &&& asked_for(args + seq![form, Seq::empty()], start, unix_sockets) == Err::<
                CommandLineModel,
                _,
            >(ArgumentErrorModel::EndpointDelimiter)
        }),
{
    let value = seq![delimiter] + text::joined(fields, delimiter);
    let settings = (asked_for(args, start, unix_sockets)->Ok_0)->Serve_0;
    lemma_switch_with_value(args, start, unix_sockets, switch, form, value);
    lemma_switch_with_value(args, start, unix_sockets, switch, form, Seq::empty());
    endpoint::law_description(delimiter, fields);
    if endpoint::is_description(value) {
        let described = endpoint::described(value);
        let parameters: Seq<endpoint::ParameterModel> = if fields.len() > 4 {
            Seq::new((fields.len() - 3) as nat, |i: int| endpoint::parameter_of(fields[i + 3]))
        } else {
            Seq::empty()
        };
        assert(described.parameters == parameters);
    }
}

/// A value for the name makes it the name, whether or not there was one, and leaves all other settings.
/// One for help changes nothing.
pub proof fn law_value_of_name(settings: SettingsModel, value: Seq<char>)
    ensures
        settings.with(Switch::Name, value) == Ok::<_, ArgumentErrorModel>(
            SettingsModel {
                ip: settings.ip,
                port: settings.port,
                unix_socket: settings.unix_socket,
                workers: settings.workers,
                name: Some(value),
                endpoints: settings.endpoints,
            },
        ),
        settings.with(Switch::Help, value) == Ok::<_, ArgumentErrorModel>(settings),
{
}

/// The switch for help ends the command line, whatever follows; a name stays once there is one, and
/// the switch for it then takes no value; and a dash alone changes nothing.
pub proof fn law_switches_without_value(
    args: Seq<Seq<char>>,
    more: Seq<Seq<char>>,
    start: SettingsModel,
    unix_sockets: bool,
    form: Seq<char>,
)
    requires
        asked_for(args, start, unix_sockets) matches Ok(CommandLineModel::Serve(_)),
    ensures
        ({
            let settings = (asked_for(args, start, unix_sockets)->Ok_0)->Serve_0;
            let later = asked_for(args + seq![form] + more, start, unix_sockets);
            let help = seq!['-', '-'] + Switch::Help.long();
            let name = seq!['-', '-'] + Switch::Name.long();
            &&& form == help || form == seq!['-', 'h'] ==> later == Ok::<_, ArgumentErrorModel>(
                CommandLineModel::Help,
            )
            &&& (form == name || form == seq!['-', 'n']) && settings.name is Some ==> later
                == asked_for(more, settings, unix_sockets)
            &&& form == seq!['-'] ==> later == asked_for(more, settings, unix_sockets)
        }),
{
    let settings = (asked_for(args, start, unix_sockets)->Ok_0)->Serve_0;
    let rest = seq![form] + more;
    assert(args + seq![form] + more == args + rest);
    law_arguments_add_up(args, rest, start, unix_sockets);
    law_forms_agree(Switch::Help, unix_sockets);
    law_forms_agree(Switch::Name, unix_sockets);
    assert(rest[0] == form);
    assert(rest.skip(1) == more);
}

/// An argument that is none ends the command line with that error, whatever follows.
pub proof fn law_errors_end_the_line(
    args: Seq<Seq<char>>,
    bad: Seq<char>,
    more: Seq<Seq<char>>,
    start: SettingsModel,
    unix_sockets: bool,
)
    requires
        asked_for(args, start, unix_sockets) matches Ok(CommandLineModel::Serve(_)),
        asked_by(bad, unix_sockets) is Err,
    ensures
        asked_for(args + seq![bad] + more, start, unix_sockets) == Err::<CommandLineModel, _>(
            asked_by(bad, unix_sockets)->Err_0,
        ),
{
    let rest = seq![bad] + more;
    assert(args + seq![bad] + more == args + rest);
    law_arguments_add_up(args, rest, start, unix_sockets);
    assert(rest[0] == bad);
}

/// The server listens at the Unix socket if there is one, as it is, and else at the address and the port
/// with a colon between them. It runs on as many threads as there are workers, and on the one that
/// started it if there are none. The names of temporary directories start with the name, if there is
/// one, and else with that of the program and a dot.
pub proof fn law_settings(settings: SettingsModel)
    ensures
        settings.unix_socket matches Some(path) ==> settings.listener()
            == ListenerModel::UnixSocket(path),
        settings.unix_socket is None ==> settings.listener() == ListenerModel::Tcp(
            settings.ip + ":"@ + settings.port,
        ),
        settings.workers == 0 ==> settings.runtime() == Runtime::CurrentThread,
        settings.workers > 0 ==> settings.runtime() == Runtime::Threads(settings.workers),
        settings.name matches Some(name) ==> settings.prefix() == name,
        settings.name is None ==> settings.prefix() == "postal."@,
{
}

/// The views of settings, of command lines and of listeners hold what they hold.
pub proof fn law_views(settings: Settings, text: String)
    ensures
        settings@.ip == settings.ip@,
        settings@.port == settings.port@,
        settings@.workers == settings.workers,
        settings@.unix_socket is Some <==> settings.unix_socket is Some,
        settings.unix_socket matches Some(path) ==> settings@.unix_socket == Some(path@),
        settings@.name is Some <==> settings.name is Some,
        settings.name matches Some(name) ==> settings@.name == Some(name@),
        settings@.endpoints.len() == settings.endpoints@.len(),
        forall|i: int|
            0 <= i < settings.endpoints@.len() ==> (#[trigger] settings@.endpoints[i])
                == settings.endpoints@[i]@,
        CommandLine::Help@ == CommandLineModel::Help,
        CommandLine::Serve(settings)@ == CommandLineModel::Serve(settings@),
        Listener::UnixSocket(text)@ == ListenerModel::UnixSocket(text@),
        Listener::Tcp(text)@ == ListenerModel::Tcp(text@),
{
}

/// The view of an error holds which one it is, and the argument that it names.
pub proof fn law_error_view(error: ArgumentError)
    ensures
        error matches ArgumentError::UnknownLong(s) ==> error@
            == ArgumentErrorModel::UnknownLong(s@),
        error matches ArgumentError::UnknownShort(c) ==> error@ == ArgumentErrorModel::UnknownShort(
            c,
        ),
        error matches ArgumentError::Unknown(s) ==> error@ == ArgumentErrorModel::Unknown(s@),
        error is NotAlone <==> error@ is NotAlone,
        error is NoValue <==> error@ is NoValue,
        error is Workers <==> error@ is Workers,
        (error matches ArgumentError::Endpoint(EndpointError::NoDelimiter)) <==> error@
            is EndpointDelimiter,
        (error matches ArgumentError::Endpoint(EndpointError::MaxRequestSize(_))) <==> error@
            is EndpointSize,
{
}

} // verus!
