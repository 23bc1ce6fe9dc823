//! The command line: a mode, and options for it.

use vstd::prelude::*;

use crate::number;
use crate::onboard;
use crate::onboard::{LearnOptions, OnboardOptions};
use crate::text;

verus! {

/// The parsed command line.
#[derive(Clone, Debug)]
pub struct Args {
    pub mode: String,
    /// Path of the configuration: read by `serve`, written by the other modes.
    pub config_path: String,
    pub data_dir: String,
    pub bind_addr: String,
    pub listen_port: u16,
    pub upstream_host: String,
    pub upstream_port: u16,
}

/// What [`Args`] hold.
pub struct ArgsView {
    pub mode: Seq<char>,
    pub config_path: Seq<char>,
    pub data_dir: Seq<char>,
    pub bind_addr: Seq<char>,
    pub listen_port: u16,
    pub upstream_host: Seq<char>,
    pub upstream_port: u16,
}

impl View for Args {
    type V = ArgsView;

    open spec fn view(&self) -> ArgsView {
        ArgsView {
            mode: self.mode@,
            config_path: self.config_path@,
            data_dir: self.data_dir@,
            bind_addr: self.bind_addr@,
            listen_port: self.listen_port,
            upstream_host: self.upstream_host@,
            upstream_port: self.upstream_port,
        }
    }
}

/// An option that takes a value.
#[derive(Clone, Copy, Debug, PartialEq, Eq, Structural)]
pub enum Flag {
    Config,
    DataDir,
    Bind,
    ListenPort,
    UpstreamHost,
    UpstreamPort,
}

/// Why a command line was not understood.
#[derive(Clone, Copy, Debug, PartialEq, Eq, Structural)]
pub enum ArgsError {
    /// An option stands at the end without its value.
    MissingValue(Flag),
    /// The value of an option is not a port.
    NotAPort(Flag),
    /// The argument at this position starts with a dash and is no option.
    UnknownFlag(usize),
}

/// What the program is to do.
#[derive(Clone, Copy, Debug, PartialEq, Eq, Structural)]
pub enum Mode {
    Serve,
    Learn,
    Observe,
}

/// The option that an argument names.
pub open spec fn flag_of(arg: Seq<char>) -> Option<Flag> {
    if arg == "-c"@ || arg == "--config"@ {
        Some(Flag::Config)
    } else if arg == "--data-dir"@ {
        Some(Flag::DataDir)
    } else if arg == "--bind"@ {
        Some(Flag::Bind)
    } else if arg == "--listen-port"@ {
        Some(Flag::ListenPort)
    } else if arg == "--upstream-host"@ {
        Some(Flag::UpstreamHost)
    } else if arg == "--upstream-port"@ {
        Some(Flag::UpstreamPort)
    } else {
        None
    }
}

/// The arguments with an option set.
pub open spec fn with_flag(a: ArgsView, flag: Flag, value: Seq<char>) -> Result<
    ArgsView,
    ArgsError,
> {
    match flag {
        Flag::Config => Ok(ArgsView { config_path: value, ..a }),
        Flag::DataDir => Ok(ArgsView { data_dir: value, ..a }),
        Flag::Bind => Ok(ArgsView { bind_addr: value, ..a }),
        Flag::ListenPort => match number::u16_of(value) {
            Some(port) => Ok(ArgsView { listen_port: port, ..a }),
            None => Err(ArgsError::NotAPort(flag)),
        },
        Flag::UpstreamHost => Ok(ArgsView { upstream_host: value, ..a }),
        Flag::UpstreamPort => match number::u16_of(value) {
            Some(port) => Ok(ArgsView { upstream_port: port, ..a }),
            None => Err(ArgsError::NotAPort(flag)),
        },
    }
}

/// The arguments after the words from `i` on: an option takes the word behind it, a later
/// one wins, and any other word is the mode unless it starts with a dash.
pub open spec fn parsed_from(a: ArgsView, words: Seq<Seq<char>>, i: int) -> Result<
    ArgsView,
    ArgsError,
>
    decreases words.len() - i,
{
    if i >= words.len() {
        Ok(a)
    } else if let Some(flag) = flag_of(words[i]) {
        if i + 1 >= words.len() {
            Err(ArgsError::MissingValue(flag))
        } else {
            match with_flag(a, flag, words[i + 1]) {
                Ok(next) => parsed_from(next, words, i + 2),
                Err(e) => Err(e),
            }
        }
    } else if "-"@.is_prefix_of(words[i]) {
        Err(ArgsError::UnknownFlag(i as usize))
    } else {
        parsed_from(ArgsView { mode: words[i], ..a }, words, i + 1)
    }
}

/// The arguments of an empty command line. The environment may name another configuration
/// and another upstream host.
pub open spec fn default_args(
    env_config: Option<Seq<char>>,
    env_upstream: Option<Seq<char>>,
) -> ArgsView {
    ArgsView {
        mode: "serve"@,
        config_path: match env_config {
            Some(path) => path,
            None => "config.toml"@,
        },
        data_dir: "data"@,
        bind_addr: "0.0.0.0"@,
        listen_port: 1883,
        upstream_host: match env_upstream {
            Some(host) => host,
            None => onboard::DEFAULT_UPSTREAM_HOST@,
        },
        upstream_port: 1883,
    }
}

fn find_flag(arg: &str) -> (r: Option<Flag>)
    ensures
        r == flag_of(arg@),
{
    if text::same(arg, "-c") || text::same(arg, "--config") {
        Some(Flag::Config)
    } else if text::same(arg, "--data-dir") {
        Some(Flag::DataDir)
    } else if text::same(arg, "--bind") {
        Some(Flag::Bind)
    } else if text::same(arg, "--listen-port") {
        Some(Flag::ListenPort)
    } else if text::same(arg, "--upstream-host") {
        Some(Flag::UpstreamHost)
    } else if text::same(arg, "--upstream-port") {
        Some(Flag::UpstreamPort)
    } else {
        None
    }
}

impl Args {
    fn set(&mut self, flag: Flag, value: &String) -> (r: Result<(), ArgsError>)
        ensures
            match r {
                Ok(_) => with_flag(old(self)@, flag, value@) == Ok::<ArgsView, ArgsError>(
                    final(self)@,
                ),
                Err(e) => with_flag(old(self)@, flag, value@) == Err::<ArgsView, ArgsError>(e),
            },
    {
        match flag {
            Flag::Config => {
                self.config_path = value.clone();
            },
            Flag::DataDir => {
                self.data_dir = value.clone();
            },
            Flag::Bind => {
                self.bind_addr = value.clone();
            },
            Flag::ListenPort => match number::parse_u16(value.as_str()) {
                Some(port) => {
                    self.listen_port = port;
                },
                None => {
                    return Err(ArgsError::NotAPort(flag));
                },
            },
            Flag::UpstreamHost => {
                self.upstream_host = value.clone();
            },
            Flag::UpstreamPort => match number::parse_u16(value.as_str()) {
                Some(port) => {
                    self.upstream_port = port;
                },
                None => {
                    return Err(ArgsError::NotAPort(flag));
                },
            },
        }
        Ok(())
    }

    /// Parses the words of a command line. `env_config` and `env_upstream` are the values of
    /// the environment variables that stand in for two of the options.
    pub fn parse(
        words: &Vec<String>,
        env_config: Option<String>,
        env_upstream: Option<String>,
    ) -> (r: Result<Args, ArgsError>)
        ensures
            ({
                let start = default_args(
                    text::optional_text(env_config),
                    text::optional_text(env_upstream),
                );
                let expected = parsed_from(start, text::texts(words@), 0);
                match r {
                    Ok(a) => expected == Ok::<ArgsView, ArgsError>(a@),
                    Err(e) => expected == Err::<ArgsView, ArgsError>(e),
                }
            }),
    {
        let ghost all = text::texts(words@);
        let ghost start = default_args(
            text::optional_text(env_config),
            text::optional_text(env_upstream),
        );
        let mut a = Args {
            mode: "serve".to_owned(),
            config_path: match env_config {
                Some(path) => path,
                None => "config.toml".to_owned(),
            },
            data_dir: "data".to_owned(),
            bind_addr: "0.0.0.0".to_owned(),
            listen_port: 1883,
            upstream_host: match env_upstream {
                Some(host) => host,
                None => onboard::DEFAULT_UPSTREAM_HOST.to_owned(),
            },
            upstream_port: 1883,
        };
        let n: usize = words.len();
        let mut i: usize = 0;
        while i < n
            invariant
                i <= n == words@.len(),
                all == text::texts(words@),
                start == default_args(
                    text::optional_text(env_config),
                    text::optional_text(env_upstream),
                ),
                parsed_from(start, all, 0) == parsed_from(a@, all, i as int),
            decreases n - i,
        {
            let word: &str = words[i].as_str();
            assert(all[i as int] == word@);
            match find_flag(word) {
                Some(flag) => {
                    if n - i < 2 {
                        return Err(ArgsError::MissingValue(flag));
                    }
                    assert(all[i + 1] == words@[i + 1]@);
                    match a.set(flag, &words[i + 1]) {
                        Ok(_) => {},
                        Err(e) => {
                            return Err(e);
                        },
                    }
                    i = i + 2;
                },
                None => {
                    if text::starts_with(word, "-") {
                        return Err(ArgsError::UnknownFlag(i));
                    }
                    a.mode = words[i].clone();
                    i = i + 1;
                },
            }
        }
        Ok(a)
    }

    /// The mode that was asked for, if there is one of that name.
    pub fn selected_mode(&self) -> (r: Option<Mode>)
        ensures
            r == (if self.mode@ == "serve"@ {
                Some(Mode::Serve)
            } else if self.mode@ == "learn"@ {
                Some(Mode::Learn)
            } else if self.mode@ == "observe"@ {
                Some(Mode::Observe)
            } else {
                None
            }),
    {
        if text::same(self.mode.as_str(), "serve") {
            Some(Mode::Serve)
        } else if text::same(self.mode.as_str(), "learn") {
            Some(Mode::Learn)
        } else if text::same(self.mode.as_str(), "observe") {
            Some(Mode::Observe)
        } else {
            None
        }
    }

    /// The options of `observe`.
    pub fn onboard_options(&self) -> (o: OnboardOptions)
        ensures
            o.bind_addr@ == self.bind_addr@,
            o.listen_port == self.listen_port,
            o.out_config@ == self.config_path@,
            o.data_dir@ == self.data_dir@,
    {
        OnboardOptions {
            bind_addr: self.bind_addr.clone(),
            listen_port: self.listen_port,
            out_config: self.config_path.clone(),
            data_dir: self.data_dir.clone(),
        }
    }

    /// The options of `learn`.
    pub fn learn_options(&self) -> (o: LearnOptions)
        ensures
            o.onboard.bind_addr@ == self.bind_addr@,
            o.onboard.listen_port == self.listen_port,
            o.onboard.out_config@ == self.config_path@,
            o.onboard.data_dir@ == self.data_dir@,
            o.upstream_host@ == self.upstream_host@,
            o.upstream_port == self.upstream_port,
    {
        LearnOptions {
            onboard: self.onboard_options(),
            upstream_host: self.upstream_host.clone(),
            upstream_port: self.upstream_port,
        }
    }
}

/// Defaults: an empty command line serves, with the documented defaults.
pub proof fn law_empty_command_line_is_the_default(
    env_config: Option<Seq<char>>,
    env_upstream: Option<Seq<char>>,
)
    ensures
        parsed_from(default_args(env_config, env_upstream), Seq::empty(), 0) == Ok::<
            ArgsView,
            ArgsError,
        >(default_args(env_config, env_upstream)),
{
}

/// The last word on an option wins: naming a configuration at the end overrides what came
/// before, and changes nothing else.
pub proof fn law_last_config_wins(
    a: ArgsView,
    words: Seq<Seq<char>>,
    path: Seq<char>,
    i: int,
    before: ArgsView,
)
    requires
        0 <= i <= words.len(),
        parsed_from(a, words, i) == Ok::<ArgsView, ArgsError>(before),
    ensures
        parsed_from(a, words + seq!["--config"@, path], i) == Ok::<ArgsView, ArgsError>(
            ArgsView { config_path: path, ..before },
        ),
    decreases words.len() - i,
{
    let longer = words + seq!["--config"@, path];
    let n = words.len() as int;
    if i >= n {
        assert(longer[n] == "--config"@ && longer[n + 1] == path);
        assert(flag_of("--config"@) == Some(Flag::Config));
        assert(parsed_from(ArgsView { config_path: path, ..a }, longer, n + 2) == Ok::<
            ArgsView,
            ArgsError,
        >(ArgsView { config_path: path, ..a }));
    } else {
        assert(longer[i] == words[i]);
        if let Some(flag) = flag_of(words[i]) {
            assert(longer[i + 1] == words[i + 1]);
            match with_flag(a, flag, words[i + 1]) {
                Ok(next) => {
                    law_last_config_wins(next, words, path, i + 2, before);
                },
                Err(_) => {},
            }
        } else {
            law_last_config_wins(ArgsView { mode: words[i], ..a }, words, path, i + 1, before);
        }
    }
}

proof fn option_at_the_end(
    a: ArgsView,
    words: Seq<Seq<char>>,
    option: Seq<char>,
    flag: Flag,
    value: Seq<char>,
    i: int,
    before: ArgsView,
)
    requires
        0 <= i <= words.len(),
        parsed_from(a, words, i) == Ok::<ArgsView, ArgsError>(before),
        flag_of(option) == Some(flag),
    ensures
        parsed_from(a, words + seq![option, value], i) == with_flag(before, flag, value),
        parsed_from(a, words + seq![option], i) == Err::<ArgsView, ArgsError>(
            ArgsError::MissingValue(flag),
        ),
    decreases words.len() - i,
{
    let longer = words + seq![option, value];
    let cut = words + seq![option];
    let n = words.len() as int;
    if i >= n {
        assert(longer[n] == option && longer[n + 1] == value && cut[n] == option);
        match with_flag(a, flag, value) {
            Ok(next) => {
                assert(parsed_from(next, longer, n + 2) == Ok::<ArgsView, ArgsError>(next));
            },
            Err(_) => {},
        }
    } else {
        assert(longer[i] == words[i] && cut[i] == words[i]);
        if let Some(found) = flag_of(words[i]) {
            assert(longer[i + 1] == words[i + 1] && cut[i + 1] == words[i + 1]);
            match with_flag(a, found, words[i + 1]) {
                Ok(next) => {
                    option_at_the_end(next, words, option, flag, value, i + 2, before);
                },
                Err(_) => {},
            }
        } else {
            option_at_the_end(
                ArgsView { mode: words[i], ..a },
                words,
                option,
                flag,
                value,
                i + 1,
                before,
            );
        }
    }
}

proof fn options_are_flags()
    ensures
        flag_of("-c"@) == Some(Flag::Config),
        flag_of("--config"@) == Some(Flag::Config),
        flag_of("--data-dir"@) == Some(Flag::DataDir),
        flag_of("--bind"@) == Some(Flag::Bind),
        flag_of("--listen-port"@) == Some(Flag::ListenPort),
        flag_of("--upstream-host"@) == Some(Flag::UpstreamHost),
        flag_of("--upstream-port"@) == Some(Flag::UpstreamPort),
{
    reveal_strlit("-c");
    reveal_strlit("--config");
    reveal_strlit("--data-dir");
    reveal_strlit("--bind");
    reveal_strlit("--listen-port");
    reveal_strlit("--upstream-host");
    reveal_strlit("--upstream-port");
    assert("-c"@.len() == 2 && "--config"@.len() == 8 && "--data-dir"@.len() == 10);
    assert("--bind"@.len() == 6 && "--listen-port"@.len() == 13);
    assert("--upstream-host"@.len() == 15 && "--upstream-port"@.len() == 15);
    assert("--upstream-host"@[11] == 'h' && "--upstream-port"@[11] == 'p');
}

/// Options: an option behind a command line that is understood sets its own setting to the word
/// behind it, whatever was set before, and leaves every other setting as it was.
pub proof fn law_options_set_their_own_setting(
    a: ArgsView,
    words: Seq<Seq<char>>,
    value: Seq<char>,
    before: ArgsView,
)
    requires
        parsed_from(a, words, 0) == Ok::<ArgsView, ArgsError>(before),
    ensures
        parsed_from(a, words + seq!["-c"@, value], 0) == Ok::<ArgsView, ArgsError>(
            ArgsView { config_path: value, ..before },
        ),
        parsed_from(a, words + seq!["--config"@, value], 0) == Ok::<ArgsView, ArgsError>(
            ArgsView { config_path: value, ..before },
        ),
        parsed_from(a, words + seq!["--data-dir"@, value], 0) == Ok::<ArgsView, ArgsError>(
            ArgsView { data_dir: value, ..before },
        ),
        parsed_from(a, words + seq!["--bind"@, value], 0) == Ok::<ArgsView, ArgsError>(
            ArgsView { bind_addr: value, ..before },
        ),
        parsed_from(a, words + seq!["--upstream-host"@, value], 0) == Ok::<ArgsView, ArgsError>(
            ArgsView { upstream_host: value, ..before },
        ),
        number::u16_of(value) matches Some(port) ==> {
            &&& parsed_from(a, words + seq!["--listen-port"@, value], 0) == Ok::<
                ArgsView,
                ArgsError,
            >(ArgsView { listen_port: port, ..before })
            &&& parsed_from(a, words + seq!["--upstream-port"@, value], 0) == Ok::<
                ArgsView,
                ArgsError,
            >(ArgsView { upstream_port: port, ..before })
        },
        number::u16_of(value) is None ==> {
            &&& parsed_from(a, words + seq!["--listen-port"@, value], 0) == Err::<
                ArgsView,
                ArgsError,
            >(ArgsError::NotAPort(Flag::ListenPort))
            &&& parsed_from(a, words + seq!["--upstream-port"@, value], 0) == Err::<
                ArgsView,
                ArgsError,
            >(ArgsError::NotAPort(Flag::UpstreamPort))
        },
{
    options_are_flags();
    option_at_the_end(a, words, "-c"@, Flag::Config, value, 0, before);
    option_at_the_end(a, words, "--config"@, Flag::Config, value, 0, before);
    option_at_the_end(a, words, "--data-dir"@, Flag::DataDir, value, 0, before);
    option_at_the_end(a, words, "--bind"@, Flag::Bind, value, 0, before);
    option_at_the_end(a, words, "--listen-port"@, Flag::ListenPort, value, 0, before);
    option_at_the_end(a, words, "--upstream-host"@, Flag::UpstreamHost, value, 0, before);
    option_at_the_end(a, words, "--upstream-port"@, Flag::UpstreamPort, value, 0, before);
}

/// Missing values: an option at the end of the command line lacks its value, and is named.
pub proof fn law_option_at_the_end_lacks_its_value(
    a: ArgsView,
    words: Seq<Seq<char>>,
    before: ArgsView,
)
    requires
        parsed_from(a, words, 0) == Ok::<ArgsView, ArgsError>(before),
    ensures
        parsed_from(a, words + seq!["-c"@], 0) == Err::<ArgsView, ArgsError>(
            ArgsError::MissingValue(Flag::Config),
        ),
        parsed_from(a, words + seq!["--config"@], 0) == Err::<ArgsView, ArgsError>(
            ArgsError::MissingValue(Flag::Config),
        ),
        parsed_from(a, words + seq!["--data-dir"@], 0) == Err::<ArgsView, ArgsError>(
            ArgsError::MissingValue(Flag::DataDir),
        ),
        parsed_from(a, words + seq!["--bind"@], 0) == Err::<ArgsView, ArgsError>(
            ArgsError::MissingValue(Flag::Bind),
        ),
        parsed_from(a, words + seq!["--listen-port"@], 0) == Err::<ArgsView, ArgsError>(
            ArgsError::MissingValue(Flag::ListenPort),
        ),
        parsed_from(a, words + seq!["--upstream-host"@], 0) == Err::<ArgsView, ArgsError>(
            ArgsError::MissingValue(Flag::UpstreamHost),
        ),
        parsed_from(a, words + seq!["--upstream-port"@], 0) == Err::<ArgsView, ArgsError>(
            ArgsError::MissingValue(Flag::UpstreamPort),
        ),
{
    options_are_flags();
    let v = Seq::<char>::empty();
    option_at_the_end(a, words, "-c"@, Flag::Config, v, 0, before);
    option_at_the_end(a, words, "--config"@, Flag::Config, v, 0, before);
    option_at_the_end(a, words, "--data-dir"@, Flag::DataDir, v, 0, before);
    option_at_the_end(a, words, "--bind"@, Flag::Bind, v, 0, before);
    option_at_the_end(a, words, "--listen-port"@, Flag::ListenPort, v, 0, before);
    option_at_the_end(a, words, "--upstream-host"@, Flag::UpstreamHost, v, 0, before);
    option_at_the_end(a, words, "--upstream-port"@, Flag::UpstreamPort, v, 0, before);
}

/// The mode: a word that is no option sets the mode and nothing else, and one that starts with a
/// dash is refused with its place.
pub proof fn law_other_words_are_the_mode(
    a: ArgsView,
    words: Seq<Seq<char>>,
    word: Seq<char>,
    i: int,
    before: ArgsView,
)
    requires
        0 <= i <= words.len(),
        words.len() <= usize::MAX,
        parsed_from(a, words, i) == Ok::<ArgsView, ArgsError>(before),
        word.len() > 0,
        word != "-c"@ && word != "--config"@ && word != "--data-dir"@ && word != "--bind"@,
        word != "--listen-port"@ && word != "--upstream-host"@ && word != "--upstream-port"@,
    ensures
        word[0] != '-' ==> parsed_from(a, words + seq![word], i) == Ok::<ArgsView, ArgsError>(
            ArgsView { mode: word, ..before },
        ),
        word[0] == '-' ==> parsed_from(a, words + seq![word], i) == Err::<ArgsView, ArgsError>(
            ArgsError::UnknownFlag(words.len() as usize),
        ),
    decreases words.len() - i,
{
    reveal_strlit("-");
    assert("-"@ =~= seq!['-']);
    let longer = words + seq![word];
    let n = words.len() as int;
    if i >= n {
        assert(longer[n] == word);
        assert("-"@.is_prefix_of(word) <==> word[0] == '-') by {
            assert(word.subrange(0, 1) =~= seq![word[0]]);
            if "-"@.is_prefix_of(word) {
                assert("-"@[0] == word.subrange(0, 1)[0]);
            }
        }
        assert(parsed_from(ArgsView { mode: word, ..a }, longer, n + 1) == Ok::<
            ArgsView,
            ArgsError,
        >(ArgsView { mode: word, ..a }));
    } else {
        assert(longer[i] == words[i]);
        if let Some(flag) = flag_of(words[i]) {
            assert(longer[i + 1] == words[i + 1]);
            match with_flag(a, flag, words[i + 1]) {
                Ok(next) => {
                    law_other_words_are_the_mode(next, words, word, i + 2, before);
                },
                Err(_) => {},
            }
        } else {
            law_other_words_are_the_mode(
                ArgsView { mode: words[i], ..a },
                words,
                word,
                i + 1,
                before,
            );
        }
    }
}

/// Documented defaults: without options the program serves from `config.toml` and `data`, listens
/// on every address at the MQTT port, and knows the vendor's broker; the environment may name
/// another configuration and another host.
pub proof fn law_documented_defaults(path: Seq<char>, host: Seq<char>)
    ensures
        ({
            let plain = default_args(None, None);
            let named = default_args(Some(path), Some(host));
            &&& plain.mode == "serve"@ && plain.config_path == "config.toml"@
            &&& plain.data_dir == "data"@ && plain.bind_addr == "0.0.0.0"@
            &&& plain.listen_port == 1883 && plain.upstream_port == 1883
            &&& plain.upstream_host == "57.128.198.238"@
            &&& named == (ArgsView { config_path: path, upstream_host: host, ..plain })
        }),
{
}

/// Contents: what a command line is said to hold is what its fields hold.
pub proof fn law_args_show_their_fields(a: Args)
    ensures
        a@.mode == a.mode@ && a@.config_path == a.config_path@ && a@.data_dir == a.data_dir@,
        a@.bind_addr == a.bind_addr@ && a@.listen_port == a.listen_port,
        a@.upstream_host == a.upstream_host@ && a@.upstream_port == a.upstream_port,
{
}

} // verus!
