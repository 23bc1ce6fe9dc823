//! Command lines.

use aquilo::args::{Args, ArgsError, Flag, Mode};

fn parse(words: &[&str]) -> Result<Args, ArgsError> {
    let words: Vec<String> = words.iter().map(|w| w.to_string()).collect();
    Args::parse(&words, None, None)
}

#[test]
fn an_empty_command_line_serves() {
    let a = parse(&[]).unwrap();
    assert_eq!(a.selected_mode(), Some(Mode::Serve));
    assert_eq!(a.config_path, "config.toml");
    assert_eq!(a.data_dir, "data");
    assert_eq!(a.bind_addr, "0.0.0.0");
    assert_eq!((a.listen_port, a.upstream_port), (1883, 1883));
    assert_eq!(a.upstream_host, "57.128.198.238");
}

#[test]
fn the_environment_stands_in_for_options() {
    let a = Args::parse(&vec![], Some("/etc/a.toml".into()), Some("host".into())).unwrap();
    assert_eq!(a.config_path, "/etc/a.toml");
    assert_eq!(a.upstream_host, "host");
    let words = vec!["-c".to_string(), "b.toml".to_string()];
    let a = Args::parse(&words, Some("/etc/a.toml".into()), None).unwrap();
    assert_eq!(a.config_path, "b.toml");
}

#[test]
fn options_and_mode_come_in_any_order() {
    let a = parse(&[
        "--listen-port", "18883", "learn", "--bind", "127.0.0.1", "--data-dir", "d",
        "--upstream-host", "h", "--upstream-port", "+7", "--config", "x", "-c", "y",
    ])
    .unwrap();
    assert_eq!(a.selected_mode(), Some(Mode::Learn));
    let o = a.learn_options();
    assert_eq!(o.onboard.bind_addr, "127.0.0.1");
    assert_eq!(o.onboard.listen_port, 18883);
    assert_eq!(o.onboard.out_config, "y");
    assert_eq!(o.onboard.data_dir, "d");
    assert_eq!((o.upstream_host.as_str(), o.upstream_port), ("h", 7));
    assert_eq!(a.onboard_options().out_config, "y");
    assert_eq!(parse(&["observe"]).unwrap().selected_mode(), Some(Mode::Observe));
    assert_eq!(parse(&["serve", "dance"]).unwrap().selected_mode(), None);
    assert_eq!(parse(&["--bind", "--config"]).unwrap().bind_addr, "--config");
}

#[test]
fn every_error_comes_up() {
    assert_eq!(parse(&["-c"]).unwrap_err(), ArgsError::MissingValue(Flag::Config));
    assert_eq!(
        parse(&["serve", "--upstream-host"]).unwrap_err(),
        ArgsError::MissingValue(Flag::UpstreamHost)
    );
    assert_eq!(
        parse(&["--listen-port", "65536"]).unwrap_err(),
        ArgsError::NotAPort(Flag::ListenPort)
    );
    assert_eq!(
        parse(&["--upstream-port", "-1"]).unwrap_err(),
        ArgsError::NotAPort(Flag::UpstreamPort)
    );
    assert_eq!(parse(&["serve", "--verbose"]).unwrap_err(), ArgsError::UnknownFlag(1));
    assert_eq!(parse(&["-"]).unwrap_err(), ArgsError::UnknownFlag(0));
}
