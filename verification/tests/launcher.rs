//! The command line.

use rskynet::launcher::config_argument;

fn args(list: &[&str]) -> Vec<String> {
    list.iter().map(|arg| arg.to_string()).collect()
}

#[test]
fn missing_config_path_reports_usage() {
    let err = config_argument(&args(&["node"])).expect_err("an argument is missing");
    assert!(err.message().contains("用法：node <config.toml>"));
}

#[test]
fn extra_arguments_report_usage() {
    let err = config_argument(&args(&["node", "one.toml", "two.toml"]))
        .expect_err("there are too many arguments");
    assert!(err.message().contains("用法：node <config.toml>"));
}

#[test]
fn one_path_is_taken() {
    assert_eq!(config_argument(&args(&["node", "one.toml"])).unwrap(), 1);
    let err = config_argument(&args(&[])).expect_err("there is nothing");
    assert!(err.message().contains("用法：rskynet-main <config.toml>"));
}
