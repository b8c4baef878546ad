use ice_cream_shop::args::interpret_command;
use ice_cream_shop::args::Args;
use ice_cream_shop::args::CommandAction;
use ice_cream_shop::args::TraceLevel;

fn words(list: Vec<&str>) -> Vec<String> {
    list.into_iter().map(|w| w.to_string()).collect()
}

#[test]
fn defaults_apply_with_no_flags() {
    let args = Args::parse_args(&words(vec![])).expect("defaults parse");
    assert_eq!(args.port, "9999");
    assert_eq!(args.tracing_level, TraceLevel::Info);
    assert_eq!(args.input_file, "data/stock_files/test_stock.csv");
    assert_eq!(args.backup_file_prefix, "backup");
    assert_eq!(args.max_orders_before_backup, 25);
}

#[test]
fn every_flag_sets_its_value() {
    let args = Args::parse_args(&words(vec![
        "-d", "debug", "--inventory", "stock.csv", "-b", "copy", "--backup-frequency", "7",
    ]))
    .expect("the flags parse");
    assert_eq!(args.tracing_level, TraceLevel::Debug);
    assert_eq!(args.input_file, "stock.csv");
    assert_eq!(args.backup_file_prefix, "copy");
    assert_eq!(args.max_orders_before_backup, 7);
}

#[test]
fn levels_read_without_regard_to_case() {
    let args = Args::parse_args(&words(vec!["-d", "WaRn"])).expect("the level parses");
    assert_eq!(args.tracing_level, TraceLevel::Warn);
}

#[test]
fn bad_level_refuses_the_line() {
    assert!(Args::parse_args(&words(vec!["-d", "shouting"])).is_none());
}

#[test]
fn bad_frequency_refuses_the_line() {
    assert!(Args::parse_args(&words(vec!["-f", "often"])).is_none());
}

#[test]
fn help_and_unknown_words_refuse_the_line() {
    assert!(Args::parse_args(&words(vec!["-h"])).is_none());
    assert!(Args::parse_args(&words(vec!["--help"])).is_none());
    assert!(Args::parse_args(&words(vec!["--frobnicate"])).is_none());
}

#[test]
fn trailing_flag_without_value_is_ignored() {
    let args = Args::parse_args(&words(vec!["-i"])).expect("the line still parses");
    assert_eq!(args.input_file, "data/stock_files/test_stock.csv");
}

#[test]
fn terminal_commands_are_read() {
    assert_eq!(interpret_command("q"), CommandAction::Exit);
    assert_eq!(interpret_command("b"), CommandAction::Backup);
    assert_eq!(interpret_command("x"), CommandAction::Unknown);
    assert_eq!(interpret_command(""), CommandAction::Unknown);
}
