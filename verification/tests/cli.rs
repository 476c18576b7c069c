use foc_devnet::cli::{BuildCommands, Cli, CliError, Commands};

#[test]
fn test_parse_logs_default() {
    let cli = Cli::try_parse_from(["foc-devnet", "logs"]).unwrap();

    match cli.command {
        Commands::Logs { follow, tail } => {
            assert!(!follow);
            assert_eq!(tail, None);
        }
        _ => panic!("expected logs command"),
    }
}

#[test]
fn test_parse_logs_follow_long() {
    let cli = Cli::try_parse_from(["foc-devnet", "logs", "--follow"]).unwrap();

    match cli.command {
        Commands::Logs { follow, tail } => {
            assert!(follow);
            assert_eq!(tail, None);
        }
        _ => panic!("expected logs command"),
    }
}

#[test]
fn test_parse_logs_follow_short() {
    let cli = Cli::try_parse_from(["foc-devnet", "logs", "-f"]).unwrap();

    match cli.command {
        Commands::Logs { follow, tail } => {
            assert!(follow);
            assert_eq!(tail, None);
        }
        _ => panic!("expected logs command"),
    }
}

#[test]
fn test_parse_logs_follow_tail() {
    let cli = Cli::try_parse_from(["foc-devnet", "logs", "--follow", "--tail", "50"]).unwrap();

    match cli.command {
        Commands::Logs { follow, tail } => {
            assert!(follow);
            assert_eq!(tail, Some(50));
        }
        _ => panic!("expected logs command"),
    }
}

#[test]
fn test_parse_logs_tail_requires_follow() {
    assert!(Cli::try_parse_from(["foc-devnet", "logs", "--tail", "50"]).is_err());
}

#[test]
fn tail_before_follow_with_equals_and_short_flag() {
    let cli = Cli::try_parse_from(["foc-devnet", "logs", "--tail=7", "-f"]).unwrap();
    match cli.command {
        Commands::Logs { follow, tail } => {
            assert!(follow);
            assert_eq!(tail, Some(7));
        }
        _ => panic!("expected logs command"),
    }
}

#[test]
fn tail_requires_follow_error_names_follow() {
    match Cli::try_parse_from(["foc-devnet", "logs", "--tail", "5"]) {
        Err(CliError::MissingRequired { arg }) => assert_eq!(arg, "--follow"),
        other => panic!("unexpected result: {:?}", other),
    }
}

#[test]
fn tail_value_must_be_a_number() {
    match Cli::try_parse_from(["foc-devnet", "logs", "-f", "--tail", "many"]) {
        Err(CliError::InvalidValue { arg, value }) => {
            assert_eq!(arg, "--tail");
            assert_eq!(value, "many");
        }
        other => panic!("unexpected result: {:?}", other),
    }
    assert!(Cli::try_parse_from(["foc-devnet", "logs", "-f", "--tail=-1"]).is_err());
    assert!(Cli::try_parse_from(["foc-devnet", "logs", "-f", "--tail=99999999999999999999999"]).is_err());
}

#[test]
fn tail_without_value_is_missing_value() {
    match Cli::try_parse_from(["foc-devnet", "logs", "-f", "--tail"]) {
        Err(CliError::MissingValue { arg }) => assert_eq!(arg, "--tail"),
        other => panic!("unexpected result: {:?}", other),
    }
    match Cli::try_parse_from(["foc-devnet", "logs", "--tail", "--follow"]) {
        Err(CliError::MissingValue { arg }) => assert_eq!(arg, "--tail"),
        other => panic!("unexpected result: {:?}", other),
    }
}

#[test]
fn repeated_flag_is_rejected() {
    match Cli::try_parse_from(["foc-devnet", "logs", "-f", "--follow"]) {
        Err(CliError::DuplicateArgument { arg }) => assert_eq!(arg, "--follow"),
        other => panic!("unexpected result: {:?}", other),
    }
    assert!(Cli::try_parse_from(["foc-devnet", "logs", "-ff"]).is_err());
}

#[test]
fn help_and_missing_subcommand() {
    assert!(matches!(Cli::try_parse_from(["foc-devnet", "--help"]), Err(CliError::Help)));
    assert!(matches!(Cli::try_parse_from(["foc-devnet", "help"]), Err(CliError::Help)));
    assert!(matches!(Cli::try_parse_from(["foc-devnet", "logs", "-h"]), Err(CliError::Help)));
    assert!(matches!(Cli::try_parse_from(["foc-devnet"]), Err(CliError::MissingSubcommand)));
    assert!(matches!(Cli::try_parse_from(["foc-devnet", "build"]), Err(CliError::MissingSubcommand)));
    match Cli::try_parse_from(["foc-devnet", "launch"]) {
        Err(CliError::UnknownSubcommand { name }) => assert_eq!(name, "launch"),
        other => panic!("unexpected result: {:?}", other),
    }
}

#[test]
fn start_clean_status_stop_version() {
    assert!(matches!(
        Cli::try_parse_from(["foc-devnet", "start", "--parallel"]).unwrap().command,
        Commands::Start { parallel: true }
    ));
    assert!(matches!(
        Cli::try_parse_from(["foc-devnet", "start"]).unwrap().command,
        Commands::Start { parallel: false }
    ));
    assert!(matches!(
        Cli::try_parse_from(["foc-devnet", "clean", "--images"]).unwrap().command,
        Commands::Clean { all: false, images: true }
    ));
    assert!(matches!(Cli::try_parse_from(["foc-devnet", "stop"]).unwrap().command, Commands::Stop));
    assert!(matches!(Cli::try_parse_from(["foc-devnet", "status"]).unwrap().command, Commands::Status));
    assert!(matches!(
        Cli::try_parse_from(["foc-devnet", "version", "--notty"]).unwrap().command,
        Commands::Version { notty: true }
    ));
    match Cli::try_parse_from(["foc-devnet", "stop", "--all"]) {
        Err(CliError::UnknownArgument { arg }) => assert_eq!(arg, "--all"),
        other => panic!("unexpected result: {:?}", other),
    }
    match Cli::try_parse_from(["foc-devnet", "start", "--parallel=yes"]) {
        Err(CliError::UnexpectedValue { arg }) => assert_eq!(arg, "--parallel=yes"),
        other => panic!("unexpected result: {:?}", other),
    }
}

#[test]
fn init_reads_source_locations() {
    let cli = Cli::try_parse_from([
        "foc-devnet",
        "init",
        "--curio",
        "gittag:pdp/v1.0",
        "--lotus=latesttag:v*",
        "--filecoin-services",
        "local:/src/fs",
        "--proof-params-dir=/params",
        "--rand",
    ])
    .unwrap();
    match cli.command {
        Commands::Init { curio, lotus, filecoin_services, pdp, proof_params_dir, rand, no_docker_build } => {
            assert_eq!(curio.as_deref(), Some("gittag:pdp/v1.0"));
            assert_eq!(lotus.as_deref(), Some("latesttag:v*"));
            assert_eq!(filecoin_services.as_deref(), Some("local:/src/fs"));
            assert_eq!(pdp, None);
            assert_eq!(proof_params_dir.as_deref(), Some("/params"));
            assert!(rand);
            assert!(!no_docker_build);
        }
        _ => panic!("expected init command"),
    }
}

#[test]
fn build_reads_optional_path() {
    match Cli::try_parse_from(["foc-devnet", "build", "lotus", "/src/lotus"]).unwrap().command {
        Commands::Build { build_command: BuildCommands::Lotus { path } } => {
            assert_eq!(path.as_deref(), Some("/src/lotus"))
        }
        _ => panic!("expected build lotus"),
    }
    match Cli::try_parse_from(["foc-devnet", "build", "curio"]).unwrap().command {
        Commands::Build { build_command: BuildCommands::Curio { path } } => assert_eq!(path, None),
        _ => panic!("expected build curio"),
    }
    match Cli::try_parse_from(["foc-devnet", "build", "curio", "--", "-dir"]).unwrap().command {
        Commands::Build { build_command: BuildCommands::Curio { path } } => {
            assert_eq!(path.as_deref(), Some("-dir"))
        }
        _ => panic!("expected build curio"),
    }
    match Cli::try_parse_from(["foc-devnet", "build", "lotus", "a", "b"]) {
        Err(CliError::UnexpectedArgument { arg }) => assert_eq!(arg, "b"),
        other => panic!("unexpected result: {:?}", other),
    }
}

#[test]
fn build_path_must_not_be_empty() {
    match Cli::try_parse_from(["foc-devnet", "build", "lotus", ""]) {
        Err(CliError::EmptyValue { arg }) => assert_eq!(arg, "[PATH]"),
        other => panic!("unexpected result: {:?}", other),
    }
}
