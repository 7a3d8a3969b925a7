use rusty_2048::app_settings::AppSettings;
use rusty_2048::my_error::MyError;

#[test]
fn test_parse_grid_size() {
    // Valid input
    {
        let mut settings = AppSettings::default();

        let result = settings.parse_arg("--grid=3,4");
        assert!(result.is_ok());
        assert_eq!(settings.grid_size, (3, 4));
    }

    // Invalid input: only 1 token
    {
        let mut settings = AppSettings::default();

        let result = settings.parse_arg("--grid=what");
        assert!(result.is_err());
    }

    // Invalid input: 3 tokens
    {
        let mut settings = AppSettings::default();

        let result = settings.parse_arg("--grid=3,4,5");
        assert!(result.is_err());
    }

    // Invalid input: 2 non-integers
    {
        let mut settings = AppSettings::default();

        let result = settings.parse_arg("--grid=2.4,6.8");
        assert!(result.is_err());
    }

    // Invalid input: 2 non-integers
    {
        let mut settings = AppSettings::default();

        let result = settings.parse_arg("--grid=2.4,6.8");
        assert!(result.is_err());
    }

    // Invalid input: 2 integers that are too small
    {
        let mut settings = AppSettings::default();

        let result = settings.parse_arg("--grid=1,1");
        assert!(result.is_err());
    }
}

#[test]
fn default_settings() {
    let settings = AppSettings::default();
    assert!(!settings.help);
    assert!(!settings.load_from_save_file);
    assert_eq!(settings.grid_size, (4, 5));
    assert_eq!(settings.tty_path, None);
}

#[test]
fn flags_set_their_settings() {
    let args: Vec<String> = ["--help", "--load", "--grid= 6 ,+8", "--tty=/dev/pts/3"]
        .iter()
        .map(|s| s.to_string())
        .collect();
    let settings = AppSettings::try_from_args(&args).unwrap();
    assert!(settings.help);
    assert!(settings.load_from_save_file);
    assert_eq!(settings.grid_size, (6, 8));
    assert_eq!(settings.tty_path, Some("/dev/pts/3".to_string()));
}

#[test]
fn unknown_argument_is_an_error() {
    let args = vec!["--grid=3,3".to_string(), "--fast".to_string(), "--grid=x".to_string()];
    match AppSettings::try_from_args(&args) {
        Err(MyError::InvalidCommandLineArgument { arg }) => assert_eq!(arg, "--fast"),
        other => panic!("unexpected {:?}", other),
    }
}

#[test]
fn grid_size_errors_name_the_bad_text() {
    match AppSettings::parse_grid_size("3,x") {
        Err(MyError::InvalidGridSize { expr }) => assert_eq!(expr, "x"),
        other => panic!("unexpected {:?}", other),
    }
    match AppSettings::parse_grid_size("1,4") {
        Err(MyError::InvalidGridSize { expr }) => assert_eq!(expr, "1"),
        other => panic!("unexpected {:?}", other),
    }
    match AppSettings::parse_grid_size("3;4") {
        Err(MyError::InvalidGridSize { expr }) => assert_eq!(expr, "3;4"),
        other => panic!("unexpected {:?}", other),
    }
    assert_eq!(AppSettings::parse_grid_size("\t12,2 ").unwrap(), (12, 2));
    assert!(AppSettings::parse_grid_dimension("-3").is_err());
    assert!(AppSettings::parse_grid_dimension("+").is_err());
    assert!(AppSettings::parse_grid_dimension("").is_err());
    assert!(AppSettings::parse_grid_dimension("99999999999999999999999").is_err());
    assert_eq!(AppSettings::parse_grid_dimension("007").unwrap(), 7);
}

#[test]
fn failed_argument_leaves_settings_unchanged() {
    let mut settings = AppSettings::default();
    assert!(settings.parse_arg("--grid=9,x").is_err());
    assert_eq!(settings.grid_size, (4, 5));
}

#[test]
fn usage_page_lists_the_flags() {
    let usage = AppSettings::get_usage();
    assert!(usage.starts_with("Usage:\nRun the game directly"));
    assert!(usage.contains("  --grid=<num_rows>,<num_cols>      Start the game with a specific grid size.\n"));
    assert!(usage.ends_with("Move all tiles toward a direction.\n\n"));
}

#[test]
fn error_messages() {
    let e = MyError::InvalidCommandLineArgument { arg: "--x".to_string() };
    assert_eq!(e.message(), "Invalid command line argument: --x");
    let e = MyError::InvalidGridSize { expr: "1".to_string() };
    assert_eq!(e.message(), "Invalid grid size: 1\nGrid size must be two integers >= 2");
    let e = MyError::LoggerInitializationFailed { tty_path: "/dev/x".to_string() };
    assert_eq!(e.message(), "Could not initialize logger to TTY: /dev/x");
    let e = MyError::SaveFileNotFound { save_file_path: "save.bin".to_string() };
    assert_eq!(e.message(), "Could not find save file: save.bin");
    let e = MyError::SaveFileFailedToLoad { save_file_path: "save.bin".to_string() };
    assert_eq!(e.message(), "Failed to load from corrupted save file: save.bin");
    let e = MyError::SaveFileFailedToSave { save_file_path: "save.bin".to_string() };
    assert_eq!(e.message(), "Failed to save to file: save.bin");
}
