use ruxius::cli::{
    Cli, Command, ConfigAction, ExtAction, PhpAction, DEFAULT_HEIGHT, DEFAULT_LOG_LINES, DEFAULT_WIDTH,
};

#[test]
fn command_values_carry_their_arguments() {
    let cli = Cli {
        command: Some(Command::Build {
            app_path: "my-app".to_string(),
            php: "php74".to_string(),
            output_path: "MyApp.exe".to_string(),
            title: None,
            width: DEFAULT_WIDTH,
            height: DEFAULT_HEIGHT,
            force: false,
            watch: false,
            icon: None,
            php_ini: vec!["memory_limit=512M".to_string()],
        }),
    };
    match &cli.command {
        Some(Command::Build { width, height, .. }) => assert_eq!((*width, *height), (1400, 900)),
        other => panic!("unexpected {other:?}"),
    }
    let ext = Command::Php {
        action: PhpAction::Ext {
            action: ExtAction::Enable { php: "php74".to_string(), extension: "curl".to_string() },
        },
    };
    assert!(matches!(ext, Command::Php { action: PhpAction::Ext { action: ExtAction::Enable { .. } } }));
    assert!(Cli { command: None }.command.is_none());
    assert_eq!(DEFAULT_LOG_LINES, 20);
    let logs = Command::Logs { lines: DEFAULT_LOG_LINES };
    assert!(matches!(logs, Command::Logs { lines: 20 }));
    let export = Command::Config { action: ConfigAction::Export { path: "r.json".to_string() } };
    assert!(matches!(export, Command::Config { action: ConfigAction::Export { .. } }));
}
