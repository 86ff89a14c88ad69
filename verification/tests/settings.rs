use perp_arb::app::AppSettings;
use perp_arb::cli::{parse_argument, Command, Invocation, USAGE};
use perp_arb::error::AppError;
use perp_arb::web_ui::index_html;

#[test]
fn settings_have_defaults() {
    let settings = AppSettings::default();
    assert_eq!(settings.bind_addr, "127.0.0.1:3000");
    assert_eq!(settings.store_path, "data/store.json");
    assert_eq!(settings.master_key_env, "PERP_ARB_MASTER_KEY");
}

#[test]
fn values_replace_defaults_unless_they_are_blank() {
    let settings = AppSettings::from_values(Some(" 0.0.0.0:80 "), Some("  "), None);
    assert_eq!(settings.bind_addr, "0.0.0.0:80");
    assert_eq!(settings.store_path, "data/store.json");
    assert_eq!(settings.master_key_env, "PERP_ARB_MASTER_KEY");
    let settings = AppSettings::from_values(None, Some("x.json"), Some("KEY\n"));
    assert_eq!(settings.bind_addr, "127.0.0.1:3000");
    assert_eq!(settings.store_path, "x.json");
    assert_eq!(settings.master_key_env, "KEY");
}

#[test]
fn arguments_name_commands() {
    assert!(matches!(parse_argument(None), Ok(Invocation::Run(Command::Serve))));
    assert!(matches!(parse_argument(Some("serve")), Ok(Invocation::Run(Command::Serve))));
    assert!(matches!(parse_argument(Some("print-plan")), Ok(Invocation::Run(Command::PrintPlan))));
    assert!(matches!(parse_argument(Some("--help")), Ok(Invocation::Help)));
    assert!(matches!(parse_argument(Some("-h")), Ok(Invocation::Help)));
    assert!(matches!(parse_argument(Some("help")), Ok(Invocation::Help)));
    assert_eq!(USAGE, "perp-arb [serve|print-plan]");
}

#[test]
fn other_arguments_are_refused() {
    match parse_argument(Some("Serve")) {
        Err(AppError::Validation(message)) => assert_eq!(
            message,
            "unknown command `Serve`; supported commands: `serve`, `print-plan`"
        ),
        _ => panic!("not refused"),
    }
}

#[test]
fn the_page_is_a_whole_document() {
    let page = index_html();
    assert!(page.starts_with("<!doctype html>\n<html lang=\"zh-CN\">"));
    assert!(page.ends_with("</html>"));
    assert!(page.contains("<title>perp-arb admin</title>"));
}

#[test]
fn errors_have_messages() {
    assert_eq!(AppError::lock("store").message(), "store lock is poisoned");
    assert_eq!(AppError::NotFound("gone".to_owned()).message(), "gone");
}
