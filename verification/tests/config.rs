use cabin::api::config_files::{
    is_whole_number, option_kind, option_value_text, set_option, CabinOptions, OptionKind, SetOptionError,
};
use cabin::api::context::{line_column, CompilerConfiguration, SourceFilePosition};
use cabin::api::macros::CabinError;
use cabin::compiler::{get_native_executable_extension, Os};
use cabin::lexer::Span;

#[test]
fn default_options() {
    let options = CabinOptions::new();
    assert_eq!(options.tab_size(), 4);
    assert_eq!(options.theme, "catppuccin-mocha");
    assert_eq!(options.tabs(0), "");
    assert_eq!(options.tabs(2), "        ");
}

#[test]
fn configuration_tabs() {
    let configuration = CompilerConfiguration::new();
    assert_eq!(configuration.tab(), "    ");
    assert_eq!(configuration.tabs(3).len(), 12);
    assert_eq!(configuration.tabs(0), "");
}

#[test]
fn source_positions() {
    let position = SourceFilePosition::new(3, 9, "main.cabin", "run".to_string());
    assert_eq!(position.line(), 3);
    assert_eq!(position.column(), 9);
    assert_eq!(position.file_name(), "main.cabin");
    assert_eq!(position.function_name(), "run");
}

#[test]
fn line_and_column_of_a_span() {
    let program = "let x = 1;\nlet y = x;\n";
    assert_eq!(line_column(program, Span { start: 0, length: 1 }), (1, 1));
    assert_eq!(line_column(program, Span { start: 4, length: 1 }), (1, 5));
    assert_eq!(line_column(program, Span { start: 15, length: 1 }), (2, 5));
    assert_eq!(line_column(program, Span { start: 100, length: 1 }), (3, 1));
}

#[test]
fn executable_extensions() {
    assert_eq!(get_native_executable_extension(Os::Windows), ".exe");
    assert_eq!(get_native_executable_extension(Os::Unix), "");
}

#[test]
fn empty_error_report() {
    let error = CabinError::default();
    assert!(error.base.is_none() && error.details.is_none() && error.at.is_none() && error.process.is_none());
}

#[test]
fn options_have_kinds() {
    assert_eq!(option_kind("tab-size"), Some(OptionKind::Number));
    assert_eq!(option_kind("developer-mode"), Some(OptionKind::Flag));
    assert_eq!(option_kind("theme"), Some(OptionKind::Theme));
    assert_eq!(option_kind("colour"), None);
}

#[test]
fn option_values_are_checked() {
    assert_eq!(option_value_text(OptionKind::Flag, "true").as_deref(), Some("true"));
    assert_eq!(option_value_text(OptionKind::Flag, "yes"), None);
    assert_eq!(option_value_text(OptionKind::Number, "-12").as_deref(), Some("-12"));
    assert_eq!(option_value_text(OptionKind::Number, "four"), None);
    assert_eq!(option_value_text(OptionKind::Theme, "one-midnight").as_deref(), Some("\"one-midnight\""));
    assert_eq!(option_value_text(OptionKind::Theme, "dark"), None);
}

#[test]
fn whole_numbers_fit_in_64_bits() {
    assert!(is_whole_number("0"));
    assert!(is_whole_number("+7"));
    assert!(is_whole_number("-9223372036854775808"));
    assert!(is_whole_number("9223372036854775807"));
    assert!(!is_whole_number("9223372036854775808"));
    assert!(!is_whole_number(""));
    assert!(!is_whole_number("-"));
    assert!(!is_whole_number("1 2"));
}

const CONFIG: &str = "[information]\nname = \"x\"\n\n[options]\nquiet = true\n\n[libraries]\n";

#[test]
fn options_are_written_into_the_options_table() {
    assert_eq!(
        set_option(CONFIG, "quiet", "false"),
        Ok("[information]\nname = \"x\"\n\n[options]\nquiet = false\n\n[libraries]\n".to_string())
    );
    assert_eq!(
        set_option(CONFIG, "theme", "one-midnight"),
        Ok("[information]\nname = \"x\"\n\n[options]\nquiet = true\ntheme = \"one-midnight\"\n\n[libraries]\n".to_string())
    );
}

#[test]
fn options_table_is_added_when_missing() {
    let edited = set_option("[information]\nname = \"x\"\n", "tab-size", "2").unwrap();
    assert!(edited.starts_with("[information]\nname = \"x\"\n"));
    assert!(edited.contains("[options]"));
    assert!(edited.contains("tab-size = 2"));
}

#[test]
fn setting_options_reports_each_error() {
    assert_eq!(set_option(CONFIG, "colour", "red"), Err(SetOptionError::UnknownOption));
    assert_eq!(set_option(CONFIG, "quiet", "yes"), Err(SetOptionError::InvalidValue));
    assert_eq!(set_option(CONFIG, "theme", "solarized"), Err(SetOptionError::InvalidValue));
    assert_eq!(set_option("[options", "quiet", "true"), Err(SetOptionError::InvalidDocument));
    assert_eq!(set_option("options = 3\n", "quiet", "true"), Err(SetOptionError::InvalidDocument));
}
