use baryon::layout::viewport_geometry;
use baryon::startup::{parse_startup_args, StartupAction};
use baryon::settings::{
    default_loaded_settings, default_settings_path_from_env, parse_settings, render_settings,
    resolve_loaded_settings, ParsedSettings, DEFAULT_MINIMAP_ENABLED, DEFAULT_THEME_NAME,
    DEFAULT_WRAP_ENABLED,
};
use baryon::status::{format_file_size, should_render_preview_snapshot_fallback, status_right_text};

#[test]
fn viewport_geometry_matches_draw_constraints() {
    let geometry = viewport_geometry(999, 120, true);
    assert_eq!(geometry.gutter_width, 4);
    assert_eq!(geometry.minimap_width, 14);
    assert_eq!(geometry.separator_width, 1);
    assert_eq!(geometry.text_width, 101);
}

#[test]
fn version_flag_exits_before_app_start() {
    assert_eq!(
        parse_startup_args(vec!["baryon".to_string(), "--version".to_string()]),
        StartupAction::PrintVersion
    );
    assert_eq!(parse_startup_args(vec!["baryon".to_string(), "-v".to_string()]), StartupAction::PrintVersion);
}

#[test]
fn help_flag_exits_before_app_start() {
    assert_eq!(
        parse_startup_args(vec!["baryon".to_string(), "--help".to_string()]),
        StartupAction::PrintHelp { program_name: "baryon".to_string() }
    );
    assert_eq!(
        parse_startup_args(vec!["/usr/bin/vi".to_string(), "-h".to_string()]),
        StartupAction::PrintHelp { program_name: "vi".to_string() }
    );
}

#[test]
fn first_non_flag_argument_is_used_as_initial_file() {
    assert_eq!(
        parse_startup_args(vec!["baryon".to_string(), "--unknown".to_string(), "notes.txt".to_string()]),
        StartupAction::Run { initial_file: Some("notes.txt".to_string()) }
    );
}

#[test]
fn double_dash_allows_dash_prefixed_filenames() {
    assert_eq!(
        parse_startup_args(vec!["baryon".to_string(), "--".to_string(), "-scratch".to_string()]),
        StartupAction::Run { initial_file: Some("-scratch".to_string()) }
    );
}

#[test]
fn status_bar_reports_wrap_state_before_file_size() {
    assert_eq!(status_right_text(None, true, 1024, 4, 8), "WRAP | 1.0 KB | UTF-8 | 4:8 ");
    assert_eq!(
        status_right_text(Some("3/9"), false, 1024, 4, 8),
        "3/9 | NOWRAP | 1.0 KB | UTF-8 | 4:8 "
    );
}

#[test]
fn preview_snapshot_fallback_waits_for_async_preview() {
    assert!(!should_render_preview_snapshot_fallback(false, true));
    assert!(should_render_preview_snapshot_fallback(false, false));
    assert!(!should_render_preview_snapshot_fallback(true, true));
}

fn float_file_size(bytes: u64) -> String {
    const KB: u64 = 1024;
    const MB: u64 = 1024 * KB;
    const GB: u64 = 1024 * MB;
    if bytes >= GB {
        format!("{:.1} GB", bytes as f64 / GB as f64)
    } else if bytes >= MB {
        format!("{:.1} MB", bytes as f64 / MB as f64)
    } else if bytes >= KB {
        format!("{:.1} KB", bytes as f64 / KB as f64)
    } else {
        format!("{} B", bytes)
    }
}

#[test]
fn file_size_matches_floating_point_formatting() {
    let mut samples: Vec<u64> = vec![
        0, 1, 1023, 1024, 1075, 1126, 1177, 1280, 1331, 1536, 2304, 10_240, 1_048_575,
        1_048_576, 1_310_720, 1_363_149, 5_242_880, 1_073_741_823, 1_073_741_824,
        1_342_177_280, 9_007_199_254_740_991, 9_007_199_254_740_993, 9_007_199_254_740_995,
        18_014_398_509_481_985, 123_456_789_012_345_678, u64::MAX - 1, u64::MAX,
    ];
    let mut x: u64 = 0x9e37_79b9_7f4a_7c15;
    for _ in 0..2000 {
        x ^= x << 13;
        x ^= x >> 7;
        x ^= x << 17;
        samples.push(x >> (x % 60));
        samples.push(256 * (2 * (x % 100_000) + 1));
    }
    for bytes in samples {
        assert_eq!(format_file_size(bytes), float_file_size(bytes), "bytes = {bytes}");
    }
}

#[test]
fn file_size_rounds_ties_to_even() {
    assert_eq!(format_file_size(1280), "1.2 KB");
    assert_eq!(format_file_size(1331), "1.3 KB");
    assert_eq!(format_file_size(512), "512 B");
}

#[test]
fn parse_settings_reads_ui_theme_with_comments() {
    let settings = parse_settings(
        r#"
				# comment
				[ui]
				theme = "gruvbox" # trailing
				minimap = false
				wrap = false
			"#,
    )
    .expect("parse settings");
    assert_eq!(settings.theme_name.as_deref(), Some("gruvbox"));
    assert_eq!(settings.minimap_enabled, Some(false));
    assert_eq!(settings.wrap_enabled, Some(false));
}

#[test]
fn parse_settings_rejects_invalid_theme_value() {
    let err = parse_settings("[ui]\ntheme = onedark\n").expect_err("invalid parse");
    assert!(err.contains("quoted string"));
}

#[test]
fn parse_settings_rejects_invalid_minimap_value() {
    let err = parse_settings("[ui]\nminimap = maybe\n").expect_err("invalid parse");
    assert!(err.contains("true or false"));
}

#[test]
fn render_settings_writes_canonical_toml() {
    assert_eq!(
        render_settings("tokyonight", false, false),
        "[ui]\ntheme = \"tokyonight\"\nminimap = false\nwrap = false\n"
    );
}

#[test]
fn rendered_settings_parse_back() {
    let text = render_settings("we\"ird\\name\t", true, false);
    let parsed = parse_settings(&text).expect("parse rendered settings");
    assert_eq!(parsed.theme_name.as_deref(), Some("we\"ird\\name\t"));
    assert_eq!(parsed.minimap_enabled, Some(true));
    assert_eq!(parsed.wrap_enabled, Some(false));
}

#[test]
fn settings_errors_name_their_line() {
    assert_eq!(parse_settings("[ui]\n\nwrap = 1\n"), Err("line 3: minimap must be true or false".to_string()));
    assert_eq!(parse_settings("[ui\n"), Err("line 1: invalid section header".to_string()));
    assert_eq!(parse_settings("[ui]\nnonsense\n"), Err("line 2: expected key = value".to_string()));
    assert_eq!(parse_settings("[ui]\ntheme = \"a\\q\"\n"), Err("line 2: unsupported escape \\q".to_string()));
    assert_eq!(parse_settings("[ui]\ntheme = \"abc\n"), Err("line 2: unterminated string".to_string()));
    assert_eq!(parse_settings("[ui]\ntheme = \"abc\" x\n"), Err("line 2: unexpected trailing content".to_string()));
    assert_eq!(
        parse_settings("[other]\ntheme = nonsense\n[ui]\nwrap = true # on\n"),
        Ok(ParsedSettings { theme_name: None, minimap_enabled: None, wrap_enabled: Some(true) })
    );
}

#[test]
fn xdg_settings_path_takes_precedence_over_home() {
    let path = default_settings_path_from_env(Some("/tmp/xdg-config"), Some("/home/test")).expect("settings path");
    assert_eq!(path, "/tmp/xdg-config/baryon/settings.toml");
}

#[test]
fn home_settings_path_is_used_when_xdg_is_missing() {
    let path = default_settings_path_from_env(None, Some("/home/test")).expect("settings path");
    assert_eq!(path, "/home/test/.config/baryon/settings.toml");
    let path = default_settings_path_from_env(Some(""), Some("/home/test")).expect("settings path");
    assert_eq!(path, "/home/test/.config/baryon/settings.toml");
    assert_eq!(default_settings_path_from_env(None, Some("")), None);
}

#[test]
fn load_settings_falls_back_on_invalid_theme_name_and_keeps_preferences() {
    let contents = "[ui]\ntheme = \"not-a-theme\"\nminimap = false\nwrap = false\n";
    let loaded = resolve_loaded_settings(parse_settings(contents), false);
    assert_eq!(loaded.theme_name, DEFAULT_THEME_NAME);
    assert!(!loaded.minimap_enabled);
    assert!(!loaded.wrap_enabled);
    assert_eq!(loaded.startup_status.as_deref(), Some("Invalid theme in settings.toml; using onedark"));
}

#[test]
fn load_settings_defaults_bools_when_not_present() {
    let loaded = resolve_loaded_settings(parse_settings("[ui]\ntheme = \"onedark\"\n"), true);
    assert_eq!(loaded.theme_name, DEFAULT_THEME_NAME);
    assert_eq!(loaded.minimap_enabled, DEFAULT_MINIMAP_ENABLED);
    assert_eq!(loaded.wrap_enabled, DEFAULT_WRAP_ENABLED);
    assert!(loaded.startup_status.is_none());
}

#[test]
fn unreadable_settings_report_their_error() {
    let loaded = resolve_loaded_settings(parse_settings("[ui]\nwrap = maybe\n"), true);
    assert_eq!(loaded.theme_name, DEFAULT_THEME_NAME);
    assert!(loaded.minimap_enabled && loaded.wrap_enabled);
    assert_eq!(loaded.startup_status.as_deref(), Some("Settings error: line 2: minimap must be true or false"));
    let defaults = default_loaded_settings();
    assert_eq!(defaults.theme_name, "onedark");
    assert!(defaults.startup_status.is_none());
    let loaded = resolve_loaded_settings(parse_settings("[ui]\ntheme = \"gruvbox\"\n"), true);
    assert_eq!(loaded.theme_name, "gruvbox");
}
