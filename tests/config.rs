use todo_core::config::{
    canonical_theme_name, merge_overrides, palette_for_theme, Config, ConfigOverrides,
};
use todo_core::config_override::{
    build_config_overrides, parse_config_override, ConfigOverrideTarget, ParsedConfigOverride,
};

#[test]
fn parse_config_override_canonicalizes_field_names() {
    let parsed = parse_config_override(" THEME = Midnight ").unwrap();

    match parsed.target {
        ConfigOverrideTarget::Theme => {}
        other => panic!("unexpected target: {other:?}"),
    }

    assert_eq!(parsed.value, "Midnight");
}

#[test]
fn parse_config_override_rejects_empty_alias_name() {
    let err = parse_config_override("aliases. = foo").unwrap_err();
    assert!(err.contains("aliases override requires an alias name"));
}

#[test]
fn parse_config_override_rejects_unknown_fields() {
    let err = parse_config_override("unknown.field=value").unwrap_err();
    assert!(err.contains("unknown config field"));
}

#[test]
fn parse_config_override_rejects_missing_equals() {
    let err = parse_config_override("aliasesls").unwrap_err();
    assert!(err.contains("KEY=VALUE"));
}

#[test]
fn parse_config_override_trims_whitespace_for_alias_names() {
    let parsed = parse_config_override("aliases. ls = show today").unwrap();

    match parsed.target {
        ConfigOverrideTarget::Alias(alias) => assert_eq!(alias, "ls"),
        other => panic!("unexpected target: {other:?}"),
    }

    assert_eq!(parsed.value, "show today");
}

#[test]
fn parse_config_override_reports_exact_messages() {
    assert_eq!(
        parse_config_override("nothing here").unwrap_err(),
        "override must be in KEY=VALUE format"
    );
    assert_eq!(
        parse_config_override(" -- = x").unwrap_err(),
        "override key cannot be empty"
    );
    assert_eq!(
        parse_config_override("theme.sub=x").unwrap_err(),
        "theme override cannot have subfields"
    );
    assert_eq!(
        parse_config_override("Unknown-Field=x").unwrap_err(),
        "unknown config field 'unknown_field'"
    );
    assert_eq!(
        parse_config_override("alias=x").unwrap_err(),
        "aliases override requires an alias name"
    );
}

#[test]
fn parse_config_override_accepts_alias_singular_and_equals_in_value() {
    let parsed = parse_config_override("Alias.ll=list a=b").unwrap();
    assert_eq!(
        parsed,
        ParsedConfigOverride {
            target: ConfigOverrideTarget::Alias("ll".to_string()),
            value: "list a=b".to_string(),
        }
    );
}

#[test]
fn build_config_overrides_later_entries_win() {
    let entries = vec![
        parse_config_override("theme=light").unwrap(),
        parse_config_override("aliases.ls=list today").unwrap(),
        parse_config_override("theme=Dark Mode").unwrap(),
        parse_config_override("aliases.ls=list backlog").unwrap(),
    ];
    let overrides = build_config_overrides(&entries);
    assert_eq!(overrides.theme.as_deref(), Some("noir"));
    assert_eq!(overrides.aliases.len(), 1);
    assert_eq!(overrides.aliases[0].1, "list backlog");
}

fn pairs(items: &[(&str, &str)]) -> Vec<(String, String)> {
    items
        .iter()
        .map(|(k, v)| (k.to_string(), v.to_string()))
        .collect()
}

#[test]
fn merge_overrides_updates_theme_and_aliases() {
    let base = Config {
        theme: Some("light".into()),
        aliases: pairs(&[("ls", "list today")]),
    };

    let overrides = ConfigOverrides {
        theme: Some("noir".into()),
        aliases: pairs(&[("ls", "list backlog"), ("show", "show today")]),
    };

    let merged = merge_overrides(&base, &overrides);
    assert_eq!(merged.theme.as_deref(), Some("noir"));
    assert_eq!(merged.alias("ls").as_deref(), Some("list backlog"));
    assert_eq!(merged.alias("show").as_deref(), Some("show today"));
}

#[test]
fn merge_overrides_preserves_base_config() {
    let base = Config {
        theme: Some("light".into()),
        aliases: pairs(&[("ls", "list today")]),
    };

    let overrides = ConfigOverrides {
        theme: Some("noir".into()),
        aliases: pairs(&[("focus", "focus today")]),
    };

    let merged = merge_overrides(&base, &overrides);

    assert_eq!(base.theme.as_deref(), Some("light"));
    assert!(base.alias("focus").is_none());

    assert_eq!(merged.theme.as_deref(), Some("noir"));
    assert_eq!(merged.alias("focus").as_deref(), Some("focus today"));
    assert_eq!(merged.alias("ls").as_deref(), Some("list today"));
}

#[test]
fn merge_overrides_with_empty_overrides_returns_clone() {
    let base = Config {
        theme: Some("light".into()),
        aliases: pairs(&[("ls", "list today")]),
    };

    let merged = merge_overrides(&base, &ConfigOverrides::default());

    assert_eq!(merged, base);
}

#[test]
fn merge_overrides_canonicalizes_theme_override() {
    let merged = merge_overrides(
        &Config::default(),
        &ConfigOverrides {
            theme: Some("Vanilla".into()),
            aliases: Vec::new(),
        },
    );
    assert_eq!(merged.theme.as_deref(), Some("default"));
}

#[test]
fn canonical_theme_name_maps_variants() {
    assert_eq!(canonical_theme_name("Vanilla"), Some("default".into()));
    assert_eq!(canonical_theme_name("Noir"), Some("noir".into()));
    assert_eq!(canonical_theme_name("Solarized"), Some("solarized".into()));
    assert_eq!(canonical_theme_name("dark-mode"), Some("noir".into()));
    assert_eq!(canonical_theme_name("  "), Some("default".into()));
}

#[test]
fn canonical_theme_name_squashes_separators() {
    assert_eq!(
        canonical_theme_name("--My  Theme!!"),
        Some("my_theme".into())
    );
    assert_eq!(canonical_theme_name("DARKMODE"), Some("noir".into()));
}

#[test]
fn palette_for_theme_returns_palette() {
    let default_palette = palette_for_theme(Some("vanilla"));
    assert!(default_palette.accent.is_empty());
    assert!(default_palette.muted.is_empty());

    let noir_palette = palette_for_theme(Some("noir"));
    assert_eq!(noir_palette.accent, "\x1b[38;5;208m");
    assert_eq!(noir_palette.muted, "\x1b[38;5;250m");

    let unknown_palette = palette_for_theme(Some("oceanic"));
    assert!(unknown_palette.accent.is_empty());
}

#[test]
fn palette_wraps_text_only_when_coloured() {
    let noir = palette_for_theme(Some("Solarized"));
    assert_eq!(noir.accentize("hi"), "\x1b[38;5;108mhi\x1b[0m");
    assert_eq!(noir.mutedize("lo"), "\x1b[38;5;250mlo\x1b[0m");
    let plain = palette_for_theme(None);
    assert_eq!(plain.accentize("hi"), "hi");
}
