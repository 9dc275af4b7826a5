use tui::{
    change, extract_latest_changelog_section, inline_changelog_section, App, AppAction,
    ChangeTexts, CommandResult, Locale,
};

const CHANGELOG: &str = "# Changelog\n\
\n\
All notable changes are listed here.\n\
\n\
## [0.8.30] - 2026-05-12\n\
\n\
### Added\n\
- The `/change` command shows this section.\n\
\n\
## [0.8.29] - 2026-05-11\n\
\n\
Release candidate polish.\n";

fn make_app(locale: Locale, has_api_key: bool) -> App {
    App {
        ui_locale: locale,
        offline_mode: false,
        onboarding_needs_api_key: !has_api_key,
    }
}

fn texts(locale: Locale) -> ChangeTexts {
    ChangeTexts {
        header: format!("Latest release notes [{locale:?}]"),
        translation_queued: format!("Translation requested [{locale:?}]"),
        translation_unavailable: format!("Translation unavailable [{locale:?}]"),
    }
}

fn run(app: &mut App) -> CommandResult {
    let t = texts(app.ui_locale);
    change(app, CHANGELOG, &t)
}

#[test]
fn change_uses_bundled_release_notes_without_workspace_changelog() {
    let mut app = make_app(Locale::En, false);
    let result = run(&mut app);
    assert!(!result.is_error);
    let msg = result.message.expect("should have a message");
    let expected = extract_latest_changelog_section(CHANGELOG)
        .expect("bundled changelog should have a release section");
    assert!(msg.contains(expected.lines().next().unwrap()));
}

#[test]
fn change_in_english_returns_message_without_action() {
    let mut app = make_app(Locale::En, true);
    let result = run(&mut app);
    assert!(!result.is_error);
    let msg = result.message.expect("should have a message");
    let expected = extract_latest_changelog_section(CHANGELOG)
        .expect("bundled changelog should have a release section");
    assert!(msg.contains(expected.lines().next().unwrap()));
    assert!(
        result.action.is_none(),
        "English locale should not send translation"
    );
}

#[test]
fn change_in_non_english_also_sends_translation_action() {
    for (locale, _label) in [
        (Locale::ZhHans, "zh-Hans"),
        (Locale::Ja, "ja"),
        (Locale::PtBr, "pt-BR"),
    ] {
        let mut app = make_app(locale, true);
        let result = run(&mut app);
        assert!(!result.is_error, "Failed for locale {locale:?}");
        let msg = result.message.expect("should have a message");
        assert!(msg.contains(&texts(locale).translation_queued));
        assert!(
            matches!(result.action, Some(AppAction::SendMessage(_))),
            "Non-English locale should send translation, got {:?}",
            result.action
        );
        if let Some(AppAction::SendMessage(prompt)) = &result.action {
            let expected = extract_latest_changelog_section(CHANGELOG)
                .expect("bundled changelog should have a release section");
            assert!(prompt.contains(expected.lines().next().unwrap()));
        }
    }
}

#[test]
fn change_in_non_english_without_api_key_uses_explicit_fallback() {
    let mut app = make_app(Locale::ZhHans, false);
    let result = run(&mut app);
    assert!(!result.is_error);
    let msg = result.message.expect("should have a message");
    assert!(msg.contains(&texts(Locale::ZhHans).translation_unavailable));
    assert!(
        result.action.is_none(),
        "missing API key should not send translation"
    );
}

#[test]
fn change_in_non_english_offline_uses_explicit_fallback() {
    let mut app = make_app(Locale::Ja, true);
    app.offline_mode = true;
    let result = run(&mut app);
    assert!(!result.is_error);
    let msg = result.message.expect("should have a message");
    assert!(msg.contains(&texts(Locale::Ja).translation_unavailable));
    assert!(
        result.action.is_none(),
        "offline mode should not send translation"
    );
}

#[test]
fn change_english_message_is_header_rule_and_section() {
    let mut app = make_app(Locale::En, true);
    let result = run(&mut app);
    let section = extract_latest_changelog_section(CHANGELOG).unwrap();
    assert_eq!(
        result.message.unwrap(),
        format!(
            "Latest release notes [En]\n─────────────────────────────\n{}",
            inline_changelog_section(&section)
        )
    );
    assert_eq!(app, make_app(Locale::En, true));
}

#[test]
fn change_translation_prompt_names_language_and_carries_full_section() {
    let mut app = make_app(Locale::ZhHant, true);
    let result = run(&mut app);
    let section = extract_latest_changelog_section(CHANGELOG).unwrap();
    assert_eq!(
        result.message.unwrap(),
        format!(
            "Latest release notes [ZhHant]\n─────────────────────────────\nTranslation requested [ZhHant]\n\n{section}"
        )
    );
    match result.action {
        Some(AppAction::SendMessage(prompt)) => assert_eq!(
            prompt,
            format!(
                "Translate the following changelog into Traditional Chinese (繁體中文). Keep all markdown formatting, version numbers, dates, contributor names, and code references intact. Output ONLY the translated changelog, no preamble or commentary.\n\n{section}"
            )
        ),
        None => panic!("expected a translation request"),
    }
}

#[test]
fn change_prompt_uses_each_language_name() {
    for (locale, name) in [
        (Locale::ZhHans, "Simplified Chinese (中文)"),
        (Locale::Ja, "Japanese (日本語)"),
        (Locale::PtBr, "Brazilian Portuguese (Português)"),
    ] {
        let mut app = make_app(locale, true);
        match run(&mut app).action {
            Some(AppAction::SendMessage(prompt)) => {
                assert!(prompt.starts_with(&format!(
                    "Translate the following changelog into {name}. "
                )))
            }
            None => panic!("expected a translation request"),
        }
    }
}

#[test]
fn change_fallback_message_layout() {
    let mut app = make_app(Locale::PtBr, true);
    app.offline_mode = true;
    let result = run(&mut app);
    let section = extract_latest_changelog_section(CHANGELOG).unwrap();
    assert_eq!(
        result.message.unwrap(),
        format!(
            "Latest release notes [PtBr]\n─────────────────────────────\nTranslation unavailable [PtBr]\n\n{section}"
        )
    );
}

#[test]
fn change_without_release_section_reports_error() {
    let mut app = make_app(Locale::Ja, true);
    let t = texts(Locale::Ja);
    let result = change(&mut app, "# Changelog\n\nNothing released yet.\n", &t);
    assert!(result.is_error);
    assert_eq!(
        result.message.unwrap(),
        "Could not find a version section in the bundled DeepSeek-TUI changelog. Expected a line starting with `## [`. "
    );
    assert!(result.action.is_none());
}

#[test]
fn change_shows_long_section_truncated_but_sends_it_whole() {
    let long = format!("## [9.0.0]\n{}", "x".repeat(6000));
    let mut app = make_app(Locale::Ja, true);
    let t = texts(Locale::Ja);
    let result = change(&mut app, &long, &t);
    let msg = result.message.unwrap();
    assert!(msg.ends_with("[... 1915 characters omitted from the bundled DeepSeek-TUI changelog]"));
    match result.action {
        Some(AppAction::SendMessage(prompt)) => assert!(prompt.ends_with(&long)),
        None => panic!("expected a translation request"),
    }
}
