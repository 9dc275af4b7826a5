//! The `/change` command: show the newest changelog section and, for a
//! non-English interface that can reach a model, ask for a translation.

use vstd::prelude::*;
use vstd::string::StringExecFns;

use crate::changelog::{
    extract_latest_changelog_section, inline_changelog_section, inline_section, latest_section,
};

verus! {

/// The languages of the user interface.
#[derive(Clone, Copy, Debug, PartialEq, Eq, Structural)]
pub enum Locale {
    En,
    ZhHans,
    ZhHant,
    Ja,
    PtBr,
}

/// The part of the application state that commands read.
#[derive(Clone, Copy, Debug, PartialEq, Eq, Structural)]
pub struct App {
    pub ui_locale: Locale,
    pub offline_mode: bool,
    pub onboarding_needs_api_key: bool,
}

/// The interface texts that `/change` shows, in the user's language.
pub struct ChangeTexts {
    /// The heading above the changelog excerpt.
    pub header: String,
    /// The notice that a translation has been requested.
    pub translation_queued: String,
    /// The notice that no translation can be requested now.
    pub translation_unavailable: String,
}

/// Something a command asks the application to do next.
#[derive(Debug)]
pub enum AppAction {
    /// Send this text to the model as a user message.
    SendMessage(String),
}

/// What a command hands back: a message to show, an optional follow-up
/// action, and whether the message reports an error.
#[derive(Debug)]
pub struct CommandResult {
    pub message: Option<String>,
    pub action: Option<AppAction>,
    pub is_error: bool,
}

impl CommandResult {
    /// A result that reports an error.
    pub fn error(message: String) -> (r: CommandResult)
        ensures
            r.is_error,
            r.message == Some(message),
            r.action is None,
    {
        CommandResult { message: Some(message), action: None, is_error: true }
    }

    /// A result that shows a message.
    pub fn message(message: String) -> (r: CommandResult)
        ensures
            !r.is_error,
            r.message == Some(message),
            r.action is None,
    {
        CommandResult { message: Some(message), action: None, is_error: false }
    }

    /// A result that shows a message and asks for an action.
    pub fn with_message_and_action(message: String, action: AppAction) -> (r: CommandResult)
        ensures
            !r.is_error,
            r.message == Some(message),
            r.action == Some(action),
    {
        CommandResult { message: Some(message), action: Some(action), is_error: false }
    }
}

/// The message `/change` shows when the changelog has no release section.
pub open spec fn missing_section_message() -> Seq<char> {
    "Could not find a version section in the bundled DeepSeek-TUI changelog. Expected a line starting with `## [`. "@
}

/// The rule drawn under the heading of the `/change` output.
pub open spec fn rule_line() -> Seq<char> {
    "\n─────────────────────────────\n"@
}

/// The name of a language as the translation request writes it.
pub open spec fn language_name(locale: Locale) -> Seq<char> {
    match locale {
        Locale::ZhHans => "Simplified Chinese (中文)"@,
        Locale::ZhHant => "Traditional Chinese (繁體中文)"@,
        Locale::Ja => "Japanese (日本語)"@,
        Locale::PtBr => "Brazilian Portuguese (Português)"@,
        Locale::En => "English"@,
    }
}

/// Whether `/change` asks the model for a translation: the interface is not
/// in English, the application is online and it has an API key.
pub open spec fn translation_requested(app: App) -> bool {
    app.ui_locale != Locale::En && !app.offline_mode && !app.onboarding_needs_api_key
}

/// The message `/change` shows for a release section.
pub open spec fn change_message(app: App, texts: ChangeTexts, section: Seq<char>) -> Seq<char> {
    let body = inline_section(section);
    if app.ui_locale == Locale::En {
        texts.header@ + rule_line() + body
    } else if app.offline_mode || app.onboarding_needs_api_key {
        texts.header@ + rule_line() + texts.translation_unavailable@ + "\n\n"@ + body
    } else {
        texts.header@ + rule_line() + texts.translation_queued@ + "\n\n"@ + body
    }
}

/// The request to translate a release section into the language of `locale`.
pub open spec fn translation_prompt(locale: Locale, section: Seq<char>) -> Seq<char> {
    "Translate the following changelog into "@ + language_name(locale)
        + ". Keep all markdown formatting, version numbers, dates, contributor names, and code references intact. Output ONLY the translated changelog, no preamble or commentary.\n\n"@
        + section
}

/// Whatever the locale, connectivity and key state, the `/change` message
/// begins with the header and the rule and ends with the inline form of the
/// section; outside English, the notice between them says whether a
/// translation was requested.
pub proof fn law_change_message_shows_the_section(
    app: App,
    texts: ChangeTexts,
    section: Seq<char>,
)
    ensures
        (texts.header@ + rule_line()).is_prefix_of(change_message(app, texts, section)),
        inline_section(section).is_suffix_of(change_message(app, texts, section)),
        app.ui_locale == Locale::En ==> change_message(app, texts, section) == texts.header@
            + rule_line() + inline_section(section),
        app.ui_locale != Locale::En ==> change_message(app, texts, section) == texts.header@
            + rule_line() + (if translation_requested(app) {
            texts.translation_queued@
        } else {
            texts.translation_unavailable@
        }) + "\n\n"@ + inline_section(section),
{
    let m = change_message(app, texts, section);
    let h = texts.header@ + rule_line();
    let body = inline_section(section);
    let mid = if app.ui_locale == Locale::En {
        Seq::<char>::empty()
    } else if translation_requested(app) {
        texts.translation_queued@ + "\n\n"@
    } else {
        texts.translation_unavailable@ + "\n\n"@
    };
    assert(m =~= h + mid + body);
    assert(h =~= m.subrange(0, h.len() as int));
    assert(body =~= m.subrange(m.len() - body.len(), m.len() as int));
}

/// The translation request names the target language and carries the whole
/// section, not its shortened inline form.
pub proof fn law_translation_prompt_carries_the_section(locale: Locale, section: Seq<char>)
    ensures
        section.is_suffix_of(translation_prompt(locale, section)),
        ("Translate the following changelog into "@ + language_name(locale)).is_prefix_of(
            translation_prompt(locale, section),
        ),
{
    let p = translation_prompt(locale, section);
    let h = "Translate the following changelog into "@ + language_name(locale);
    assert(section =~= p.subrange(p.len() - section.len(), p.len() as int));
    assert(h =~= p.subrange(0, h.len() as int));
}

fn translation_language_name(locale: Locale) -> (s: &'static str)
    ensures
        s@ == language_name(locale),
{
    match locale {
        Locale::ZhHans => "Simplified Chinese (中文)",
        Locale::ZhHant => "Traditional Chinese (繁體中文)",
        Locale::Ja => "Japanese (日本語)",
        Locale::PtBr => "Brazilian Portuguese (Português)",
        Locale::En => "English",
    }
}

/// Runs `/change` on the given changelog: shows its newest release section
/// (shortened for inline display) under `texts.header`; for a non-English
/// interface it also asks the model to translate the full section, or says
/// why it cannot; with no release section it reports an error.
pub fn change(app: &mut App, changelog: &str, texts: &ChangeTexts) -> (res: CommandResult)
    ensures
        *final(app) == *old(app),
        match latest_section(changelog@) {
            None => {
                &&& res.is_error
                &&& res.message matches Some(m) && m@ == missing_section_message()
                &&& res.action is None
            },
            Some(section) => {
                &&& !res.is_error
                &&& res.message matches Some(m) && m@ == change_message(*old(app), *texts, section)
                &&& res.message matches Some(m) && (texts.header@ + rule_line()).is_prefix_of(m@)
                &&& res.message matches Some(m) && inline_section(section).is_suffix_of(m@)
                &&& old(app).ui_locale != Locale::En ==> (res.message matches Some(m) && (
                texts.header@ + rule_line() + (if translation_requested(*old(app)) {
                    texts.translation_queued@
                } else {
                    texts.translation_unavailable@
                }) + "\n\n"@).is_prefix_of(m@))
                &&& translation_requested(*old(app)) ==> (res.action matches Some(
                    AppAction::SendMessage(p),
                ) && section.is_suffix_of(p@))
                &&& res.action is Some <==> (old(app).ui_locale != Locale::En
                    && !old(app).offline_mode && !old(app).onboarding_needs_api_key)
                &&& translation_requested(*old(app)) ==> (res.action matches Some(
                    AppAction::SendMessage(p),
                ) && p@ == translation_prompt(old(app).ui_locale, section))
                &&& !translation_requested(*old(app)) ==> res.action is None
            },
        },
{
    proof {
        if let Some(section) = latest_section(changelog@) {
            law_change_message_shows_the_section(*old(app), *texts, section);
            law_translation_prompt_carries_the_section(old(app).ui_locale, section);
        }
    }
    let latest = match extract_latest_changelog_section(changelog) {
        Some(s) => s,
        None => {
            let mut msg = String::new();
            msg.append(
                "Could not find a version section in the bundled DeepSeek-TUI changelog. Expected a line starting with `## [`. ",
            );
            return CommandResult::error(msg);
        },
    };
    let locale = app.ui_locale;
    let section_text = inline_changelog_section(latest.as_str());
    let mut display = texts.header.clone();
    display.append("\n─────────────────────────────\n");
    if locale == Locale::En {
        display.append(section_text.as_str());
        CommandResult::message(display)
    } else if app.offline_mode || app.onboarding_needs_api_key {
        display.append(texts.translation_unavailable.as_str());
        display.append("\n\n");
        display.append(section_text.as_str());
        CommandResult::message(display)
    } else {
        display.append(texts.translation_queued.as_str());
        display.append("\n\n");
        display.append(section_text.as_str());
        let mut prompt = String::new();
        prompt.append("Translate the following changelog into ");
        prompt.append(translation_language_name(locale));
        prompt.append(
            ". Keep all markdown formatting, version numbers, dates, contributor names, and code references intact. Output ONLY the translated changelog, no preamble or commentary.\n\n",
        );
        prompt.append(latest.as_str());
        CommandResult::with_message_and_action(display, AppAction::SendMessage(prompt))
    }
}

} // verus!
