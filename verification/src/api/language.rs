//! How the language of the user interface maps to the languages that the
//! remote services know.

use crate::text::text_equals;
use vstd::prelude::*;

verus! {

/// The language name of the Steam store for a language tag of the user
/// interface; `english` for a tag that is not listed.
pub open spec fn steam_store_language(language: Seq<char>) -> Seq<char> {
    if language == "en-US"@ {
        "english"@
    } else if language == "pt-BR"@ {
        "portuguese"@
    } else if language == "fr-FR"@ {
        "french"@
    } else if language == "it-IT"@ {
        "italian"@
    } else if language == "de-DE"@ {
        "german"@
    } else if language == "es-ES"@ {
        "spanish"@
    } else if language == "ru-RU"@ {
        "russian"@
    } else if language == "ja-JP"@ {
        "japanese"@
    } else if language == "zh-CN"@ {
        "schinese"@
    } else if language == "pl-PL"@ {
        "polish"@
    } else if language == "uk-UA"@ {
        "ukrainian"@
    } else {
        "english"@
    }
}

/// The language code of the Hydra service for a language tag of the user
/// interface; `en` for a tag that is not listed.
pub open spec fn hydra_language(language: Seq<char>) -> Seq<char> {
    if language == "en-US"@ {
        "en"@
    } else if language == "es-ES"@ {
        "es"@
    } else if language == "ru-RU"@ {
        "ru"@
    } else if language == "pt-BR"@ {
        "pt"@
    } else {
        "en"@
    }
}

/// The language name of the Steam store for a language tag of the user
/// interface.
pub fn map_ui_language_to_steam_store_lang(language: &str) -> (r: &'static str)
    ensures
        r@ == steam_store_language(language@),
{
    if text_equals(language, "en-US") {
        "english"
    } else if text_equals(language, "pt-BR") {
        "portuguese"
    } else if text_equals(language, "fr-FR") {
        "french"
    } else if text_equals(language, "it-IT") {
        "italian"
    } else if text_equals(language, "de-DE") {
        "german"
    } else if text_equals(language, "es-ES") {
        "spanish"
    } else if text_equals(language, "ru-RU") {
        "russian"
    } else if text_equals(language, "ja-JP") {
        "japanese"
    } else if text_equals(language, "zh-CN") {
        "schinese"
    } else if text_equals(language, "pl-PL") {
        "polish"
    } else if text_equals(language, "uk-UA") {
        "ukrainian"
    } else {
        "english"
    }
}

/// The language code of the Hydra service for a language tag of the user
/// interface.
pub fn map_ui_language_to_hydra_lang(language: &str) -> (r: &'static str)
    ensures
        r@ == hydra_language(language@),
{
    if text_equals(language, "en-US") {
        "en"
    } else if text_equals(language, "es-ES") {
        "es"
    } else if text_equals(language, "ru-RU") {
        "ru"
    } else if text_equals(language, "pt-BR") {
        "pt"
    } else {
        "en"
    }
}

} // verus!
