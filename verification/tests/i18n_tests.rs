//! Locale tags are normalised and resolved against the available translations.

use fox_and_hounds::game::i18n::{
    normalize_locale_tag, resolve_locale, GameOverStrings, HudStrings, LocaleStrings,
    TitleScreenStrings,
};

/// A translation that carries only its tag.
fn locale(tag: &str) -> LocaleStrings {
    let e = String::new;
    LocaleStrings {
        locale: tag.to_string(),
        language_name: e(),
        title_screen: TitleScreenStrings {
            title: e(),
            subtitle: e(),
            board_variant: e(),
            variant_classic: e(),
            variant_classic_sub: e(),
            variant_river_crossing: e(),
            variant_river_crossing_sub: e(),
            variant_fox_and_dogs: e(),
            variant_fox_and_dogs_sub: e(),
            variant_fox_and_dogs_maze: e(),
            variant_fox_and_dogs_maze_sub: e(),
            variant_the_red_hunt: e(),
            variant_the_red_hunt_sub: e(),
            choose_faction: e(),
            fox_title: e(),
            fox_subtitle: e(),
            hounds_title: e(),
            hounds_subtitle: e(),
            ai_difficulty: e(),
            difficulty_easy: e(),
            difficulty_medium: e(),
            difficulty_hard: e(),
            start_match: e(),
        },
        hud: HudStrings {
            fox_turn: e(),
            hounds_turn: e(),
            thinking: e(),
            special_rule_notice: e(),
        },
        game_over: GameOverStrings {
            victory: e(),
            defeat: e(),
            fox_won_msg: e(),
            hounds_won_msg: e(),
            stats_template: e(),
            play_again: e(),
            main_menu: e(),
        },
    }
}

/// The translations the game ships, in the order it loads them.
fn shipped_locales() -> Vec<LocaleStrings> {
    [
        "en-US", "ru-RU", "es-ES", "de-DE", "fr-FR", "ja-JP", "zh-CN", "ko-KR", "it-IT", "pt-BR",
    ]
    .iter()
    .map(|t| locale(t))
    .collect()
}

#[test]
fn test_locale_normalization_and_resolution() {
    let locales = shipped_locales();
    let resolve_locale = |tag: &str| resolve_locale(&locales, tag);

    // Tags are normalized, separators and case alike, before they are matched
    assert_eq!(normalize_locale_tag("  ru_RU "), "ru-ru");
    assert_eq!(normalize_locale_tag("ru+RU"), "ru-ru");

    assert_eq!(resolve_locale("ru-RU").locale, "ru-RU");
    assert_eq!(resolve_locale("ru_RU").locale, "ru-RU");
    assert_eq!(resolve_locale("ru+RU").locale, "ru-RU");
    assert_eq!(resolve_locale("RU").locale, "ru-RU");
    assert_eq!(resolve_locale("ru_KZ").locale, "ru-RU");

    assert_eq!(resolve_locale("es-ES").locale, "es-ES");
    assert_eq!(resolve_locale("es_MX").locale, "es-ES");
    assert_eq!(resolve_locale("es").locale, "es-ES");

    assert_eq!(resolve_locale("de-DE").locale, "de-DE");
    assert_eq!(resolve_locale("de_AT").locale, "de-DE");
    assert_eq!(resolve_locale("de").locale, "de-DE");

    assert_eq!(resolve_locale("fr-FR").locale, "fr-FR");
    assert_eq!(resolve_locale("fr_CA").locale, "fr-FR");
    assert_eq!(resolve_locale("fr").locale, "fr-FR");

    assert_eq!(resolve_locale("ja-JP").locale, "ja-JP");
    assert_eq!(resolve_locale("ja_JP").locale, "ja-JP");
    assert_eq!(resolve_locale("ja").locale, "ja-JP");
    assert_eq!(resolve_locale("jp").locale, "ja-JP");
    assert_eq!(resolve_locale("jp-JP").locale, "ja-JP");

    assert_eq!(resolve_locale("zh-CN").locale, "zh-CN");
    assert_eq!(resolve_locale("zh_CN").locale, "zh-CN");
    assert_eq!(resolve_locale("zh").locale, "zh-CN");
    assert_eq!(resolve_locale("cn").locale, "zh-CN");
    assert_eq!(resolve_locale("zh-hans").locale, "zh-CN");

    assert_eq!(resolve_locale("ko-KR").locale, "ko-KR");
    assert_eq!(resolve_locale("ko_KR").locale, "ko-KR");
    assert_eq!(resolve_locale("ko").locale, "ko-KR");
    assert_eq!(resolve_locale("kr").locale, "ko-KR");

    assert_eq!(resolve_locale("en-US").locale, "en-US");
    assert_eq!(resolve_locale("en_GB").locale, "en-US");
    assert_eq!(resolve_locale("en").locale, "en-US");

    assert_eq!(resolve_locale("it-IT").locale, "it-IT");
    assert_eq!(resolve_locale("it_CH").locale, "it-IT");
    assert_eq!(resolve_locale("it").locale, "it-IT");

    assert_eq!(resolve_locale("pt-BR").locale, "pt-BR");
    assert_eq!(resolve_locale("pt_PT").locale, "pt-BR");
    assert_eq!(resolve_locale("pt").locale, "pt-BR");
    assert_eq!(resolve_locale("br").locale, "pt-BR");

    // Unknown fallback to en-US
    assert_eq!(resolve_locale("ar-SA").locale, "en-US");
    assert_eq!(resolve_locale("unknown").locale, "en-US");
}
