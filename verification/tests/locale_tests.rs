//! Filling in the statistics line and reading the locale from the system.

use fox_and_hounds::game::i18n::{
    decimal_chars, detect_locale_tag, locale_from_env_value, locale_index, normalize_locale_tag,
    parse_cli_locale, GameOverStrings, HudStrings, LocaleStrings, TitleScreenStrings,
};
use fox_and_hounds::game::level::BoardVariant;
use fox_and_hounds::game::state::{Difficulty, Faction, GameResult, GameState};

fn s(x: &str) -> String {
    x.to_string()
}

fn translation(tag: &str, template: &str) -> LocaleStrings {
    LocaleStrings {
        locale: s(tag),
        language_name: s("Deutsch"),
        title_screen: TitleScreenStrings {
            title: s("Fuchs und Hunde"),
            subtitle: s("sub"),
            board_variant: s("Brett"),
            variant_classic: s("Klassisch"),
            variant_classic_sub: s("klassisch sub"),
            variant_river_crossing: s("Flussquerung"),
            variant_river_crossing_sub: s("fluss sub"),
            variant_fox_and_dogs: s("Fuchs und Hunde"),
            variant_fox_and_dogs_sub: s("fh sub"),
            variant_fox_and_dogs_maze: s("Labyrinth"),
            variant_fox_and_dogs_maze_sub: s("lab sub"),
            variant_the_red_hunt: s("Rote Jagd"),
            variant_the_red_hunt_sub: s("rot sub"),
            choose_faction: s("Seite"),
            fox_title: s("Fuchs"),
            fox_subtitle: s("f"),
            hounds_title: s("Hunde"),
            hounds_subtitle: s("h"),
            ai_difficulty: s("KI"),
            difficulty_easy: s("Leicht"),
            difficulty_medium: s("Mittel"),
            difficulty_hard: s("Schwer"),
            start_match: s("Los"),
        },
        hud: HudStrings {
            fox_turn: s("Fuchs am Zug"),
            hounds_turn: s("Hunde am Zug"),
            thinking: s("..."),
            special_rule_notice: s("!"),
        },
        game_over: GameOverStrings {
            victory: s("Sieg"),
            defeat: s("Niederlage"),
            fox_won_msg: s("F"),
            hounds_won_msg: s("H"),
            stats_template: s(template),
            play_again: s("Nochmal"),
            main_menu: s("Menü"),
        },
    }
}

fn args(xs: &[&str]) -> Vec<String> {
    xs.iter().map(|x| x.to_string()).collect()
}

#[test]
fn test_format_stats_fills_every_placeholder() {
    let t = translation("de-DE", "Züge: {turns} · {difficulty} · {variant}");
    assert_eq!(
        t.game_over.format_stats(12, "Medium", "Classic"),
        "Züge: 12 · Medium · Classic"
    );
    let repeated = translation("de-DE", "{turns}/{turns} {variant}{difficulty}");
    assert_eq!(repeated.game_over.format_stats(0, "E", "V"), "0/0 VE");
    let none = translation("de-DE", "no placeholders {turn}");
    assert_eq!(none.game_over.format_stats(7, "E", "V"), "no placeholders {turn}");
    // A value that looks like a later placeholder is filled in too, as the
    // replacements run one after another.
    let chained = translation("de-DE", "{difficulty}");
    assert_eq!(chained.game_over.format_stats(1, "{variant}", "X"), "X");
    let chars: String = decimal_chars(1_234_567_890).into_iter().collect();
    assert_eq!(chars, "1234567890");
}

#[test]
fn test_localized_names() {
    let t = translation("de-DE", "{turns}");
    assert_eq!(t.difficulty_name(Difficulty::Easy), "Leicht");
    assert_eq!(Difficulty::Hard.localized_name(&t), "Schwer");
    assert_eq!(Difficulty::Medium.name(), "Medium");
    assert_eq!(BoardVariant::RiverCrossing.localized_name(&t), "Flussquerung");
    assert_eq!(BoardVariant::FoxAndDogsMaze.localized_sub(&t), "lab sub");
    assert_eq!(t.variant_name(BoardVariant::TheRedHunt), "Rote Jagd");
    assert_eq!(t.title_screen.variant_sub(BoardVariant::Classic), "klassisch sub");
}

#[test]
fn test_game_over_stats_of_a_decided_match() {
    let t = translation("de-DE", "{turns} Züge, {difficulty}, {variant}");
    let mut state = GameState::new();
    state.switch_variant(BoardVariant::Classic);
    state.start_game(Faction::Hounds, Difficulty::Hard);
    assert_eq!(state.game_over_stats(&t), None);
    state.fox_pos = state.graph.find_id_by_name("M1").unwrap();
    state.fox_pending = false;
    state.hounds_pos = vec![
        state.graph.find_id_by_name("T3").unwrap(),
        state.graph.find_id_by_name("M3").unwrap(),
        state.graph.find_id_by_name("B3").unwrap(),
    ];
    state.current_turn = faction_fox();
    let m0 = state.graph.find_id_by_name("M0").unwrap();
    assert!(state.apply_fox_move(m0).is_ok());
    assert_eq!(state.result, GameResult::FoxWon);
    assert_eq!(state.game_over_stats(&t), Some(s("1 Züge, Schwer, Klassisch")));
}

fn faction_fox() -> Faction {
    Faction::Fox
}

#[test]
fn test_normal_form_laws() {
    for tag in ["  ru_RU ", "\u{3000}JA+jp\t", "zh-Hans", "", "   ", "x_Y+z"] {
        let once = normalize_locale_tag(tag);
        assert_eq!(normalize_locale_tag(&once), once);
    }
    assert_eq!(normalize_locale_tag("\u{3000}JA+jp\t"), "ja-jp");
    assert_eq!(normalize_locale_tag("\u{a0}Ü_X"), "Ü-x");
    // Only characters with the White_Space property are trimmed.
    assert_eq!(normalize_locale_tag("\u{200b}de\u{180e}"), "\u{200b}de\u{180e}");
    assert_eq!(normalize_locale_tag("\u{2028}\u{205f}\u{85}es\u{202f}\u{2000}\u{1680}"), "es");
    let locales = vec![translation("en-US", ""), translation("ru-RU", ""), translation("pt-BR", "")];
    // Tags with the same normal form choose the same translation.
    assert_eq!(locale_index(&locales, "RU_ru"), locale_index(&locales, " ru-RU "));
    // Each translation's own tag chooses it.
    for (i, l) in locales.iter().enumerate() {
        assert_eq!(locale_index(&locales, &l.locale), i);
    }
    // A tag chooses what its normal form chooses.
    for tag in ["RU_ru", " pt+BR", "EN", "xx-YY", "\u{3000}Ru\t"] {
        assert_eq!(
            locale_index(&locales, tag),
            locale_index(&locales, &normalize_locale_tag(tag))
        );
    }
    // Duplicates: the first one wins.
    let dup = vec![translation("en-US", ""), translation("de-DE", "a"), translation("de-AT", "b")];
    assert_eq!(locale_index(&dup, "de"), 1);
    assert_eq!(locale_index(&dup, "de-at"), 2);
    assert_eq!(locale_index(&dup, "-"), 0);
}

#[test]
fn test_command_line_locale() {
    assert_eq!(parse_cli_locale(&args(&["--lang", "ru"])), Some(s("ru")));
    assert_eq!(parse_cli_locale(&args(&["-l", " ja-JP "])), Some(s("ja-JP")));
    assert_eq!(parse_cli_locale(&args(&["--lang=de_AT"])), Some(s("de_AT")));
    assert_eq!(parse_cli_locale(&args(&["--fullscreen", "--lang= fr "])), Some(s("fr")));
    // A blank value is skipped, the search goes on.
    assert_eq!(parse_cli_locale(&args(&["-l", "  ", "--lang", "it"])), Some(s("it")));
    assert_eq!(parse_cli_locale(&args(&["--lang=", "x", "-l", "ko"])), Some(s("ko")));
    // A flag with nothing after it ends the search.
    assert_eq!(parse_cli_locale(&args(&["--lang"])), None);
    assert_eq!(parse_cli_locale(&args(&[])), None);
    assert_eq!(parse_cli_locale(&args(&["--language", "ru", "-L", "de"])), None);
}

#[test]
fn test_environment_and_detected_locale() {
    assert_eq!(locale_from_env_value("de_DE.UTF-8"), Some(s("de_DE")));
    assert_eq!(locale_from_env_value(" fr_FR:en "), Some(s("fr_FR")));
    assert_eq!(locale_from_env_value("C"), None);
    assert_eq!(locale_from_env_value(" POSIX "), None);
    assert_eq!(locale_from_env_value("C.UTF-8"), None);
    assert_eq!(locale_from_env_value(".UTF-8"), None);
    assert_eq!(locale_from_env_value(""), None);

    let env = vec![None, Some(s("C")), Some(s("pt_BR.UTF-8")), Some(s("en_US"))];
    assert_eq!(detect_locale_tag(&[], None, &env), "pt_BR");
    assert_eq!(detect_locale_tag(&[], Some(s("ja-JP")), &env), "ja-JP");
    assert_eq!(detect_locale_tag(&args(&["-l", "ko"]), Some(s("ja-JP")), &env), "ko");
    assert_eq!(detect_locale_tag(&[], None, &[None, Some(s("POSIX"))]), "en-US");
}

#[test]
fn test_trimming_follows_char_is_whitespace() {
    let probe = |c: char| normalize_locale_tag(&format!("{c}a{c}")) == "a";
    for u in (0u32..0x3100).chain((0x3100u32..0x110000).step_by(97)) {
        if let Some(c) = char::from_u32(u) {
            if c == 'A' || c == 'a' {
                continue;
            }
            assert_eq!(probe(c), c.is_whitespace(), "U+{u:04X}");
        }
    }
}
