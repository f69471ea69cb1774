use guitar::localisation::{command_to_visual_string, es, fr, localise, ru, tr_tr, Command, Language};

#[test]
fn language_ids_and_aliases_parse() {
    assert_eq!(Language::from_id("english"), Some(Language::English));
    assert_eq!(Language::from_id("Español"), Some(Language::Spanish));
    assert_eq!(Language::from_id("fr_FR"), Some(Language::French));
    assert_eq!(Language::from_id("русский"), Some(Language::Russian));
    assert_eq!(Language::from_id("Türkçe"), Some(Language::Turkish));
    assert_eq!(Language::from_id("zh-Hans"), None);
    assert_eq!(Language::from_id("mandarin"), None);
    assert_eq!(Language::from_id("klingon"), None);
}

#[test]
fn graph_lane_limit_shortcut_command_labels_are_localised() {
    for (language, shrink, grow) in [
        (Language::English, "Shrink graph lane limit", "Grow graph lane limit"),
        (Language::Spanish, "Reducir límite de carriles del grafo", "Aumentar límite de carriles del grafo"),
        (Language::French, "Réduire la limite de voies du graphe", "Augmenter la limite de voies du graphe"),
        (Language::Russian, "Уменьшить лимит дорожек графа", "Увеличить лимит дорожек графа"),
        (Language::Turkish, "Grafik şerit sınırını azalt", "Grafik şerit sınırını artır"),
    ] {
        assert_eq!(command_to_visual_string(language, &Command::ShrinkGraphLaneLimit), shrink);
        assert_eq!(command_to_visual_string(language, &Command::GrowGraphLaneLimit), grow);
    }
}

type Translate = fn(&'static str) -> &'static str;
const TRANSLATORS: [(Translate, &str); 4] = [(es, "es"), (fr, "fr"), (ru, "ru"), (tr_tr, "tr")];

#[test]
fn settings_background_section_text_is_translated_in_every_language() {
    for ((translate, tag), background, file_watcher) in [
        (TRANSLATORS[0], " segundo plano:", "monitor de archivos"),
        (TRANSLATORS[1], " arrière-plan :", "surveillance de fichiers"),
        (TRANSLATORS[2], " фоновые задачи:", "наблюдение за файлами"),
        (TRANSLATORS[3], " arka plan:", "dosya izleyici"),
    ] {
        assert_eq!(translate(" background:"), background, "{tag} background heading");
        assert_eq!(translate("file watcher"), file_watcher, "{tag} file watcher row");
    }
}

#[test]
fn background_toggle_command_labels_are_translated_in_every_language() {
    for ((translate, tag), watcher) in [
        (TRANSLATORS[0], "Alternar monitor de archivos"),
        (TRANSLATORS[1], "Basculer la surveillance de fichiers"),
        (TRANSLATORS[2], "Переключить наблюдение за файлами"),
        (TRANSLATORS[3], "Dosya izleyiciyi aç/kapat"),
    ] {
        assert_eq!(translate("Toggle file watcher"), watcher, "{tag} watcher command label");
    }
}

#[test]
fn background_strings_fall_back_to_english_for_unknown_keys() {
    for (translate, tag) in TRANSLATORS {
        assert_eq!(translate("definitely not a translated key"), "definitely not a translated key", "{tag} fallback");
    }
}

#[test]
fn english_stands_for_itself_and_ids_round_trip() {
    assert_eq!(localise(Language::English, "file watcher"), "file watcher");
    assert_eq!(localise(Language::French, "file watcher"), "surveillance de fichiers");
    for language in [Language::English, Language::Spanish, Language::French, Language::Russian, Language::Turkish] {
        assert_eq!(Language::from_id(language.id()), Some(language));
    }
    assert_eq!(Language::from_id("  TR  "), Some(Language::Turkish));
    assert_eq!(Language::from_id("en-GB"), Some(Language::English));
    assert_eq!(Language::from_id("eng_US"), None);
}
