use welly_rs::cell::Cell;
use welly_rs::fonts::{
    chinese_font_candidates, choose_font_candidate, english_font_candidates, family_chain,
    font_name_for_cell, normalize_font_name, registry_font_name_score, FontCandidate,
    CHINESE_FONT_NAME, ENGLISH_FONT_NAME,
};

#[test]
fn choose_font_candidate_returns_first_available_candidate() {
    let candidates = [
        FontCandidate {
            egui_name: "missing",
            families: &["Missing Font"],
        },
        FontCandidate {
            egui_name: "available",
            families: &["Available Font"],
        },
    ];
    let installed_families = ["Available Font"];

    let chosen =
        choose_font_candidate(&candidates, |family| installed_families.contains(&family));

    assert_eq!(chosen.unwrap().egui_name, "available");
}

#[test]
fn chinese_font_candidates_prefer_heiti_sc() {
    assert_eq!(chinese_font_candidates()[0].families, &["Heiti SC"]);
}

#[test]
fn chinese_font_candidates_use_shared_heiti_order() {
    let families: Vec<&str> = chinese_font_candidates()
        .iter()
        .flat_map(|candidate| candidate.families)
        .copied()
        .collect();

    assert_eq!(
        families,
        vec![
            "Heiti SC",
            "SimHei",
            "Noto Sans Mono CJK SC",
            "Sarasa Mono SC"
        ]
    );
}

#[test]
fn english_font_candidates_use_shared_monospace_order() {
    let families: Vec<&str> = english_font_candidates()
        .iter()
        .flat_map(|candidate| candidate.families)
        .copied()
        .collect();

    assert_eq!(families, vec!["Monaco", "Cascadia Mono", "CaskaydiaMono"]);
}

#[test]
fn english_font_candidates_do_not_include_consolas() {
    assert!(!english_font_candidates()
        .iter()
        .flat_map(|candidate| candidate.families)
        .any(|family| *family == "Consolas"));
}

#[test]
fn family_chain_appends_real_fallback_font_names() {
    let fallbacks = vec!["fallback-a".to_owned(), "fallback-b".to_owned()];

    assert_eq!(family_chain(None, None, &fallbacks), fallbacks);
    assert_eq!(
        family_chain(Some(ENGLISH_FONT_NAME), Some("fallback-a"), &fallbacks),
        vec![
            ENGLISH_FONT_NAME.to_owned(),
            "fallback-a".to_owned(),
            "fallback-b".to_owned()
        ]
    );
}

#[test]
fn registry_font_name_score_ignores_registry_suffixes() {
    assert_eq!(
        registry_font_name_score("Cascadia Mono (TrueType)", "Cascadia Mono"),
        Some(0)
    );
    assert!(
        registry_font_name_score("SimHei & Microsoft YaHei UI (TrueType)", "SimHei").is_some()
    );
}

#[test]
fn ascii_cells_use_english_font_even_when_cell_is_wide() {
    let cell = Cell {
        ch: '9',
        width: 2,
        ..Default::default()
    };

    assert_eq!(font_name_for_cell(&cell), ENGLISH_FONT_NAME);
}

#[test]
fn chinese_cells_use_chinese_font() {
    let cell = Cell {
        ch: '在',
        width: 2,
        ..Default::default()
    };

    assert_eq!(font_name_for_cell(&cell), CHINESE_FONT_NAME);
}

#[test]
fn no_candidate_is_chosen_when_nothing_is_installed() {
    let chosen = choose_font_candidate(&english_font_candidates(), |_| false);
    assert!(chosen.is_none());
    let chosen = choose_font_candidate(&chinese_font_candidates(), |family| family == "SimHei");
    assert_eq!(chosen.unwrap().families, &["SimHei"]);
}

#[test]
fn registry_scores_rank_exact_then_prefix_then_inner_matches() {
    assert_eq!(registry_font_name_score("Cascadia Mono Bold (TrueType)", "Cascadia Mono"), Some(5));
    assert_eq!(registry_font_name_score("SimHei & Microsoft YaHei UI (TrueType)", "SimHei"), Some(17));
    assert_eq!(registry_font_name_score("Microsoft SimHei", "SimHei"), Some(100 + 9));
    assert_eq!(registry_font_name_score("Arial (TrueType)", "SimHei"), None);
    assert_eq!(normalize_font_name("Noto Sans-Mono 2"), "notosansmono2".chars().collect::<Vec<char>>());
}

#[test]
fn family_chain_names_each_font_once() {
    let fallbacks = vec!["a".to_owned(), "b".to_owned(), "a".to_owned()];
    assert_eq!(
        family_chain(Some("b"), Some("b"), &fallbacks),
        vec!["b".to_owned(), "a".to_owned()]
    );
}
