use arena_next::rules::{
    ArenaModeRules, ArenaRulesManifest, RedraftPolicy, RulesError, ARENA_RULES_SCHEMA_VERSION,
};

fn manifest() -> ArenaRulesManifest {
    ArenaRulesManifest {
        schema_version: ARENA_RULES_SCHEMA_VERSION,
        season: Some("fixture".to_owned()),
        source: Some("local-test".to_owned()),
        default_mode: Some("the-arena".to_owned()),
        modes: vec![
            ArenaModeRules {
                id: "the-arena".to_owned(),
                expected_deck_slots: 30,
                redraft: None,
            },
            ArenaModeRules {
                id: "underground".to_owned(),
                expected_deck_slots: 30,
                redraft: Some(RedraftPolicy { pick_rounds: 5, discard_count: 5 }),
            },
        ],
    }
}

#[test]
fn resolves_explicit_or_default_mode_without_a_hidden_default_size() {
    let rules = manifest();
    assert_eq!(rules.resolve(None).unwrap().expected_deck_slots, 30);
    assert_eq!(rules.resolve(Some("UNDERGROUND")).unwrap().mode_id, "underground");
    assert_eq!(
        rules.resolve(Some("underground")).unwrap().redraft,
        Some(RedraftPolicy { pick_rounds: 5, discard_count: 5 })
    );
}

#[test]
fn rejects_ambiguous_or_invalid_manifests() {
    let mut ambiguous = manifest();
    ambiguous.default_mode = None;
    assert!(ambiguous.resolve(None).is_err());

    let mut zero_slots = manifest();
    zero_slots.modes[0].expected_deck_slots = 0;
    assert!(zero_slots.validate().is_err());

    let mut duplicate = manifest();
    duplicate.modes[1].id = "THE-ARENA".to_owned();
    assert!(duplicate.validate().is_err());

    let mut zero_pick_rounds = manifest();
    zero_pick_rounds.modes[1].redraft.as_mut().unwrap().pick_rounds = 0;
    assert!(zero_pick_rounds.validate().is_err());

    let mut zero_discards = manifest();
    zero_discards.modes[1].redraft.as_mut().unwrap().discard_count = 0;
    assert!(zero_discards.validate().is_err());
}

#[test]
fn each_fault_of_a_manifest_has_its_name() {
    let mut schema = manifest();
    schema.schema_version = 9;
    assert_eq!(schema.validate(), Err(RulesError::Schema));
    let mut none = manifest();
    none.modes.clear();
    assert_eq!(none.validate(), Err(RulesError::NoModes));
    let mut unnamed = manifest();
    unnamed.modes[1].id = "  ".to_owned();
    assert_eq!(unnamed.validate(), Err(RulesError::EmptyModeId));
    let mut slots = manifest();
    slots.modes[1].expected_deck_slots = 0;
    assert_eq!(slots.validate(), Err(RulesError::ZeroSlots { mode: 1 }));
    let mut redraft = manifest();
    redraft.modes[1].redraft = Some(RedraftPolicy { pick_rounds: 0, discard_count: 1 });
    assert_eq!(redraft.validate(), Err(RulesError::ZeroRedraft { mode: 1 }));
    let mut twice = manifest();
    twice.modes[1].id = "The-Arena".to_owned();
    assert_eq!(twice.validate(), Err(RulesError::DuplicateMode { mode: 1 }));
    let mut blank = manifest();
    blank.default_mode = Some(" ".to_owned());
    assert_eq!(blank.validate(), Err(RulesError::EmptyDefault));
    let mut unknown = manifest();
    unknown.default_mode = Some("duels".to_owned());
    assert_eq!(unknown.validate(), Err(RulesError::UnknownDefault));
    assert_eq!(manifest().resolve(Some("  ")), Err(RulesError::EmptyRequest));
    assert_eq!(manifest().resolve(Some("duels")), Err(RulesError::UnknownRequest));
    let mut open = manifest();
    open.default_mode = None;
    assert_eq!(open.resolve(None), Err(RulesError::Ambiguous));
    open.modes.pop();
    assert_eq!(open.resolve(None).unwrap().mode_id, "the-arena");
}

#[test]
fn a_refused_mode_is_named() {
    assert_eq!(
        manifest().error_message(RulesError::UnknownRequest, "duels"),
        "Arena rules manifest has no mode `duels`"
    );
}

#[test]
fn a_single_mode_is_held_to_the_same_rules() {
    let mut single = manifest();
    single.modes.remove(0);
    single.default_mode = None;
    let resolved = single.resolve(None).unwrap();
    assert!(resolved.expected_deck_slots > 0);
    assert_eq!(resolved.redraft, Some(RedraftPolicy { pick_rounds: 5, discard_count: 5 }));
    single.modes[0].expected_deck_slots = 0;
    assert_eq!(single.resolve(None), Err(RulesError::ZeroSlots { mode: 0 }));
    single.modes[0].expected_deck_slots = 30;
    single.modes[0].redraft = Some(RedraftPolicy { pick_rounds: 5, discard_count: 0 });
    assert_eq!(single.validate(), Err(RulesError::ZeroRedraft { mode: 0 }));
}
