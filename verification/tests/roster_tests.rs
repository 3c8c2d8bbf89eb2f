use canicasbrawl::roster::{
    build_roster, character_config, character_from_image, character_image_path, default_roster,
    asset_path, resolve_roster, slots_roster, spawn_grid, RosterError,
};
use canicasbrawl::args::RosterSpec;

#[test]
fn image_path_is_lower_case() {
    assert_eq!(character_image_path("Goku"), "characters/goku.png");
    assert_eq!(character_image_path("Ben10"), "characters/ben10.png");
    assert_eq!(character_image_path("ÉLAN"), "characters/élan.png");
}

#[test]
fn slots_roster_names_anonymous_marbles() {
    let roster = slots_roster(3).ok().unwrap();
    let names: Vec<&str> = roster.iter().map(|m| m.nickname.as_str()).collect();
    assert_eq!(names, vec!["slot_0", "slot_1", "slot_2"]);
    assert!(roster.iter().all(|m| m.image.is_none()));
    assert_eq!(slots_roster(9).ok().unwrap().len(), 9);
}

#[test]
fn slots_roster_bounds() {
    assert!(matches!(slots_roster(0), Err(RosterError::SlotsOutOfRange(0))));
    assert!(matches!(slots_roster(10), Err(RosterError::SlotsOutOfRange(10))));
}

#[test]
fn too_many_characters() {
    let names: Vec<String> = (0..10).map(|i| format!("c{i}")).collect();
    assert!(matches!(build_roster(Some(names)), Err(RosterError::TooManyCharacters(10))));
}

#[test]
fn missing_face_image_is_reported() {
    match character_config("NoSuchCharacterAnywhere") {
        Err(RosterError::MissingImage { name, image }) => {
            assert_eq!(name, "NoSuchCharacterAnywhere");
            assert_eq!(image, "characters/nosuchcharacteranywhere.png");
        }
        _ => panic!("expected a missing image"),
    }
}

#[test]
fn present_image_gives_a_character() {
    let c = character_from_image("Finn", "characters/finn.png".to_string(), true).ok().unwrap();
    assert_eq!(c.nickname, "Finn");
    assert_eq!(c.image.as_deref(), Some("characters/finn.png"));
    assert!(character_from_image("Finn", "characters/finn.png".to_string(), false).is_err());
}

#[test]
fn default_roster_needs_its_images() {
    // No assets directory here: the first default character is reported missing.
    match default_roster() {
        Err(RosterError::MissingImage { name, .. }) => assert_eq!(name, "Marceline"),
        Ok(roster) => assert_eq!(roster.len(), 9),
        Err(_) => panic!("unexpected error"),
    }
}

#[test]
fn resolve_dispatches_on_the_spec() {
    assert_eq!(resolve_roster(RosterSpec::Slots(2)).ok().unwrap().len(), 2);
    assert!(matches!(resolve_roster(RosterSpec::Slots(0)), Err(RosterError::SlotsOutOfRange(0))));
    assert!(build_roster(Some(vec![])).ok().unwrap().is_empty());
}

#[test]
fn roster_errors_read_as_messages() {
    assert_eq!(
        RosterError::TooManyCharacters(10).message(),
        "Pediste 10 personajes pero el grid de salida es 3×3 (máximo 9)."
    );
    assert_eq!(
        RosterError::SlotsOutOfRange(0).message(),
        "--slots 0: el grid de salida es 3×3 (entre 1 y 9)."
    );
    assert_eq!(
        RosterError::MissingImage {
            name: "Goku".to_string(),
            image: "characters/goku.png".to_string(),
        }
        .message(),
        "Personaje 'Goku' sin imagen: falta assets/characters/goku.png. Revisa el nombre (CamelCase canónico) o agrega el asset."
    );
}

#[test]
fn starting_grid_is_filled_row_by_row_from_the_top_left() {
    assert_eq!(
        spawn_grid(),
        vec![(-1, 1), (0, 1), (1, 1), (-1, 0), (0, 0), (1, 0), (-1, -1), (0, -1), (1, -1)]
    );
}

#[test]
fn assets_live_under_the_assets_directory() {
    assert_eq!(asset_path("characters/goku.png"), "assets/characters/goku.png");
    assert_eq!(asset_path(""), "assets/");
}
