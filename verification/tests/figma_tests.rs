use canicasbrawl::content;
use canicasbrawl::figma_to_modules::{
    base_name, has_tag, image_texture, layer_label, merge_frame_tags, optional_tag,
    parse_slot_options, required_tag, shape_kind, split_frame_name, tag_text, to_snake_case,
    ShapeKind, TagError,
};

#[test]
fn frame_names_become_snake_case() {
    assert_eq!(to_snake_case("ZigZag"), "zig_zag");
    assert_eq!(to_snake_case("BouncyWalls"), "bouncy_walls");
    assert_eq!(to_snake_case("crosses"), "crosses");
    assert_eq!(to_snake_case("HEX"), "h_e_x");
    assert_eq!(to_snake_case(""), "");
    assert_eq!(to_snake_case("Éa"), "éa");
}

#[test]
fn frame_tags_split_off() {
    assert_eq!(split_frame_name("Crosses|wz1.5"), ("Crosses".to_string(), "|wz1.5".to_string()));
    assert_eq!(split_frame_name("Zigzag"), ("Zigzag".to_string(), String::new()));
    assert_eq!(split_frame_name("|bouncy"), (String::new(), "|bouncy".to_string()));
    assert_eq!(merge_frame_tags("platform|r45", "|wz1.5"), "platform|r45|wz1.5");
}

#[test]
fn base_names() {
    assert_eq!(base_name(" Sphere |fr0.2"), "sphere");
    assert_eq!(base_name("platform"), "platform");
    assert_eq!(base_name(""), "");
    assert_eq!(content::base_name(" Sphere |fr0.2"), "Sphere");
}

#[test]
fn shape_kinds() {
    assert_eq!(shape_kind("sphere|bouncy"), ShapeKind::Sphere);
    assert_eq!(shape_kind("Torus|t0.05"), ShapeKind::Torus);
    assert_eq!(shape_kind("image|logo"), ShapeKind::Image);
    assert_eq!(shape_kind("effect|freeze"), ShapeKind::Effect);
    assert_eq!(shape_kind("slot|swap"), ShapeKind::Slot);
    assert_eq!(shape_kind("platform|r45"), ShapeKind::Box);
    assert_eq!(shape_kind("spheres"), ShapeKind::Box);
}

#[test]
fn tag_numbers() {
    assert_eq!(tag_text("platform|r45|w1.5", "|r").as_deref(), Some("45"));
    assert_eq!(tag_text("platform|r45|w1.5", "|w").as_deref(), Some("1.5"));
    assert_eq!(tag_text("platform|w-1.5", "|w").as_deref(), Some("-1.5"));
    assert_eq!(tag_text("box|wz-2.5x", "|wz").as_deref(), Some("-2.5"));
    assert_eq!(tag_text("platform", "|r").as_deref(), None);
    assert_eq!(tag_text("box|rot", "|r").as_deref(), Some(""));
    assert_eq!(tag_text("torus|t0.05|r90", "|t").as_deref(), Some("0.05"));
}

#[test]
fn bouncy_tag() {
    assert!(has_tag("sphere|bouncy", "|bouncy"));
    assert!(!has_tag("sphere|bounc", "|bouncy"));
}

#[test]
fn labels_and_textures() {
    assert_eq!(layer_label("image| logo |r10").as_deref(), Some("logo"));
    assert_eq!(layer_label("image|  ").as_deref(), None);
    assert_eq!(layer_label("image").as_deref(), None);
    assert_eq!(image_texture("image|canicas_logo").as_deref(), Some("img/canicas_logo.png"));
    assert_eq!(image_texture("image|").as_deref(), None);
}

#[test]
fn slot_options() {
    assert_eq!(parse_slot_options("slot|freeze, swap"), vec!["freeze", "swap"]);
    assert_eq!(parse_slot_options("slot|freeze,,shrink ,"), vec!["freeze", "shrink"]);
    assert!(parse_slot_options("slot|freeze,boom").is_empty());
    assert!(parse_slot_options("slot").is_empty());
    assert!(parse_slot_options("slot|").is_empty());
    assert!(parse_slot_options("slot|r45").is_empty());
}

#[test]
fn tags_give_numbers_only_when_they_read_as_numbers() {
    assert_eq!(optional_tag("platform|fr0.4|re0.9", "|fr"), Some("0.4".to_string()));
    assert_eq!(optional_tag("platform|fr0.4|re0.9", "|re"), Some("0.9".to_string()));
    assert_eq!(optional_tag("platform|fr0.4", "|br"), None);
    assert_eq!(optional_tag("platform|br", "|br"), None);
    assert_eq!(optional_tag("platform|br1.2.3", "|br"), None);
    assert_eq!(optional_tag("platform|w-1.5", "|w"), Some("-1.5".to_string()));
    assert_eq!(required_tag("torus|t0.05", "|t"), Ok("0.05".to_string()));
    assert_eq!(required_tag("torus", "|t"), Err(TagError::Missing));
    assert_eq!(required_tag("torus|t-", "|t"), Err(TagError::NotANumber));
}
