use ffbetool::cli::{
    create_unit, determine_animation_file_type, AnimFileType, Args, UnitIdentifier,
};

#[test]
fn test_determine_animation_file_type() {
    let args_gif = Args {
        uid: UnitIdentifier::Id(123),
        anim: Some("test".to_string()),
        columns: 0,
        include_empty: false,
        verbose: false,
        save_json: false,
        save_gif: true,
        save_apng: false,
        input_dir: ".".to_string(),
        output_dir: ".".to_string(),
    };

    let args_apng = Args {
        save_gif: false,
        save_apng: true,
        ..args_gif.clone()
    };

    let args_none = Args {
        save_gif: false,
        save_apng: false,
        ..args_gif.clone()
    };

    assert!(matches!(
        determine_animation_file_type(&args_gif),
        AnimFileType::Gif
    ));
    assert!(matches!(
        determine_animation_file_type(&args_apng),
        AnimFileType::Apng
    ));
    assert!(matches!(
        determine_animation_file_type(&args_none),
        AnimFileType::NoFile
    ));
}

#[test]
fn test_create_unit() {
    let frames = vec![vec![]]; // one frame template without parts
    let unit = create_unit(12345, frames);

    assert_eq!(unit.id, 12345);
    assert_eq!(unit.frames.len(), 1);
    assert!(unit.top_left.is_none());
    assert!(unit.bottom_right.is_none());
}

#[test]
fn unit_identifier_reads_numbers_and_names() {
    assert!(matches!(UnitIdentifier::parse("204000103"), UnitIdentifier::Id(204000103)));
    assert!(matches!(UnitIdentifier::parse("+7"), UnitIdentifier::Id(7)));
    match UnitIdentifier::parse("Cecil") {
        UnitIdentifier::Name(name) => assert_eq!(name, "Cecil"),
        _ => panic!("a name was expected"),
    }
    // one more than the largest unit number is a name
    assert!(matches!(UnitIdentifier::parse("4294967296"), UnitIdentifier::Name(_)));
    assert!(matches!(UnitIdentifier::parse("-1"), UnitIdentifier::Name(_)));
    assert!(matches!(UnitIdentifier::parse(""), UnitIdentifier::Name(_)));
}

#[test]
fn unit_identifier_from_str_never_fails() {
    let id: UnitIdentifier = "401012417".parse().unwrap();
    assert!(matches!(id, UnitIdentifier::Id(401012417)));
    let name: UnitIdentifier = "Rain".parse().unwrap();
    match name {
        UnitIdentifier::Name(name) => assert_eq!(name, "Rain"),
        _ => panic!("a name was expected"),
    }
}

#[test]
fn animated_file_kinds_by_name() {
    assert_eq!(AnimFileType::from_name("apng"), AnimFileType::Apng);
    assert_eq!(AnimFileType::from_name("gif"), AnimFileType::Gif);
    assert_eq!(AnimFileType::from_name("GIF"), AnimFileType::NoFile);
    assert_eq!(AnimFileType::from_name("png"), AnimFileType::NoFile);
    assert_eq!(AnimFileType::from_name(""), AnimFileType::NoFile);
}
