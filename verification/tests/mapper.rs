use roguelike::mapper;
use roguelike::substate::StateKind;

#[test]
fn mapper_returns_correct_value() {
    if let Ok(_) = mapper::from_id("menu") {
        assert!(true);
    } else {
        panic!("Didn't receive expected value from mapper!");
    }
}

#[test]
fn mapper_returns_err_on_invalid_id() {
    assert!(mapper::from_id("asdf").is_err());
}

#[test]
fn mapper_names_each_sub_state() {
    assert_eq!(mapper::from_id("menu"), Ok(StateKind::Menu));
    assert_eq!(mapper::from_id("mapgen"), Ok(StateKind::MapGen));
    assert_eq!(mapper::from_id("about"), Ok(StateKind::About));
}

#[test]
fn mapper_says_which_id_is_unknown() {
    assert_eq!(
        mapper::from_id("asdf"),
        Err(String::from("No sub-state was found with ID asdf!"))
    );
    assert_eq!(
        mapper::from_id(""),
        Err(String::from("No sub-state was found with ID !"))
    );
    assert!(mapper::from_id("Menu").is_err());
}

#[test]
fn state_kinds_name_themselves() {
    assert_eq!(StateKind::Menu.id(), "menu");
    assert_eq!(StateKind::MapGen.id(), "mapgen");
    assert_eq!(StateKind::About.id(), "about");
    assert_eq!(mapper::from_id(StateKind::About.id()), Ok(StateKind::About));
}
