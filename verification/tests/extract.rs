use revup::extract::{walk_entities, ExtractError};

#[test]
fn missing_marker_is_not_found() {
    let out = String::from("rev2 did something\nbut printed no entity block\n");
    assert_eq!(walk_entities(out), Err(ExtractError::NotFound));
}

#[test]
fn marker_without_entity_lines_is_empty_result() {
    let out = String::from("New Entities\nnothing that looks like an entity\n");
    assert_eq!(walk_entities(out), Err(ExtractError::EmptyResult));
}

#[test]
fn empty_output_is_not_found() {
    assert_eq!(walk_entities(String::new()), Err(ExtractError::NotFound));
}

#[test]
fn component_and_package_lines_in_order() {
    let out = String::from("New Entities\n└─ Component: addr1 extra\n└─ Package: addr2 extra");
    let entities = walk_entities(out).unwrap();
    assert_eq!(entities, vec!["addr1".to_string(), "addr2".to_string()]);
}

#[test]
fn resource_def_line_is_extracted() {
    let out = String::from("header\nNew Entities\n└─ ResourceDef: res9f3 supply\n");
    let entities = walk_entities(out).unwrap();
    assert_eq!(entities, vec!["res9f3".to_string()]);
}

#[test]
fn last_marker_occurrence_wins() {
    let out = String::from(
        "New Entities\n└─ Component: first extra\ntail\nNew Entities\n└─ Component: second extra\n",
    );
    let entities = walk_entities(out).unwrap();
    assert_eq!(entities, vec!["second".to_string()]);
}

#[test]
fn text_before_marker_is_ignored() {
    let out = String::from(
        "└─ Component: early extra\nNew Entities\n└─ Component: late extra\n",
    );
    let entities = walk_entities(out).unwrap();
    assert_eq!(entities, vec!["late".to_string()]);
}

#[test]
fn lines_without_entity_labels_are_skipped() {
    let out = String::from(
        "New Entities\n├─ Account: acct1 extra\n└─ Component: kept extra\nplain text\n",
    );
    let entities = walk_entities(out).unwrap();
    assert_eq!(entities, vec!["kept".to_string()]);
}

#[test]
fn labelled_line_without_address_yields_nothing() {
    let out = String::from("New Entities\n└─ Component: \n");
    assert_eq!(walk_entities(out), Err(ExtractError::EmptyResult));
}

#[test]
fn crlf_line_endings_are_handled() {
    let out = String::from("New Entities\r\n└─ Component: addrx extra\r\n");
    let entities = walk_entities(out).unwrap();
    assert_eq!(entities, vec!["addrx".to_string()]);
}

#[test]
fn error_message_text() {
    assert_eq!(ExtractError::NotFound.message(), "No entities found");
    assert_eq!(ExtractError::EmptyResult.message(), "No entities found");
}
