use ki2::model::property::{next_field_ordinal, next_lib_field_ordinal, Property};
use ki2::model::PropertyKind;

#[test]
fn new_fields_take_their_role_defaults() {
    let reference = Property::new(PropertyKind::SymbolReference, "R1".to_string());
    assert_eq!(reference.key, "Reference");
    assert_eq!(reference.id, Some(1));
    assert_eq!(reference.ordinal, 1);
    assert!(reference.visible);
    assert!(!reference.show_name);
    assert!(reference.can_autoplace);
    assert!(!reference.is_private);
    assert_eq!(reference.base_value, None);
    let refs = Property::new(PropertyKind::GlobalLabelIntersheetRefs, "${INTERSHEET_REFS}".to_string());
    assert_eq!(refs.key, "Intersheet References");
    assert_eq!(refs.base_value.as_deref(), Some("${INTERSHEET_REFS}"));
    assert_eq!(refs.id, Some(6));
}

#[test]
fn named_fields_keep_user_names_only() {
    let user = Property::new_named(PropertyKind::User, "MPN", "RC0603".to_string(), true);
    assert_eq!(user.key, "MPN");
    assert_eq!(user.id, Some(0));
    assert!(user.is_private);
    let sheet_user = Property::new_named(PropertyKind::SheetUser, "Owner", "me".to_string(), false);
    assert_eq!(sheet_user.key, "Owner");
    assert_eq!(sheet_user.ordinal, 9);
    let value = Property::new_named(PropertyKind::SymbolValue, "ignored", "10k".to_string(), false);
    assert_eq!(value.key, "Value");
}

#[test]
fn sort_ordinals_prefer_mandatory_ids() {
    let mut p = Property::new(PropertyKind::SymbolFootprint, String::new());
    p.ordinal = 50;
    assert_eq!(p.sort_ordinal(), 3);
    p.id = None;
    assert_eq!(p.sort_ordinal(), 50);
    let mut u = Property::new_named(PropertyKind::User, "X", String::new(), false);
    u.id = Some(99);
    u.ordinal = 44;
    assert_eq!(u.sort_ordinal(), 44);
}

#[test]
fn next_ordinals_start_at_42_and_advance() {
    let mandatory = vec![
        Property::new(PropertyKind::SymbolReference, String::new()),
        Property::new(PropertyKind::SymbolValue, String::new()),
    ];
    assert_eq!(next_field_ordinal(&mandatory), 42);
    assert_eq!(next_field_ordinal(&Vec::new()), 42);
    let mut user = Property::new_named(PropertyKind::User, "Note", String::new(), false);
    user.ordinal = 42;
    let mut fields = mandatory.clone();
    fields.push(user);
    assert_eq!(next_field_ordinal(&fields), 43);
    assert_eq!(next_lib_field_ordinal(&fields, &vec![None, Some(42), Some(47)]), 48);
    assert_eq!(next_lib_field_ordinal(&mandatory, &vec![None]), 42);
}

#[test]
fn hidden_lib_fields_advance_lib_symbol_ordinals() {
    // The fields of a new library symbol such as `Device:R`, and one drawn field with
    // ordinal 42.
    let fields = vec![
        Property::new(PropertyKind::SymbolReference, String::new()),
        Property::new(PropertyKind::SymbolValue, String::new()),
        Property::new(PropertyKind::SymbolFootprint, String::new()),
        Property::new(PropertyKind::SymbolDatasheet, String::new()),
        Property::new(PropertyKind::SymbolDescription, String::new()),
    ];
    assert_eq!(next_lib_field_ordinal(&fields, &vec![Some(42)]), 43);
}
