use merde::deserialize::none_of;
use merde::{CowStr, DefaultDeserOpinions, DeserOpinions, FieldSlot};

#[test]
fn test_fieldslot_no_assign() {
    let mut option: Option<i32> = None;

    {
        let slot = FieldSlot::new(&mut option);
        // let it drop
        let _ = slot;
    }

    assert!(option.is_none());
}

#[test]
fn test_fieldslot_with_assign() {
    let mut option: Option<i32> = None;

    {
        let slot = FieldSlot::new(&mut option);
        slot.fill::<i32>(42);
    }

    assert_eq!(option, Some(42));
}

#[test]
fn fieldslot_fill_replaces_a_previous_value() {
    let mut option: Option<String> = Some("old".to_string());
    {
        let slot = FieldSlot::new(&mut option);
        slot.fill::<String>("new".to_string());
    }
    assert_eq!(option.as_deref(), Some("new"));
}

#[test]
fn default_opinions_allow_unknown_fields_and_keep_names() {
    let opinions = DefaultDeserOpinions;
    assert!(!opinions.deny_unknown_fields());
    let key = opinions.map_key_name(CowStr::from("jazzBand"));
    assert_eq!(key, "jazzBand");

    let mut option: Option<i32> = None;
    opinions.default_field_value("b", FieldSlot::new(&mut option));
    assert!(option.is_none());
}

#[test]
fn none_of_names_the_closure_output_type() {
    let v: Option<u64> = none_of(|x: u32| x as u64);
    assert!(v.is_none());
}
