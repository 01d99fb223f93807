use cosmic_world_clock::locale::{locale_candidates, select_locale_tag};

fn values(list: &[Option<&str>]) -> Vec<Option<String>> {
    list.iter().map(|v| v.map(|s| s.to_string())).collect()
}

#[test]
fn candidates_drop_the_encoding_and_use_dashes() {
    assert_eq!(locale_candidates("en_US.UTF-8"), ("en-US".to_string(), "en".to_string()));
    assert_eq!(locale_candidates("de_DE"), ("de-DE".to_string(), "de".to_string()));
    assert_eq!(locale_candidates("C.UTF-8"), ("C".to_string(), "C".to_string()));
    assert_eq!(locale_candidates("sr_RS.UTF-8@latin"), ("sr-RS".to_string(), "sr".to_string()));
    assert_eq!(locale_candidates(""), (String::new(), String::new()));
    assert_eq!(locale_candidates("a_b_c.d.e"), ("a-b-c".to_string(), "a".to_string()));
}

#[test]
fn first_variable_with_a_locale_wins() {
    assert_eq!(
        select_locale_tag(&values(&[None, Some("fr_FR.UTF-8"), Some("en_US.UTF-8")])),
        Some("fr-FR".to_string())
    );
    assert_eq!(
        select_locale_tag(&values(&[Some("ja_JP.UTF-8"), None, Some("en_US.UTF-8")])),
        Some("ja-JP".to_string())
    );
}

#[test]
fn language_is_tried_when_the_whole_tag_fails() {
    assert_eq!(select_locale_tag(&values(&[Some("en_!!.UTF-8")])), Some("en".to_string()));
}

#[test]
fn unparsable_values_fall_through() {
    assert_eq!(
        select_locale_tag(&values(&[Some("C.UTF-8"), None, Some("de_DE.UTF-8")])),
        Some("de-DE".to_string())
    );
    assert_eq!(select_locale_tag(&values(&[Some("C"), Some("")])), None);
    assert_eq!(select_locale_tag(&values(&[None, None, None])), None);
    assert_eq!(select_locale_tag(&values(&[])), None);
}
