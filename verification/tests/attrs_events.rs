use compile_mode::attrs::{
    check_is_event_attr, convert_jsx_attr_key, identify_jsx_event_key, to_kebab_case, Adapter,
    ConfigError,
};

fn full_adapter() -> Adapter {
    Adapter {
        if_attr: Some(String::from("wx:if")),
        else_attr: Some(String::from("wx:else")),
        for_attr: Some(String::from("wx:for")),
        for_key_attr: Some(String::from("wx:key")),
    }
}

#[test]
fn kebab_case_inserts_one_hyphen_per_internal_capital() {
    assert_eq!("scroll-into-view", to_kebab_case("scrollIntoView"));
    assert_eq!("upper-threshold-count", to_kebab_case("upperThresholdCount"));
    assert_eq!("a-bc-d", to_kebab_case("aBcD"));
    assert_eq!("plain", to_kebab_case("plain"));
    assert_eq!("", to_kebab_case(""));
}

#[test]
fn class_name_becomes_class() {
    let r = convert_jsx_attr_key("className", &full_adapter());
    assert_eq!(r.ok(), Some(String::from("class")));
}

#[test]
fn control_flow_keys_use_the_adapter() {
    let a = full_adapter();
    assert_eq!(convert_jsx_attr_key("if", &a).ok(), Some(String::from("wx:if")));
    assert_eq!(convert_jsx_attr_key("else", &a).ok(), Some(String::from("wx:else")));
    assert_eq!(convert_jsx_attr_key("for", &a).ok(), Some(String::from("wx:for")));
    assert_eq!(convert_jsx_attr_key("for-key", &a).ok(), Some(String::from("wx:key")));
}

#[test]
fn missing_control_flow_entry_is_a_fatal_configuration_error() {
    let a = Adapter {
        if_attr: Some(String::from("wx:if")),
        else_attr: None,
        for_attr: None,
        for_key_attr: None,
    };
    match convert_jsx_attr_key("for", &a) {
        Err(ConfigError::MissingControlFlow(k)) => assert_eq!(k, "for"),
        _ => panic!("expected the missing-adapter error"),
    }
    match convert_jsx_attr_key("for-key", &a) {
        Err(ConfigError::MissingControlFlow(k)) => assert_eq!(k, "for-key"),
        _ => panic!("expected the missing-adapter error"),
    }
}

#[test]
fn ordinary_keys_convert_to_kebab_case() {
    let r = convert_jsx_attr_key("scrollTop", &full_adapter());
    assert_eq!(r.ok(), Some(String::from("scroll-top")));
}

#[test]
fn event_attrs_start_with_on_and_a_capital() {
    assert!(check_is_event_attr("onClick"));
    assert!(check_is_event_attr("onScroll"));
    assert!(!check_is_event_attr("on1thing"));
    assert!(!check_is_event_attr("onclick"));
    assert!(!check_is_event_attr("on"));
    assert!(!check_is_event_attr("id"));
}

#[test]
fn click_binds_as_tap_on_the_default_platform() {
    assert_eq!(
        identify_jsx_event_key("onClick", "WEAPP"),
        Some(String::from("bindtap"))
    );
    assert_eq!(
        identify_jsx_event_key("onScrollStart", "WEAPP"),
        Some(String::from("bindscrollstart"))
    );
}

#[test]
fn worklet_handlers_keep_their_spelling_lower_cased() {
    assert_eq!(
        identify_jsx_event_key("onScrollUpdateWorklet", "WEAPP"),
        Some(String::from("worklet:onscrollupdate"))
    );
}

#[test]
fn worklet_callbacks_go_to_kebab_case() {
    assert_eq!(
        identify_jsx_event_key("shouldResponseOnMoveWorklet", "WEAPP"),
        Some(String::from("worklet:should-response-on-move"))
    );
}

#[test]
fn the_touch_first_platform_keeps_on_tap_and_original_spellings() {
    assert_eq!(
        identify_jsx_event_key("onClick", "ALIPAY"),
        Some(String::from("onTap"))
    );
    assert_eq!(
        identify_jsx_event_key("onScroll", "ALIPAY"),
        Some(String::from("onScroll"))
    );
}

#[test]
fn non_event_keys_resolve_to_none() {
    assert_eq!(identify_jsx_event_key("id", "WEAPP"), None);
    assert_eq!(identify_jsx_event_key("on1thing", "WEAPP"), None);
}
