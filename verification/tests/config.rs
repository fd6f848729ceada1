use mandelbrot_set::config::{
    flag_for_key, parse_argument, property_for_key, split_argument, value_error, Argument, Flag,
    Property,
};
use mandelbrot_set::config_iter_from_quality;

#[test]
fn quality_levels_name_fixed_caps() {
    assert_eq!(config_iter_from_quality(0), 20);
    assert_eq!(config_iter_from_quality(1), 500);
    assert_eq!(config_iter_from_quality(2), 1000);
    assert_eq!(config_iter_from_quality(3), 5000);
    assert_eq!(config_iter_from_quality(4), 20000);
}

#[test]
fn other_quality_levels_are_the_cap_itself() {
    assert_eq!(config_iter_from_quality(5), 5);
    assert_eq!(config_iter_from_quality(12345), 12345);
    assert_eq!(config_iter_from_quality(i32::MAX), 2147483647);
}

#[test]
fn negative_quality_levels_count_by_magnitude() {
    assert_eq!(config_iter_from_quality(-1), 1);
    assert_eq!(config_iter_from_quality(-300), 300);
    assert_eq!(config_iter_from_quality(i32::MIN), 2147483648);
}

#[test]
fn split_argument_without_equals_has_no_value() {
    assert_eq!(split_argument("debug"), (String::from("debug"), None));
    assert_eq!(split_argument(""), (String::new(), None));
}

#[test]
fn split_argument_cuts_at_the_first_equals() {
    assert_eq!(
        split_argument("w=100"),
        (String::from("w"), Some(String::from("100")))
    );
    assert_eq!(
        split_argument("path=out/img.png"),
        (String::from("path"), Some(String::from("out/img.png")))
    );
}

#[test]
fn split_argument_drops_what_follows_a_second_equals() {
    assert_eq!(
        split_argument("w=100=200=300"),
        (String::from("w"), Some(String::from("100")))
    );
}

#[test]
fn split_argument_keeps_empty_keys_and_values() {
    assert_eq!(split_argument("w="), (String::from("w"), Some(String::new())));
    assert_eq!(split_argument("=5"), (String::new(), Some(String::from("5"))));
    assert_eq!(split_argument("="), (String::new(), Some(String::new())));
    assert_eq!(split_argument("a=="), (String::from("a"), Some(String::new())));
}

#[test]
fn split_argument_counts_characters_not_bytes() {
    assert_eq!(
        split_argument("grüße=wörld=x"),
        (String::from("grüße"), Some(String::from("wörld")))
    );
}

#[test]
fn flags_are_known_by_both_names() {
    assert_eq!(flag_for_key("img"), Ok(Flag::Image));
    assert_eq!(flag_for_key("image"), Ok(Flag::Image));
    assert_eq!(flag_for_key("debug"), Ok(Flag::Debug));
    assert_eq!(flag_for_key("dbg"), Ok(Flag::Debug));
}

#[test]
fn unknown_flag_is_reported_by_name() {
    let error = flag_for_key("verbose").unwrap_err();
    assert_eq!(error.msg, "Property not found: verbose");
    assert_eq!(error.message(), "Property not found: verbose");
    let error = flag_for_key("").unwrap_err();
    assert_eq!(error.msg, "Property not found: ");
    let error = flag_for_key("Debug").unwrap_err();
    assert_eq!(error.msg, "Property not found: Debug");
}

#[test]
fn numeric_properties_are_known_by_both_names() {
    assert_eq!(property_for_key("iter"), Ok(Property::Iterations));
    assert_eq!(property_for_key("iterations"), Ok(Property::Iterations));
    assert_eq!(property_for_key("thres"), Ok(Property::Threshold));
    assert_eq!(property_for_key("threshold"), Ok(Property::Threshold));
    assert_eq!(property_for_key("w"), Ok(Property::Width));
    assert_eq!(property_for_key("width"), Ok(Property::Width));
    assert_eq!(property_for_key("quality"), Ok(Property::Quality));
    assert_eq!(property_for_key("q"), Ok(Property::Quality));
}

#[test]
fn quality_key_gives_a_level_not_a_cap() {
    let (key, value) = split_argument("quality=2");
    assert_eq!(value, Some(String::from("2")));
    assert_eq!(property_for_key(&key), Ok(Property::Quality));
    assert_ne!(property_for_key(&key), property_for_key("iter"));
    assert_eq!(config_iter_from_quality(2), 1000);
}

#[test]
fn value_that_is_no_number_is_reported_with_its_argument() {
    assert_eq!(
        value_error("w=abc").msg,
        "Error while parsing argument w=abc"
    );
    assert_eq!(value_error("").msg, "Error while parsing argument ");
}

#[test]
fn unknown_numeric_property_is_reported_by_name() {
    let error = property_for_key("height").unwrap_err();
    assert_eq!(error.msg, "Property not found: height");
    let error = property_for_key("path").unwrap_err();
    assert_eq!(error.msg, "Property not found: path");
}

#[test]
fn argument_without_value_is_a_flag() {
    assert_eq!(parse_argument("img"), Ok(Argument::Flag(Flag::Image)));
    assert_eq!(parse_argument("dbg"), Ok(Argument::Flag(Flag::Debug)));
}

#[test]
fn argument_without_value_that_is_no_flag_fails() {
    let error = parse_argument("width").unwrap_err();
    assert_eq!(error.msg, "Property not found: width");
}

#[test]
fn path_argument_keeps_its_text() {
    assert_eq!(
        parse_argument("path=a.png"),
        Ok(Argument::ImagePath(String::from("a.png")))
    );
    assert_eq!(parse_argument("p="), Ok(Argument::ImagePath(String::new())));
}

#[test]
fn other_valued_argument_is_a_number_under_its_key() {
    assert_eq!(
        parse_argument("w=120.5"),
        Ok(Argument::Number {
            key: String::from("w"),
            text: String::from("120.5")
        })
    );
    assert_eq!(
        parse_argument("nonsense=abc"),
        Ok(Argument::Number {
            key: String::from("nonsense"),
            text: String::from("abc")
        })
    );
    assert_eq!(
        parse_argument("img=1"),
        Ok(Argument::Number {
            key: String::from("img"),
            text: String::from("1")
        })
    );
}
