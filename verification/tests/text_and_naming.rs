use compile_mode::naming::named_iter;
use compile_mode::text::{
    add_spaces_to_lines, add_spaces_to_lines_with_count, gen_template, gen_template_v,
    jsx_text_to_string,
};

#[test]
fn test_jsx_text() {
    assert_eq!("   span  ", jsx_text_to_string("   span  "));
    assert_eq!(
        "   s xxx   ",
        jsx_text_to_string("   s\n     \n  \n   xxx   ")
    );
    assert_eq!("a   b", jsx_text_to_string("   \n    \n   a   b  \n   "));
    assert_eq!(
        "",
        jsx_text_to_string("\n\n\n\n\n\n                   \n\n                ")
    );
    assert_eq!("", jsx_text_to_string(""));
}

#[test]
fn jsx_text_replaces_tabs_and_joins_lines() {
    assert_eq!("a b", jsx_text_to_string("a\t\n\tb"));
    assert_eq!("a b", jsx_text_to_string("a\tb"));
}

#[test]
fn jsx_text_is_idempotent_on_examples() {
    for s in [
        "   span  ",
        "   s\n     \n  \n   xxx   ",
        "   \n    \n   a   b  \n   ",
        "",
        "x\ty\nz",
    ] {
        let once = jsx_text_to_string(s);
        let twice = jsx_text_to_string(once.as_str());
        assert_eq!(once, twice);
    }
}

#[test]
fn named_iter_mints_distinct_deterministic_names() {
    let mut namer = named_iter(String::from("n"));
    let a = namer.next();
    let b = namer.next();
    let c = namer.next();
    assert_eq!(a, "n0");
    assert_eq!(b, "n1");
    assert_eq!(c, "n2");
    assert_ne!(a, b);
    assert_ne!(b, c);
    assert_ne!(a, c);
    let mut again = named_iter(String::from("n"));
    assert_eq!(again.next(), "n0");
}

#[test]
fn named_iter_formats_multi_digit_counters() {
    let mut namer = named_iter(String::from("node"));
    let mut last = String::new();
    for _ in 0..12 {
        last = namer.next();
    }
    assert_eq!(last, "node11");
}

#[test]
fn add_spaces_indents_every_line() {
    assert_eq!("  a\n  b\n", add_spaces_to_lines("a\nb"));
    assert_eq!("    x\n", add_spaces_to_lines_with_count("x", 4));
    assert_eq!("", add_spaces_to_lines(""));
}

#[test]
fn gen_template_wraps_in_braces() {
    assert_eq!("{{n0}}", gen_template("n0"));
    assert_eq!("{{n0.v}}", gen_template_v("n0"));
}
