use nightstation_verify::ckey::{filter_ckey, Ckey};

#[test]
fn normalize_keeps_letters_and_digits_lowercased() {
    assert_eq!(filter_ckey("Foo_Bar-1"), "foobar1");
    assert_eq!(filter_ckey("FOOBAR1"), "foobar1");
    assert_eq!(filter_ckey("Foo_Bar-1"), filter_ckey("FOOBAR1"));
}

#[test]
fn normalize_is_idempotent_on_examples() {
    for raw in ["Foo_Bar-1", "  spaces  ", "MiXeD123", "", "___", "ALLCAPS"] {
        let once = filter_ckey(raw);
        assert_eq!(filter_ckey(&once), once);
    }
}

#[test]
fn normalize_is_total() {
    assert_eq!(filter_ckey(""), "");
    assert_eq!(filter_ckey("___---___"), "");
    assert_eq!(filter_ckey("snow\u{2603}man"), "snowman");
    assert_eq!(filter_ckey("\u{03a9}mega9"), "mega9");
}

#[test]
fn ckey_wraps_the_normal_form() {
    let ck = Ckey::new("Very-Cool_Guy 42");
    assert_eq!(ck.as_str(), "verycoolguy42");
    let again = Ckey::new(ck.as_str());
    assert_eq!(again.as_str(), "verycoolguy42");
}
