use diridp_config::web_path::{validate_web_path, InvalidPath};

#[test]
fn accepts_simple_keys_document_path() {
    assert_eq!(validate_web_path("/jwks.json"), Ok("/jwks.json".to_string()));
}

#[test]
fn rejects_parent_marker_after_root() {
    assert_eq!(
        validate_web_path("/../secret"),
        Err(InvalidPath::RelativeComponents)
    );
}

#[test]
fn rejects_relative_path() {
    assert_eq!(
        validate_web_path("relative/path"),
        Err(InvalidPath::NotAbsolute)
    );
}

#[test]
fn rejects_empty_path() {
    assert_eq!(validate_web_path(""), Err(InvalidPath::NotAbsolute));
}

#[test]
fn accepts_bare_root() {
    assert_eq!(validate_web_path("/"), Ok("/".to_string()));
}

#[test]
fn accepts_nested_path_verbatim() {
    assert_eq!(
        validate_web_path("/well-known/openid/jwks.json"),
        Ok("/well-known/openid/jwks.json".to_string())
    );
}

#[test]
fn rejects_current_marker_in_the_middle() {
    assert_eq!(
        validate_web_path("/a/./b"),
        Err(InvalidPath::RelativeComponents)
    );
}

#[test]
fn rejects_parent_marker_in_the_middle() {
    assert_eq!(
        validate_web_path("/a/../b"),
        Err(InvalidPath::RelativeComponents)
    );
}

#[test]
fn rejects_lone_current_marker() {
    assert_eq!(validate_web_path("/."), Err(InvalidPath::RelativeComponents));
}

#[test]
fn not_rooted_wins_over_relative_markers() {
    assert_eq!(validate_web_path("../x"), Err(InvalidPath::NotAbsolute));
}

#[test]
fn dotted_names_are_not_relative_markers() {
    assert_eq!(validate_web_path("/...x/.hidden"), Ok("/...x/.hidden".to_string()));
    assert_eq!(validate_web_path("/..."), Ok("/...".to_string()));
}

#[test]
fn repeated_separators_hide_no_marker() {
    assert_eq!(
        validate_web_path("//..//x"),
        Err(InvalidPath::RelativeComponents)
    );
}

#[test]
fn accepts_non_ascii_segments() {
    assert_eq!(
        validate_web_path("/caf\u{e9}/\u{43a}\u{43b}.json"),
        Ok("/caf\u{e9}/\u{43a}\u{43b}.json".to_string())
    );
}

#[test]
fn messages_name_the_violated_rule() {
    assert_eq!(
        InvalidPath::NotAbsolute.message(),
        "must be an absolute path inside the webroot"
    );
    assert_eq!(
        InvalidPath::RelativeComponents.message(),
        "must not contain relative components"
    );
}
