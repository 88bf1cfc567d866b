use diridp_config::token_path::{parse_token_path, InvalidTokenPath, TokenPath};

fn single_file(path: &str) -> TokenPath {
    TokenPath::SingleFile { path: path.to_string() }
}

fn directories(parent_dir: &str, claim_name: &str, filename: &str) -> TokenPath {
    TokenPath::Directories {
        parent_dir: parent_dir.to_string(),
        claim_name: claim_name.to_string(),
        filename: filename.to_string(),
    }
}

#[test]
fn fixed_path_is_a_single_file() {
    assert_eq!(
        parse_token_path("tokens/static.jwt"),
        Ok(single_file("tokens/static.jwt"))
    );
}

#[test]
fn placeholder_next_to_last_selects_directories() {
    assert_eq!(
        parse_token_path("tokens/:sub/token.jwt"),
        Ok(directories("tokens", "sub", "token.jwt"))
    );
}

#[test]
fn two_placeholders_are_rejected() {
    assert_eq!(
        parse_token_path("tokens/:sub/:aud/token.jwt"),
        Err(InvalidTokenPath)
    );
}

#[test]
fn placeholder_elsewhere_is_rejected() {
    assert_eq!(parse_token_path(":sub/tokens/token.jwt"), Err(InvalidTokenPath));
}

#[test]
fn placeholder_as_filename_is_rejected() {
    assert_eq!(parse_token_path("tokens/:sub"), Err(InvalidTokenPath));
}

#[test]
fn lone_placeholder_component_is_rejected() {
    assert_eq!(parse_token_path(":sub"), Err(InvalidTokenPath));
}

#[test]
fn single_file_keeps_the_text_verbatim() {
    assert_eq!(parse_token_path(""), Ok(single_file("")));
    assert_eq!(parse_token_path("a//b/"), Ok(single_file("a//b/")));
    assert_eq!(
        parse_token_path("/var/lib/out.jwt"),
        Ok(single_file("/var/lib/out.jwt"))
    );
}

#[test]
fn leading_placeholder_with_filename_has_empty_parent() {
    assert_eq!(
        parse_token_path(":sub/token.jwt"),
        Ok(directories("", "sub", "token.jwt"))
    );
}

#[test]
fn absolute_placeholder_path_keeps_the_root_as_parent() {
    assert_eq!(
        parse_token_path("/:sub/token.jwt"),
        Ok(directories("/", "sub", "token.jwt"))
    );
}

#[test]
fn absolute_parent_keeps_single_root_separator() {
    assert_eq!(
        parse_token_path("/var/tokens/:sub/token.jwt"),
        Ok(directories("/var/tokens", "sub", "token.jwt"))
    );
}

#[test]
fn repeated_separators_collapse_in_the_parent() {
    assert_eq!(
        parse_token_path("a//b/:x/f"),
        Ok(directories("a/b", "x", "f"))
    );
}

#[test]
fn empty_claim_name_is_kept() {
    assert_eq!(parse_token_path("t/:/f"), Ok(directories("t", "", "f")));
}

#[test]
fn reparsing_a_single_file_output_is_equivalent() {
    let parsed = parse_token_path("tokens/static.jwt");
    let Ok(TokenPath::SingleFile { ref path }) = parsed else {
        panic!("expected a single-file layout");
    };
    assert_eq!(parse_token_path(path), parsed);
}

#[test]
fn reparsing_a_reconstructed_directories_output_is_equivalent() {
    for raw in [
        "tokens/:sub/token.jwt",
        "/var/tokens/:sub/token.jwt",
        ":sub/token.jwt",
        "/:sub/token.jwt",
        "a//b/:x//f/",
    ] {
        let parsed = parse_token_path(raw);
        let Ok(TokenPath::Directories { ref parent_dir, ref claim_name, ref filename }) =
            parsed
        else {
            panic!("expected a directories layout for {raw}");
        };
        let rebuilt = if parent_dir.is_empty() {
            format!(":{claim_name}/{filename}")
        } else if parent_dir == "/" {
            format!("/:{claim_name}/{filename}")
        } else {
            format!("{parent_dir}/:{claim_name}/{filename}")
        };
        assert_eq!(parse_token_path(&rebuilt), parsed, "for {raw} via {rebuilt}");
    }
}

#[test]
fn message_names_the_arrangement_rule() {
    assert_eq!(
        InvalidTokenPath.message(),
        "only one parameter, in the next-to-last position, is supported"
    );
}
