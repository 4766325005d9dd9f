use blender_batch_render_helper::env_mod::{
    add_or_update_env_text, auth_file_has_all_keys, credentials_from_lines, env_file_text,
    env_text_readable, parse_env_text,
};

fn lines(xs: &[&str]) -> Vec<String> {
    xs.iter().map(|x| x.to_string()).collect()
}

#[test]
fn env_lines_split_at_first_equals() {
    let vars = parse_env_text("A=1\nB=x=y\nC=\n");
    assert_eq!(vars.len(), 3);
    assert_eq!(vars.key_at(1).as_str(), "B");
    assert_eq!(vars.value_at(1).as_str(), "x=y");
    assert_eq!(vars.value_at(2).as_str(), "");
}

#[test]
fn later_env_line_wins_in_place() {
    let vars = parse_env_text("A=1\nB=2\nA=3");
    assert_eq!(vars.len(), 2);
    assert_eq!(vars.key_at(0).as_str(), "A");
    assert_eq!(vars.value_at(0).as_str(), "3");
}

#[test]
fn env_text_needs_equals_on_every_line() {
    assert!(env_text_readable("A=1\nB=2\n"));
    assert!(!env_text_readable("A=1\n\nB=2\n"));
    assert!(!env_text_readable("novalue\n"));
    assert!(env_text_readable(""));
}

#[test]
fn env_file_text_writes_name_equals_value_lines() {
    let vars = parse_env_text("A=1\nB=2\n");
    assert_eq!(env_file_text(&vars), "A=1\nB=2\n");
}

#[test]
fn add_or_update_sets_and_appends() {
    assert_eq!(add_or_update_env_text("A=1\nB=2\n", "A", "9"), "A=9\nB=2\n");
    assert_eq!(add_or_update_env_text("A=1\n", "C", "3"), "A=1\nC=3\n");
    assert_eq!(add_or_update_env_text("", "K", "v"), "K=v\n");
}

#[test]
fn updated_env_file_reads_back_the_value() {
    let text = add_or_update_env_text("X=1\nY=2\n", "Y", "new");
    let vars = parse_env_text(&text);
    let i = vars.find("Y").unwrap();
    assert_eq!(vars.value_at(i).as_str(), "new");
}

#[test]
fn shown_credentials_take_the_last_value_and_skip_default_lines() {
    let c = credentials_from_lines(&lines(&[
        "[default]",
        "aws_access_key_id = A",
        "",
        "[other]",
        "aws_access_key_id = B ",
        "region",
        "aws_secret_access_key=S=T",
    ]));
    assert_eq!(c.aws_access_key_id.as_deref(), Some("B"));
    assert_eq!(c.aws_secret_access_key.as_deref(), Some("S=T"));
    // a line without '=' is a name with an empty value
    assert_eq!(c.region.as_deref(), Some(""));
}

#[test]
fn shown_credentials_of_an_empty_file() {
    let c = credentials_from_lines(&lines(&[]));
    assert_eq!(c.aws_access_key_id, None);
    assert_eq!(c.aws_secret_access_key, None);
    assert_eq!(c.region, None);
}

#[test]
fn auth_file_is_complete_with_all_three_keys() {
    assert!(auth_file_has_all_keys(&lines(&[
        "[default]",
        "aws_access_key_id = a",
        "aws_secret_access_key = b",
        "region = c",
    ])));
    assert!(!auth_file_has_all_keys(&lines(&[
        "[default]",
        "aws_access_key_id = a",
        "region = c",
    ])));
    // a bracketed line is passed over even if it names a key
    assert!(!auth_file_has_all_keys(&lines(&[
        "[aws_access_key_id]",
        "aws_secret_access_key",
        "region=",
    ])));
    // a line without '=' still names its key
    assert!(auth_file_has_all_keys(&lines(&["aws_access_key_id", " aws_secret_access_key ", "region"])));
}
