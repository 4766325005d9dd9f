use blender_batch_render_helper::env_mod::{auth_file_has_all_keys, credentials_from_lines};
use blender_batch_render_helper::text::split_lines;
use blender_batch_render_helper::aws_credentials::{
    credentials_file_text, credentials_to_append, has_matching_credentials, parse_credentials,
    update_profile_credentials, AwsCredentials, CredentialStore,
};

fn creds(store: &CredentialStore, name: &str) -> Option<(Option<String>, Option<String>, Option<String>)> {
    let i = store.find(name)?;
    let c: &AwsCredentials = store.value_at(i);
    Some((c.aws_access_key_id.clone(), c.aws_secret_access_key.clone(), c.region.clone()))
}

fn s(x: &str) -> Option<String> {
    Some(x.to_string())
}

#[test]
fn parses_profiles_with_trimmed_keys_and_values() {
    let text = "[default]\naws_access_key_id = AKID\naws_secret_access_key=SECRET \nregion =eu-west-1\n\n[rndr]\n  aws_access_key_id=K2\n";
    let store = parse_credentials(text);
    assert_eq!(store.len(), 2);
    assert_eq!(store.key_at(0).as_str(), "default");
    assert_eq!(store.key_at(1).as_str(), "rndr");
    assert_eq!(creds(&store, "default"), Some((s("AKID"), s("SECRET"), s("eu-west-1"))));
    // a profile with only an access key gets an empty secret and no region
    assert_eq!(creds(&store, "rndr"), Some((s("K2"), s(""), None)));
}

#[test]
fn lines_before_any_section_and_unknown_keys_are_ignored() {
    let text = "aws_access_key_id = X\n[p]\nfoo = bar\nno equals sign\n";
    let store = parse_credentials(text);
    assert_eq!(store.len(), 0);
    assert_eq!(creds(&store, "p"), None);
}

#[test]
fn last_line_for_a_key_wins_and_crlf_is_handled() {
    let text = "[a]\r\nregion = one\r\nregion = two\r\n";
    let store = parse_credentials(text);
    assert_eq!(creds(&store, "a"), Some((s(""), s(""), s("two"))));
}

#[test]
fn section_header_with_spaces_around() {
    let store = parse_credentials("   [ spaced ]  \naws_secret_access_key = z");
    assert_eq!(store.key_at(0).as_str(), " spaced ");
    assert_eq!(creds(&store, " spaced "), Some((s(""), s("z"), None)));
}

#[test]
fn empty_text_has_no_profiles() {
    assert_eq!(parse_credentials("").len(), 0);
}

#[test]
fn writes_profiles_in_order() {
    let store = parse_credentials("[b]\naws_access_key_id=1\naws_secret_access_key=2\n[a]\nregion=r\n");
    let text = credentials_file_text(&store);
    assert_eq!(
        text,
        "[b]\naws_access_key_id = 1\naws_secret_access_key = 2\n\n[a]\naws_access_key_id = \naws_secret_access_key = \nregion = r\n\n"
    );
}

#[test]
fn written_file_reads_back_the_same() {
    let store = parse_credentials("[x]\naws_access_key_id=k\naws_secret_access_key=s\nregion=r\n[y]\naws_access_key_id=k2\naws_secret_access_key=s2\n");
    let again = parse_credentials(&credentials_file_text(&store));
    assert_eq!(again.len(), 2);
    assert_eq!(creds(&again, "x"), Some((s("k"), s("s"), s("r"))));
    assert_eq!(creds(&again, "y"), Some((s("k2"), s("s2"), None)));
}

#[test]
fn update_replaces_given_fields_of_an_existing_profile() {
    let store = parse_credentials("[rndr]\naws_access_key_id=old\naws_secret_access_key=olds\nregion=oldr\n");
    let updated = update_profile_credentials(store, "rndr", Some("new"), None, Some("nr")).unwrap();
    assert_eq!(updated.len(), 1);
    assert_eq!(creds(&updated, "rndr"), Some((s("new"), s("olds"), s("nr"))));
}

#[test]
fn update_adds_a_missing_profile_last() {
    let store = parse_credentials("[a]\nregion=r\n");
    let updated = update_profile_credentials(store, "rndr", Some("k"), None, Some("r2")).unwrap();
    assert_eq!(updated.len(), 2);
    assert_eq!(updated.key_at(1).as_str(), "rndr");
    assert_eq!(creds(&updated, "rndr"), Some((s("k"), None, s("r2"))));
}

#[test]
fn matching_credentials_are_found() {
    let store = parse_credentials("[a]\naws_access_key_id=k\naws_secret_access_key=s\nregion=r\n");
    assert!(has_matching_credentials(&store, "k", "s", "r"));
    assert!(!has_matching_credentials(&store, "k", "s", "other"));
}

#[test]
fn nothing_is_appended_when_the_credentials_exist() {
    let text = "[other]\naws_access_key_id=k\naws_secret_access_key=s\nregion=r\n";
    assert_eq!(credentials_to_append(text, "k", "s", "r"), None);
}

#[test]
fn appended_text_holds_all_profiles_and_rndr() {
    let text = "[default]\naws_access_key_id=a\naws_secret_access_key=b\n";
    let appended = credentials_to_append(text, "k", "s", "r").unwrap();
    assert_eq!(
        appended,
        "[default]\naws_access_key_id = a\naws_secret_access_key = b\n\n[rndr]\naws_access_key_id = k\naws_secret_access_key = s\nregion = r\n\n"
    );
    // the file after appending reads back with rndr holding the values
    let after = format!("{}{}", text, appended);
    let store = parse_credentials(&after);
    assert_eq!(creds(&store, "rndr"), Some((s("k"), s("s"), s("r"))));
    assert_eq!(creds(&store, "default"), Some((s("a"), s("b"), None)));
}

#[test]
fn appending_to_a_file_without_final_newline() {
    // the old last line runs into the first appended line, which the
    // appended copy of the same profile then sets again
    let text = "[default]\nregion = x";
    let appended = credentials_to_append(text, "k", "s", "r").unwrap();
    let after = format!("{}{}", text, appended);
    assert!(after.contains("region = x[default]\n"));
    let store = parse_credentials(&after);
    assert_eq!(creds(&store, "default"), Some((s(""), s(""), s("x"))));
    assert_eq!(creds(&store, "rndr"), Some((s("k"), s("s"), s("r"))));
}

#[test]
fn appended_file_passes_the_credentials_check() {
    let text = "[default]\nregion = eu\n";
    assert!(!auth_file_has_all_keys(&split_lines(text)));
    let after = format!("{}{}", text, credentials_to_append(text, "k", "s", "r").unwrap());
    assert!(auth_file_has_all_keys(&split_lines(&after)));
}

#[test]
fn rewriting_what_was_read_reads_the_same() {
    let text = "junk\n[a]\n region=x \n[b]\naws_secret_access_key = y\n[a]\naws_access_key_id=z\n";
    let first = parse_credentials(text);
    let second = parse_credentials(&credentials_file_text(&first));
    assert_eq!(first.len(), second.len());
    for i in 0..first.len() {
        assert_eq!(first.key_at(i), second.key_at(i));
        let (a, b) = (first.value_at(i), second.value_at(i));
        assert_eq!(a.aws_access_key_id, b.aws_access_key_id);
        assert_eq!(a.aws_secret_access_key, b.aws_secret_access_key);
        assert_eq!(a.region, b.region);
    }
    assert_eq!(creds(&second, "a"), Some((s("z"), s(""), s("x"))));
}

#[test]
fn existing_credentials_already_pass_the_check() {
    let text = "[mine]\n  aws_access_key_id =k\n\taws_secret_access_key= s\nregion=r\n";
    assert_eq!(credentials_to_append(text, "k", "s", "r"), None);
    assert!(auth_file_has_all_keys(&split_lines(text)));
}

#[test]
fn settings_screen_shows_appended_credentials() {
    let text = "[default]\naws_access_key_id = a\naws_secret_access_key = b\nregion = eu\n";
    let shown = credentials_from_lines(&split_lines(text));
    assert_eq!(shown.region, s("eu"));
    let after = format!("{}{}", text, credentials_to_append(text, "k", "s", "r").unwrap());
    let shown = credentials_from_lines(&split_lines(&after));
    assert_eq!(shown.aws_access_key_id, s("k"));
    assert_eq!(shown.aws_secret_access_key, s("s"));
    assert_eq!(shown.region, s("r"));
}
