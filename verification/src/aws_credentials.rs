//! The AWS shared credentials file: `[profile]` sections holding
//! `aws_access_key_id`, `aws_secret_access_key` and `region` lines.
//! Parsing it, printing it, and changing the profile this application uses.
use vstd::prelude::*;

use crate::string_map::{
    entries_insert, entries_to_map, has_key, lemma_entries_to_map_at, StringMap,
};
use crate::text::{
    append_lines, copy_string, find_char, is_first_index, join_lines, lemma_first_index_unique,
    lemma_join_concat, lines_of, same_text, slice_string, split_lines, split_once, to_chars, trim,
    trim_range,
};

verus! {

/// The credentials of one profile.
pub struct AwsCredentials {
    pub aws_access_key_id: Option<String>,
    pub aws_secret_access_key: Option<String>,
    pub region: Option<String>,
}

/// What a profile's credentials hold, as texts.
pub struct CredentialsView {
    pub aws_access_key_id: Option<Seq<char>>,
    pub aws_secret_access_key: Option<Seq<char>>,
    pub region: Option<Seq<char>>,
}

/// The text an optional `String` holds.
pub open spec fn opt_text(o: Option<String>) -> Option<Seq<char>> {
    match o {
        Some(s) => Some(s@),
        None => None,
    }
}

impl View for AwsCredentials {
    type V = CredentialsView;

    open spec fn view(&self) -> CredentialsView {
        CredentialsView {
            aws_access_key_id: opt_text(self.aws_access_key_id),
            aws_secret_access_key: opt_text(self.aws_secret_access_key),
            region: opt_text(self.region),
        }
    }
}

/// Profiles by name, in the order in which they were first met.
pub type CredentialStore = StringMap<AwsCredentials>;

/// A copy of an optional text.
fn copy_opt(o: &Option<String>) -> (r: Option<String>)
    ensures
        opt_text(*o) == opt_text(r),
{
    match o {
        Some(s) => Some(copy_string(s)),
        None => None,
    }
}

impl AwsCredentials {
    /// A copy of these credentials.
    pub fn copy(&self) -> (r: AwsCredentials)
        ensures
            r@ == self@,
    {
        AwsCredentials {
            aws_access_key_id: copy_opt(&self.aws_access_key_id),
            aws_secret_access_key: copy_opt(&self.aws_secret_access_key),
            region: copy_opt(&self.region),
        }
    }
}

/// The three keys that a credentials line may set.
#[derive(Clone, Copy, Debug, PartialEq, Eq, Structural)]
pub enum CredentialField {
    AccessKeyId,
    SecretAccessKey,
    Region,
}

/// The field that a key names, if it names one.
pub open spec fn field_named(key: Seq<char>) -> Option<CredentialField> {
    if key == "aws_access_key_id"@ {
        Some(CredentialField::AccessKeyId)
    } else if key == "aws_secret_access_key"@ {
        Some(CredentialField::SecretAccessKey)
    } else if key == "region"@ {
        Some(CredentialField::Region)
    } else {
        None
    }
}

/// The credentials a profile gets when its first line is read: both keys
/// empty and no region.
pub open spec fn blank_credentials() -> CredentialsView {
    CredentialsView {
        aws_access_key_id: Some(Seq::<char>::empty()),
        aws_secret_access_key: Some(Seq::<char>::empty()),
        region: None,
    }
}

/// `c` with field `f` set to `v`.
pub open spec fn with_field(c: CredentialsView, f: CredentialField, v: Seq<char>) -> CredentialsView {
    match f {
        CredentialField::AccessKeyId => CredentialsView { aws_access_key_id: Some(v), ..c },
        CredentialField::SecretAccessKey => CredentialsView { aws_secret_access_key: Some(v), ..c },
        CredentialField::Region => CredentialsView { region: Some(v), ..c },
    }
}

/// The value of key `k` in `es`, or the blank credentials where it has none.
pub open spec fn current_or_blank(es: Seq<(Seq<char>, CredentialsView)>, k: Seq<char>) -> CredentialsView {
    if has_key(es, k) {
        entries_to_map(es)[k]
    } else {
        blank_credentials()
    }
}

/// Whether a trimmed line is a section header `[name]`.
pub open spec fn is_section(t: Seq<char>) -> bool {
    t.len() > 0 && t[0] == '[' && t.last() == ']'
}

/// The state of reading a credentials file: the profile whose section is
/// open, and the profiles read so far.
pub type ReadState = (Option<Seq<char>>, Seq<(Seq<char>, CredentialsView)>);

/// Reading one line: a section header opens that profile; inside a profile,
/// a line `key = value` with a known key sets that field of the profile,
/// keys and values trimmed; every other line changes nothing.
pub open spec fn read_step(st: ReadState, line: Seq<char>) -> ReadState {
    let t = trim(line);
    if is_section(t) {
        (Some(t.subrange(1, t.len() - 1)), st.1)
    } else {
        match st.0 {
            Some(p) => match split_once(t, '=') {
                Some(kv) => match field_named(trim(kv.0)) {
                    Some(f) => (
                        st.0,
                        entries_insert(st.1, p, with_field(current_or_blank(st.1, p), f, trim(kv.1))),
                    ),
                    None => st,
                },
                None => st,
            },
            None => st,
        }
    }
}

/// Reading the lines `ls` in order from the state `st`.
pub open spec fn read_lines(st: ReadState, ls: Seq<Seq<char>>) -> ReadState
    decreases ls.len(),
{
    if ls.len() == 0 {
        st
    } else {
        read_step(read_lines(st, ls.drop_last()), ls.last())
    }
}

/// The state before the first line.
pub open spec fn start_state() -> ReadState {
    (None, Seq::<(Seq<char>, CredentialsView)>::empty())
}

/// The profiles that a credentials file with text `contents` holds, in the
/// order in which they were first met.
pub open spec fn parsed_entries(contents: Seq<char>) -> Seq<(Seq<char>, CredentialsView)> {
    read_lines(start_state(), lines_of(contents)).1
}

/// The field a key names.
fn field_of(key: &str) -> (r: Option<CredentialField>)
    ensures
        r == field_named(key@),
{
    if same_text(key, "aws_access_key_id") {
        Some(CredentialField::AccessKeyId)
    } else if same_text(key, "aws_secret_access_key") {
        Some(CredentialField::SecretAccessKey)
    } else if same_text(key, "region") {
        Some(CredentialField::Region)
    } else {
        None
    }
}

/// Blank credentials.
fn blank() -> (r: AwsCredentials)
    ensures
        r@ == blank_credentials(),
{
    AwsCredentials {
        aws_access_key_id: Some(String::new()),
        aws_secret_access_key: Some(String::new()),
        region: None,
    }
}

/// `c` with field `f` set to `v`.
fn set_field(c: AwsCredentials, f: CredentialField, v: String) -> (r: AwsCredentials)
    ensures
        r@ == with_field(c@, f, v@),
{
    match f {
        CredentialField::AccessKeyId => AwsCredentials { aws_access_key_id: Some(v), ..c },
        CredentialField::SecretAccessKey => AwsCredentials { aws_secret_access_key: Some(v), ..c },
        CredentialField::Region => AwsCredentials { region: Some(v), ..c },
    }
}

/// Sets field `f` of profile `profile` to `value`, starting from blank
/// credentials where the profile is not there yet.
fn set_profile_field(store: &mut CredentialStore, profile: &String, f: CredentialField, value: String)
    ensures
        final(store).entries() == entries_insert(
            old(store).entries(),
            profile@,
            with_field(current_or_blank(old(store).entries(), profile@), f, value@),
        ),
{
    // `len` tells that the profile names are distinct
    let n = store.len();
    let ghost es = store.entries();
    let base = match store.find(profile.as_str()) {
        Some(i) => {
            proof {
                lemma_entries_to_map_at(es, i as int);
            }
            store.value_at(i).copy()
        },
        None => blank(),
    };
    let updated = set_field(base, f, value);
    store.insert(copy_string(profile), updated);
}

/// Reads a credentials file: every `[name]` line opens a profile, and each
/// `aws_access_key_id`, `aws_secret_access_key` or `region` line inside a
/// profile sets that field of it (the last such line wins). A profile is
/// recorded at its first key line; where a key line is missing, the key is
/// the empty text and the region is absent.
pub fn parse_credentials(contents: &str) -> (store: CredentialStore)
    ensures
        store.entries() == parsed_entries(contents@),
{
    let lines = split_lines(contents);
    let mut store: CredentialStore = StringMap::new();
    let mut profile: Option<String> = None;
    let mut i: usize = 0;
    while i < lines.len()
        invariant
            i <= lines.len(),
            lines.deep_view() == lines_of(contents@),
            (opt_text(profile), store.entries()) == read_lines(
                start_state(),
                lines.deep_view().take(i as int),
            ),
        decreases lines.len() - i,
    {
        let ghost st = (opt_text(profile), store.entries());
        let line = &lines[i];
        let cs = to_chars(line.as_str());
        let (a, b) = trim_range(&cs, 0, cs.len());
        let ghost t = trim(line@);
        proof {
            assert(lines.deep_view().take(i + 1).drop_last() =~= lines.deep_view().take(i as int));
            assert(lines.deep_view().take(i + 1).last() == line@);
            assert(cs@.subrange(0, cs.len() as int) =~= line@);
            assert(t == cs@.subrange(a as int, b as int));
        }
        if b > a && cs[a] == '[' && cs[b - 1] == ']' {
            proof {
                assert(t.subrange(1, t.len() - 1) =~= cs@.subrange(a + 1, b - 1));
            }
            profile = Some(slice_string(line.as_str(), a + 1, b - 1));
        } else {
            match &profile {
                Some(p) => {
                    match find_char(&cs, a, b, '=') {
                        Some(k) => {
                            let ghost kv = split_once(t, '=');
                            proof {
                                assert(t.contains('=')) by {
                                    assert(t[k - a] == '=');
                                }
                                let j = choose|j: int| is_first_index(t, '=', j);
                                lemma_first_index_unique(t, '=', j, k - a);
                                assert(t.take(k - a) =~= cs@.subrange(a as int, k as int));
                                assert(t.skip(k - a + 1) =~= cs@.subrange(k + 1, b as int));
                            }
                            let (ka, kb) = trim_range(&cs, a, k);
                            let key = slice_string(line.as_str(), ka, kb);
                            match field_of(key.as_str()) {
                                Some(f) => {
                                    let (va, vb) = trim_range(&cs, k + 1, b);
                                    let value = slice_string(line.as_str(), va, vb);
                                    set_profile_field(&mut store, p, f, value);
                                },
                                None => {},
                            }
                        },
                        None => {},
                    }
                },
                None => {},
            }
        }
        i = i + 1;
    }
    assert(lines.deep_view().take(lines.len() as int) =~= lines.deep_view());
    store
}

// ---------------------------------------------------------------------------
// Printing
// ---------------------------------------------------------------------------
/// One line `prefix + value` where there is a value, none where there is not.
pub open spec fn opt_line(prefix: Seq<char>, o: Option<Seq<char>>) -> Seq<Seq<char>> {
    match o {
        Some(v) => seq![prefix + v],
        None => Seq::<Seq<char>>::empty(),
    }
}

/// The header line of profile `name`.
pub open spec fn section_line(name: Seq<char>) -> Seq<char> {
    seq!['['] + name + seq![']']
}

/// The lines written for one profile: its header, a line for each field that
/// is set, and an empty line.
pub open spec fn profile_lines(name: Seq<char>, c: CredentialsView) -> Seq<Seq<char>> {
    seq![section_line(name)] + opt_line("aws_access_key_id = "@, c.aws_access_key_id) + opt_line(
        "aws_secret_access_key = "@,
        c.aws_secret_access_key,
    ) + opt_line("region = "@, c.region) + seq![Seq::<char>::empty()]
}

/// The lines written for the profiles `es`, in their order.
pub open spec fn credentials_lines(es: Seq<(Seq<char>, CredentialsView)>) -> Seq<Seq<char>>
    decreases es.len(),
{
    if es.len() == 0 {
        Seq::<Seq<char>>::empty()
    } else {
        credentials_lines(es.drop_last()) + profile_lines(es.last().0, es.last().1)
    }
}

/// The text written for the profiles `es`.
pub open spec fn credentials_text(es: Seq<(Seq<char>, CredentialsView)>) -> Seq<char> {
    join_lines(credentials_lines(es))
}

/// Adds the line `prefix + value` to `block` where there is a value.
fn push_opt_line(block: &mut Vec<String>, prefix: &str, o: &Option<String>)
    ensures
        final(block).deep_view() == old(block).deep_view() + opt_line(prefix@, opt_text(*o)),
{
    let ghost start = block.deep_view();
    match o {
        Some(v) => {
            let mut l = String::from_str(prefix);
            l.append(v.as_str());
            block.push(l);
            assert(block.deep_view() =~= start + opt_line(prefix@, opt_text(*o)));
        },
        None => {
            assert(block.deep_view() =~= start + opt_line(prefix@, opt_text(*o)));
        },
    }
}

/// The lines written for one profile.
fn profile_block(name: &String, c: &AwsCredentials) -> (block: Vec<String>)
    ensures
        block.deep_view() == profile_lines(name@, c@),
{
    let mut header = String::from_str("[");
    header.append(name.as_str());
    header.append("]");
    proof {
        reveal_strlit("[");
        reveal_strlit("]");
        assert(header@ =~= section_line(name@));
    }
    let mut block: Vec<String> = Vec::new();
    block.push(header);
    assert(block.deep_view() =~= seq![section_line(name@)]);
    push_opt_line(&mut block, "aws_access_key_id = ", &c.aws_access_key_id);
    push_opt_line(&mut block, "aws_secret_access_key = ", &c.aws_secret_access_key);
    push_opt_line(&mut block, "region = ", &c.region);
    let ghost before = block.deep_view();
    block.push(String::new());
    assert(block.deep_view() =~= before + seq![Seq::<char>::empty()]);
    block
}

/// The text of a credentials file holding `credentials`: for each profile,
/// in order, a line `[name]`, then `aws_access_key_id = ...`,
/// `aws_secret_access_key = ...` and `region = ...` for the fields that are
/// set, then an empty line.
pub fn credentials_file_text(credentials: &CredentialStore) -> (text: String)
    ensures
        text@ == credentials_text(credentials.entries()),
{
    let n = credentials.len();
    let ghost es = credentials.entries();
    let mut text = String::new();
    let mut i: usize = 0;
    while i < n
        invariant
            n == es.len(),
            es == credentials.entries(),
            i <= n,
            text@ == credentials_text(es.take(i as int)),
        decreases n - i,
    {
        let block = profile_block(credentials.key_at(i), credentials.value_at(i));
        append_lines(&mut text, &block);
        proof {
            let t = es.take(i + 1);
            assert(t.drop_last() =~= es.take(i as int));
            assert(t.last() == es[i as int]);
            lemma_join_concat(credentials_lines(es.take(i as int)), block.deep_view());
        }
        i = i + 1;
    }
    assert(es.take(n as int) =~= es);
    text
}

// ---------------------------------------------------------------------------
// Changing a profile
// ---------------------------------------------------------------------------
/// The text an optional `&str` holds.
pub open spec fn opt_str(o: Option<&str>) -> Option<Seq<char>> {
    match o {
        Some(s) => Some(s@),
        None => None,
    }
}

/// The credentials of a profile after an update: the given fields replace
/// those of the profile where it exists; a new profile holds just the given fields.
pub open spec fn merged_credentials(
    current: Option<CredentialsView>,
    aws_access_key_id: Option<Seq<char>>,
    aws_secret_access_key: Option<Seq<char>>,
    region: Option<Seq<char>>,
) -> CredentialsView {
    match current {
        Some(c) => CredentialsView {
            aws_access_key_id: if aws_access_key_id is Some {
                aws_access_key_id
            } else {
                c.aws_access_key_id
            },
            aws_secret_access_key: if aws_secret_access_key is Some {
                aws_secret_access_key
            } else {
                c.aws_secret_access_key
            },
            region: if region is Some {
                region
            } else {
                c.region
            },
        },
        None => CredentialsView { aws_access_key_id, aws_secret_access_key, region },
    }
}

/// The credentials of profile `k` in `es`, if it is there.
pub open spec fn profile_of(es: Seq<(Seq<char>, CredentialsView)>, k: Seq<char>) -> Option<
    CredentialsView,
> {
    if has_key(es, k) {
        Some(entries_to_map(es)[k])
    } else {
        None
    }
}

/// The entries after updating profile `name` with the given fields.
pub open spec fn updated_entries(
    es: Seq<(Seq<char>, CredentialsView)>,
    name: Seq<char>,
    aws_access_key_id: Option<Seq<char>>,
    aws_secret_access_key: Option<Seq<char>>,
    region: Option<Seq<char>>,
) -> Seq<(Seq<char>, CredentialsView)> {
    entries_insert(
        es,
        name,
        merged_credentials(profile_of(es, name), aws_access_key_id, aws_secret_access_key, region),
    )
}

/// An optional text as a `String`.
fn owned_opt(o: Option<&str>) -> (r: Option<String>)
    ensures
        opt_text(r) == opt_str(o),
{
    match o {
        Some(s) => Some(s.to_owned()),
        None => None,
    }
}

/// Updates profile `profile_name`: each given field replaces the profile's
/// own; a profile that is not there is added with just the given fields.
/// This never fails.
pub fn update_profile_credentials(
    credentials: CredentialStore,
    profile_name: &str,
    aws_access_key_id: Option<&str>,
    aws_secret_access_key: Option<&str>,
    region: Option<&str>,
) -> (r: Result<CredentialStore, String>)
    ensures
        r matches Ok(m) && m.entries() == updated_entries(
            credentials.entries(),
            profile_name@,
            opt_str(aws_access_key_id),
            opt_str(aws_secret_access_key),
            opt_str(region),
        ),
{
    let mut credentials = credentials;
    // `len` tells that the profile names are distinct
    let n = credentials.len();
    let ghost es = credentials.entries();
    let merged = match credentials.find(profile_name) {
        Some(i) => {
            proof {
                lemma_entries_to_map_at(es, i as int);
            }
            let current = credentials.value_at(i);
            AwsCredentials {
                aws_access_key_id: match aws_access_key_id {
                    Some(v) => Some(v.to_owned()),
                    None => copy_opt(&current.aws_access_key_id),
                },
                aws_secret_access_key: match aws_secret_access_key {
                    Some(v) => Some(v.to_owned()),
                    None => copy_opt(&current.aws_secret_access_key),
                },
                region: match region {
                    Some(v) => Some(v.to_owned()),
                    None => copy_opt(&current.region),
                },
            }
        },
        None => AwsCredentials {
            aws_access_key_id: owned_opt(aws_access_key_id),
            aws_secret_access_key: owned_opt(aws_secret_access_key),
            region: owned_opt(region),
        },
    };
    credentials.insert(profile_name.to_owned(), merged);
    Ok(credentials)
}

/// The credentials that hold exactly the three given values.
pub open spec fn full_credentials(
    aws_access_key_id: Seq<char>,
    aws_secret_access_key: Seq<char>,
    region: Seq<char>,
) -> CredentialsView {
    CredentialsView {
        aws_access_key_id: Some(aws_access_key_id),
        aws_secret_access_key: Some(aws_secret_access_key),
        region: Some(region),
    }
}

/// Some profile of `es` holds exactly these three values.
pub open spec fn has_credentials(
    es: Seq<(Seq<char>, CredentialsView)>,
    aws_access_key_id: Seq<char>,
    aws_secret_access_key: Seq<char>,
    region: Seq<char>,
) -> bool {
    exists|i: int|
        0 <= i < es.len() && (#[trigger] es[i]).1 == full_credentials(
            aws_access_key_id,
            aws_secret_access_key,
            region,
        )
}

/// Whether `o` holds exactly `s`.
fn opt_is(o: &Option<String>, s: &str) -> (r: bool)
    ensures
        r == (opt_text(*o) == Some(s@)),
{
    match o {
        Some(v) => same_text(v.as_str(), s),
        None => false,
    }
}

/// Whether some profile holds exactly these three values.
pub fn has_matching_credentials(
    credentials: &CredentialStore,
    aws_access_key_id: &str,
    aws_secret_access_key: &str,
    region: &str,
) -> (r: bool)
    ensures
        r == has_credentials(
            credentials.entries(),
            aws_access_key_id@,
            aws_secret_access_key@,
            region@,
        ),
{
    let n = credentials.len();
    let ghost es = credentials.entries();
    let ghost want = full_credentials(aws_access_key_id@, aws_secret_access_key@, region@);
    let mut i: usize = 0;
    while i < n
        invariant
            n == es.len(),
            es == credentials.entries(),
            want == full_credentials(aws_access_key_id@, aws_secret_access_key@, region@),
            i <= n,
            forall|j: int| 0 <= j < i ==> (#[trigger] es[j]).1 != want,
        decreases n - i,
    {
        let c = credentials.value_at(i);
        if opt_is(&c.aws_access_key_id, aws_access_key_id) && opt_is(
            &c.aws_secret_access_key,
            aws_secret_access_key,
        ) && opt_is(&c.region, region) {
            assert(es[i as int].1 == want);
            return true;
        }
        i = i + 1;
    }
    false
}

/// The profile this application writes its credentials under.
pub open spec fn app_profile() -> Seq<char> {
    "rndr"@
}

/// What appending credentials to a file with text `contents` writes: nothing
/// where a profile already holds exactly these values; otherwise the whole
/// file as read, with profile `rndr` set to them.
pub open spec fn credentials_to_append_spec(
    contents: Seq<char>,
    aws_access_key_id: Seq<char>,
    aws_secret_access_key: Seq<char>,
    region: Seq<char>,
) -> Option<Seq<char>> {
    let es = parsed_entries(contents);
    if has_credentials(es, aws_access_key_id, aws_secret_access_key, region) {
        None
    } else {
        Some(
            credentials_text(
                updated_entries(
                    es,
                    app_profile(),
                    Some(aws_access_key_id),
                    Some(aws_secret_access_key),
                    Some(region),
                ),
            ),
        )
    }
}

/// The text to append to the credentials file whose text is `contents` so
/// that profile `rndr` holds the given values, or `None` where some profile
/// already holds exactly them.
pub fn credentials_to_append(
    contents: &str,
    aws_access_key_id: &str,
    aws_secret_access_key: &str,
    region: &str,
) -> (r: Option<String>)
    ensures
        opt_text(r) == credentials_to_append_spec(
            contents@,
            aws_access_key_id@,
            aws_secret_access_key@,
            region@,
        ),
{
    let aws_credentials = parse_credentials(contents);
    if has_matching_credentials(&aws_credentials, aws_access_key_id, aws_secret_access_key, region) {
        return None;
    }
    let profile = "rndr";
    let updated = update_profile_credentials(
        aws_credentials,
        profile,
        Some(aws_access_key_id),
        Some(aws_secret_access_key),
        Some(region),
    );
    match updated {
        Ok(m) => Some(credentials_file_text(&m)),
        Err(_) => None,
    }
}

} // verus!
