//! The files behind the environment settings: a `KEY=value` file of
//! environment variables, and what the settings screen reads from the AWS
//! credentials file.
use vstd::prelude::*;

pub use crate::aws_credentials::AwsCredentials;
use crate::aws_credentials::{opt_text, CredentialsView};
use crate::credentials_laws::lemma_entries_insert;
use crate::string_map::{entries_insert, entries_to_map, has_key, keys_unique, StringMap};
use crate::text::{
    append_lines, contains_str, find_char, has_substring, is_first_index, is_plain_line,
    join_lines, lemma_first_index_unique, lemma_lines_of_join, lemma_split_once_concat, lines_of, same_text, slice_string, split_lines,
    split_once, to_chars, trim, trim_range,
};

verus! {

// ---------------------------------------------------------------------------
// The file of environment variables
// ---------------------------------------------------------------------------
/// Every line holds a `'='` (a line without one stops the reader).
pub open spec fn env_lines_ok(ls: Seq<Seq<char>>) -> bool {
    forall|k: int| 0 <= k < ls.len() ==> (#[trigger] ls[k]).contains('=')
}

/// Reading the lines `ls`: each line is split at its first `'='` into a name
/// and a value, and a later line for a name replaces an earlier one.
pub open spec fn env_read(ls: Seq<Seq<char>>) -> Seq<(Seq<char>, Seq<char>)>
    decreases ls.len(),
{
    if ls.len() == 0 {
        Seq::<(Seq<char>, Seq<char>)>::empty()
    } else {
        let es = env_read(ls.drop_last());
        match split_once(ls.last(), '=') {
            Some(kv) => entries_insert(es, kv.0, kv.1),
            None => es,
        }
    }
}

/// The variables that the file with text `contents` holds.
pub open spec fn env_entries(contents: Seq<char>) -> Seq<(Seq<char>, Seq<char>)> {
    env_read(lines_of(contents))
}

/// The line written for a variable.
pub open spec fn env_line(e: (Seq<char>, Seq<char>)) -> Seq<char> {
    e.0 + seq!['='] + e.1
}

/// The text written for the variables `es`: one `name=value` line each.
pub open spec fn env_text(es: Seq<(Seq<char>, Seq<char>)>) -> Seq<char> {
    join_lines(es.map_values(|e: (Seq<char>, Seq<char>)| env_line(e)))
}

/// Whether every line of `contents` holds a `'='`, so that it can be read.
pub fn env_text_readable(contents: &str) -> (ok: bool)
    ensures
        ok == env_lines_ok(lines_of(contents@)),
{
    let lines = split_lines(contents);
    let mut i: usize = 0;
    while i < lines.len()
        invariant
            i <= lines.len(),
            lines.deep_view() == lines_of(contents@),
            forall|k: int| 0 <= k < i ==> (#[trigger] lines.deep_view()[k]).contains('='),
        decreases lines.len() - i,
    {
        let cs = to_chars(lines[i].as_str());
        match find_char(&cs, 0, cs.len(), '=') {
            Some(_) => {},
            None => {
                assert(cs@.subrange(0, cs.len() as int) =~= lines.deep_view()[i as int]);
                return false;
            },
        }
        i = i + 1;
    }
    true
}

/// Splits `line` at its first `'='`.
fn split_at_equals(line: &str) -> (r: (String, String))
    requires
        line@.contains('='),
    ensures
        split_once(line@, '=') == Some((r.0@, r.1@)),
{
    let cs = to_chars(line);
    proof {
        assert(cs@.subrange(0, cs.len() as int) =~= line@);
    }
    match find_char(&cs, 0, cs.len(), '=') {
        Some(k) => {
            proof {
                let j = choose|j: int| is_first_index(line@, '=', j);
                lemma_first_index_unique(line@, '=', j, k as int);
            }
            (slice_string(line, 0, k), slice_string(line, k + 1, cs.len()))
        },
        None => (String::new(), String::new()),
    }
}

/// Reads the file of environment variables whose text is `contents`: each
/// line `name=value` sets that variable, the last line for a name winning.
pub fn parse_env_text(contents: &str) -> (vars: StringMap<String>)
    requires
        env_lines_ok(lines_of(contents@)),
    ensures
        vars.entries() == env_entries(contents@),
{
    let lines = split_lines(contents);
    let mut vars: StringMap<String> = StringMap::new();
    let mut i: usize = 0;
    while i < lines.len()
        invariant
            i <= lines.len(),
            lines.deep_view() == lines_of(contents@),
            env_lines_ok(lines.deep_view()),
            vars.entries() == env_read(lines.deep_view().take(i as int)),
        decreases lines.len() - i,
    {
        proof {
            assert(lines.deep_view().take(i + 1).drop_last() =~= lines.deep_view().take(i as int));
            assert(lines.deep_view().take(i + 1).last() == lines.deep_view()[i as int]);
        }
        let (key, value) = split_at_equals(lines[i].as_str());
        vars.insert(key, value);
        i = i + 1;
    }
    assert(lines.deep_view().take(lines.len() as int) =~= lines.deep_view());
    vars
}

/// The text of the file of environment variables holding `vars`: a line
/// `name=value` for each variable, in order.
pub fn env_file_text(vars: &StringMap<String>) -> (text: String)
    ensures
        text@ == env_text(vars.entries()),
{
    let n = vars.len();
    let ghost es = vars.entries();
    let mut lines: Vec<String> = Vec::new();
    let mut i: usize = 0;
    while i < n
        invariant
            n == es.len(),
            es == vars.entries(),
            i <= n,
            lines.deep_view() == es.take(i as int).map_values(
                |e: (Seq<char>, Seq<char>)| env_line(e),
            ),
        decreases n - i,
    {
        let key = vars.key_at(i);
        let value = vars.value_at(i);
        let mut l = String::new();
        l.append(key.as_str());
        l.append("=");
        l.append(value.as_str());
        proof {
            reveal_strlit("=");
            assert(l@ =~= env_line(es[i as int]));
        }
        let ghost before = lines.deep_view();
        lines.push(l);
        proof {
            assert(lines.deep_view() =~= before.push(l@));
            assert(es.take(i + 1) =~= es.take(i as int).push(es[i as int]));
            assert(lines.deep_view() =~= es.take(i + 1).map_values(
                |e: (Seq<char>, Seq<char>)| env_line(e),
            ));
        }
        i = i + 1;
    }
    assert(es.take(n as int) =~= es);
    let mut text = String::new();
    append_lines(&mut text, &lines);
    assert(text@ =~= join_lines(lines.deep_view()));
    text
}

/// The new text of the file of environment variables whose text is
/// `contents` after setting `key` to `value`: the file is read, the variable
/// set (in place where it was there, last where it was not), and the whole
/// file written again.
pub fn add_or_update_env_text(contents: &str, key: &str, value: &str) -> (text: String)
    requires
        env_lines_ok(lines_of(contents@)),
    ensures
        text@ == env_text(entries_insert(env_entries(contents@), key@, value@)),
{
    let mut vars = parse_env_text(contents);
    vars.insert(key.to_owned(), value.to_owned());
    env_file_text(&vars)
}

// ---------------------------------------------------------------------------
// The credentials file, as the settings screen reads it
// ---------------------------------------------------------------------------
/// The name and value of a line read by the settings screen: the text before
/// the first `'='` and the text after it, both trimmed; a line without `'='`
/// is all name and an empty value.
pub open spec fn setting_of(line: Seq<char>) -> (Seq<char>, Seq<char>) {
    match split_once(line, '=') {
        Some(kv) => (trim(kv.0), trim(kv.1)),
        None => (trim(line), Seq::<char>::empty()),
    }
}

/// Reading lines for the credentials shown on the settings screen: empty
/// lines and lines holding `[default]` are passed over; every other line
/// whose name is one of the three keys sets that field (the last one wins).
/// Sections are not told apart.
pub open spec fn shown_credentials(ls: Seq<Seq<char>>) -> CredentialsView
    decreases ls.len(),
{
    if ls.len() == 0 {
        CredentialsView { aws_access_key_id: None, aws_secret_access_key: None, region: None }
    } else {
        let c = shown_credentials(ls.drop_last());
        let l = ls.last();
        if l.len() == 0 || has_substring(l, "[default]"@) {
            c
        } else {
            let (k, v) = setting_of(l);
            if k == "aws_access_key_id"@ {
                CredentialsView { aws_access_key_id: Some(v), ..c }
            } else if k == "aws_secret_access_key"@ {
                CredentialsView { aws_secret_access_key: Some(v), ..c }
            } else if k == "region"@ {
                CredentialsView { region: Some(v), ..c }
            } else {
                c
            }
        }
    }
}

/// The name and value of one line.
fn read_setting(line: &str) -> (r: (String, String))
    ensures
        setting_of(line@) == (r.0@, r.1@),
{
    let cs = to_chars(line);
    proof {
        assert(cs@.subrange(0, cs.len() as int) =~= line@);
    }
    match find_char(&cs, 0, cs.len(), '=') {
        Some(k) => {
            proof {
                assert(line@.contains('=')) by {
                    assert(line@[k as int] == '=');
                }
                let j = choose|j: int| is_first_index(line@, '=', j);
                lemma_first_index_unique(line@, '=', j, k as int);
                assert(line@.take(k as int) =~= cs@.subrange(0, k as int));
                assert(line@.skip(k + 1) =~= cs@.subrange(k + 1, cs.len() as int));
            }
            let (a, b) = trim_range(&cs, 0, k);
            let (c, d) = trim_range(&cs, k + 1, cs.len());
            (slice_string(line, a, b), slice_string(line, c, d))
        },
        None => {
            let (a, b) = trim_range(&cs, 0, cs.len());
            (slice_string(line, a, b), String::new())
        },
    }
}

/// The credentials that the settings screen shows for the credentials file
/// whose lines are `lines`.
pub fn credentials_from_lines(lines: &Vec<String>) -> (c: AwsCredentials)
    ensures
        c@ == shown_credentials(lines.deep_view()),
{
    let mut aws_access_key_id: Option<String> = None;
    let mut aws_secret_access_key: Option<String> = None;
    let mut region: Option<String> = None;
    let mut i: usize = 0;
    while i < lines.len()
        invariant
            i <= lines.len(),
            shown_credentials(lines.deep_view().take(i as int)) == (CredentialsView {
                aws_access_key_id: opt_text(aws_access_key_id),
                aws_secret_access_key: opt_text(aws_secret_access_key),
                region: opt_text(region),
            }),
        decreases lines.len() - i,
    {
        proof {
            assert(lines.deep_view().take(i + 1).drop_last() =~= lines.deep_view().take(i as int));
            assert(lines.deep_view().take(i + 1).last() == lines[i as int]@);
        }
        let line = lines[i].as_str();
        if !line.is_empty() && !contains_str(line, "[default]") {
            let (key, value) = read_setting(line);
            if same_text(key.as_str(), "aws_access_key_id") {
                aws_access_key_id = Some(value);
            } else if same_text(key.as_str(), "aws_secret_access_key") {
                aws_secret_access_key = Some(value);
            } else if same_text(key.as_str(), "region") {
                region = Some(value);
            }
        }
        i = i + 1;
    }
    assert(lines.deep_view().take(lines.len() as int) =~= lines.deep_view());
    AwsCredentials { aws_access_key_id, aws_secret_access_key, region }
}

/// Whether the credentials check passes over a line: empty lines and lines
/// that begin with `[` and end with `]`.
pub open spec fn is_skipped_auth_line(l: Seq<char>) -> bool {
    l.len() == 0 || (l[0] == '[' && l.last() == ']')
}

/// Some line of `ls` that the check reads has the name `key`.
pub open spec fn names_key(ls: Seq<Seq<char>>, key: Seq<char>) -> bool {
    exists|k: int|
        0 <= k < ls.len() && !is_skipped_auth_line(#[trigger] ls[k]) && setting_of(ls[k]).0 == key
}

/// The credentials file names all three keys somewhere.
pub open spec fn auth_file_complete(ls: Seq<Seq<char>>) -> bool {
    &&& names_key(ls, "aws_access_key_id"@)
    &&& names_key(ls, "aws_secret_access_key"@)
    &&& names_key(ls, "region"@)
}

/// Whether a line is passed over by the credentials check.
fn skipped_auth_line(line: &str) -> (b: bool)
    ensures
        b == is_skipped_auth_line(line@),
{
    let cs = to_chars(line);
    cs.len() == 0 || (cs[0] == '[' && cs[cs.len() - 1] == ']')
}

/// Whether the credentials file with lines `lines` names
/// `aws_access_key_id`, `aws_secret_access_key` and `region`, each on a line
/// of its own outside the section headers.
pub fn auth_file_has_all_keys(lines: &Vec<String>) -> (ok: bool)
    ensures
        ok == auth_file_complete(lines.deep_view()),
{
    let ghost ls = lines.deep_view();
    let mut has_id = false;
    let mut has_secret = false;
    let mut has_region = false;
    let mut i: usize = 0;
    while i < lines.len()
        invariant
            i <= lines.len(),
            ls == lines.deep_view(),
            has_id == names_key(ls.take(i as int), "aws_access_key_id"@),
            has_secret == names_key(ls.take(i as int), "aws_secret_access_key"@),
            has_region == names_key(ls.take(i as int), "region"@),
        decreases lines.len() - i,
    {
        let line = lines[i].as_str();
        let ghost l = line@;
        let ghost t0 = ls.take(i as int);
        let ghost t1 = ls.take(i + 1);
        proof {
            assert(t1 =~= t0.push(l));
            assert forall|key: Seq<char>|
                names_key(t1, key) == (names_key(t0, key) || (!is_skipped_auth_line(l)
                    && setting_of(l).0 == key)) by {
                if names_key(t1, key) {
                    let k = choose|k: int|
                        0 <= k < t1.len() && !is_skipped_auth_line(#[trigger] t1[k]) && setting_of(
                            t1[k],
                        ).0 == key;
                    if k < t0.len() {
                        assert(t0[k] == t1[k]);
                    }
                }
                if names_key(t0, key) {
                    let k = choose|k: int|
                        0 <= k < t0.len() && !is_skipped_auth_line(#[trigger] t0[k]) && setting_of(
                            t0[k],
                        ).0 == key;
                    assert(t1[k] == t0[k]);
                }
                if !is_skipped_auth_line(l) && setting_of(l).0 == key {
                    assert(t1[i as int] == l);
                }
            }
        }
        if !skipped_auth_line(line) {
            let (key, _value) = read_setting(line);
            if same_text(key.as_str(), "aws_access_key_id") {
                has_id = true;
            }
            if same_text(key.as_str(), "aws_secret_access_key") {
                has_secret = true;
            }
            if same_text(key.as_str(), "region") {
                has_region = true;
            }
        }
        i = i + 1;
    }
    assert(ls.take(lines.len() as int) =~= ls);
    has_id && has_secret && has_region
}

// ---------------------------------------------------------------------------
// Laws of the file of environment variables
// ---------------------------------------------------------------------------
/// Variables that are written and read back unchanged: distinct names
/// without `'='`, and names and values that stand on one line.
pub open spec fn printable_vars(es: Seq<(Seq<char>, Seq<char>)>) -> bool {
    &&& keys_unique(es)
    &&& forall|j: int|
        0 <= j < es.len() ==> !(#[trigger] es[j]).0.contains('=') && !es[j].0.contains('\n')
            && is_plain_line(es[j].1)
}

/// The line written for a printable variable is plain and is read back as it.
proof fn lemma_env_line(k: Seq<char>, v: Seq<char>)
    requires
        !k.contains('='),
        !k.contains('\n'),
        is_plain_line(v),
    ensures
        is_plain_line(env_line((k, v))),
        split_once(env_line((k, v)), '=') == Some((k, v)),
{
    lemma_split_once_concat(k, '=', v);
    let l = env_line((k, v));
    assert(!l.contains('\n')) by {
        if l.contains('\n') {
            let j = choose|j: int| 0 <= j < l.len() && l[j] == '\n';
            if j < k.len() {
                assert(k[j] == '\n');
            } else if j > k.len() {
                assert(v[j - k.len() - 1] == '\n');
            }
        }
    }
    if v.len() > 0 {
        assert(l.last() == v.last());
    } else {
        assert(l.last() == '=');
    }
}

/// Reading the lines written for printable variables gives them back.
proof fn lemma_env_read_lines(es: Seq<(Seq<char>, Seq<char>)>)
    requires
        printable_vars(es),
    ensures
        env_read(es.map_values(|e: (Seq<char>, Seq<char>)| env_line(e))) == es,
    decreases es.len(),
{
    let ls = es.map_values(|e: (Seq<char>, Seq<char>)| env_line(e));
    if es.len() == 0 {
        assert(ls =~= Seq::<Seq<char>>::empty());
        assert(es =~= Seq::<(Seq<char>, Seq<char>)>::empty());
    } else {
        let rest = es.drop_last();
        assert(printable_vars(rest)) by {
            assert forall|j: int| 0 <= j < rest.len() implies !(#[trigger] rest[j]).0.contains('=')
                && !rest[j].0.contains('\n') && is_plain_line(rest[j].1) by {
                assert(rest[j] == es[j]);
            }
            assert forall|a: int, b: int|
                0 <= a < rest.len() && 0 <= b < rest.len() && a != b implies (#[trigger] rest[a]).0
                != (#[trigger] rest[b]).0 by {
                assert(rest[a] == es[a] && rest[b] == es[b]);
            }
        }
        lemma_env_read_lines(rest);
        assert(ls.drop_last() =~= rest.map_values(|e: (Seq<char>, Seq<char>)| env_line(e)));
        let last = es.last();
        assert(last == es[es.len() - 1]);
        lemma_env_line(last.0, last.1);
        assert(ls.last() == env_line(last));
        assert(!has_key(rest, last.0)) by {
            if has_key(rest, last.0) {
                let j = choose|j: int| 0 <= j < rest.len() && (#[trigger] rest[j]).0 == last.0;
                assert(rest[j] == es[j]);
            }
        }
        assert(rest.push(last) =~= es);
    }
}

/// The credentials check fails whenever one of the three keys is named by no
/// line other than the empty lines and the section headers (lines that begin
/// with `[` and end with `]`), and passes whenever each of them is named by
/// such a line.
pub proof fn lemma_auth_check_needs_every_key(ls: Seq<Seq<char>>, key: Seq<char>)
    ensures
        (key == "aws_access_key_id"@ || key == "aws_secret_access_key"@ || key == "region"@)
            && (forall|k: int|
            0 <= k < ls.len() ==> (#[trigger] ls[k]).len() == 0 || (ls[k][0] == '['
                && ls[k].last() == ']') || setting_of(ls[k]).0 != key) ==> !auth_file_complete(ls),
        (exists|k: int|
            0 <= k < ls.len() && (#[trigger] ls[k]).len() != 0 && !(ls[k][0] == '['
                && ls[k].last() == ']') && setting_of(ls[k]).0 == "aws_access_key_id"@)
            && (exists|k: int|
            0 <= k < ls.len() && (#[trigger] ls[k]).len() != 0 && !(ls[k][0] == '['
                && ls[k].last() == ']') && setting_of(ls[k]).0 == "aws_secret_access_key"@)
            && (exists|k: int|
            0 <= k < ls.len() && (#[trigger] ls[k]).len() != 0 && !(ls[k][0] == '['
                && ls[k].last() == ']') && setting_of(ls[k]).0 == "region"@) ==> auth_file_complete(ls),
{
    if (key == "aws_access_key_id"@ || key == "aws_secret_access_key"@ || key == "region"@)
        && (forall|k: int|
        0 <= k < ls.len() ==> (#[trigger] ls[k]).len() == 0 || (ls[k][0] == '[' && ls[k].last()
            == ']') || setting_of(ls[k]).0 != key) {
        assert(!names_key(ls, key));
    }
    if (exists|k: int|
            0 <= k < ls.len() && (#[trigger] ls[k]).len() != 0 && !(ls[k][0] == '['
                && ls[k].last() == ']') && setting_of(ls[k]).0 == "aws_access_key_id"@)
        && (exists|k: int|
            0 <= k < ls.len() && (#[trigger] ls[k]).len() != 0 && !(ls[k][0] == '['
                && ls[k].last() == ']') && setting_of(ls[k]).0 == "aws_secret_access_key"@)
        && (exists|k: int|
            0 <= k < ls.len() && (#[trigger] ls[k]).len() != 0 && !(ls[k][0] == '['
                && ls[k].last() == ']') && setting_of(ls[k]).0 == "region"@) {
        let a = "aws_access_key_id"@;
        let b = "aws_secret_access_key"@;
        let c = "region"@;
        let ka = choose|k: int|
            0 <= k < ls.len() && (#[trigger] ls[k]).len() != 0 && !(ls[k][0] == '['
                && ls[k].last() == ']') && setting_of(ls[k]).0 == a;
        let kb = choose|k: int|
            0 <= k < ls.len() && (#[trigger] ls[k]).len() != 0 && !(ls[k][0] == '['
                && ls[k].last() == ']') && setting_of(ls[k]).0 == b;
        let kc = choose|k: int|
            0 <= k < ls.len() && (#[trigger] ls[k]).len() != 0 && !(ls[k][0] == '['
                && ls[k].last() == ']') && setting_of(ls[k]).0 == c;
        assert(!is_skipped_auth_line(ls[ka]) && setting_of(ls[ka]).0 == a);
        assert(!is_skipped_auth_line(ls[kb]) && setting_of(ls[kb]).0 == b);
        assert(!is_skipped_auth_line(ls[kc]) && setting_of(ls[kc]).0 == c);
    }
}

/// What the settings screen shows after one more line: a line whose name is
/// none of the three keys (a section header among them) changes nothing; a
/// non-empty line without `[default]` that names a key sets that field to the
/// line's value and keeps the other two.
pub proof fn lemma_shown_after_line(ls: Seq<Seq<char>>, l: Seq<char>)
    ensures
        setting_of(l).0 != "aws_access_key_id"@ && setting_of(l).0 != "aws_secret_access_key"@
            && setting_of(l).0 != "region"@ ==> shown_credentials(ls.push(l)) == shown_credentials(ls),
        l.len() == 0 || has_substring(l, "[default]"@) ==> shown_credentials(ls.push(l))
            == shown_credentials(ls),
        l.len() != 0 && !has_substring(l, "[default]"@) && setting_of(l).0 == "aws_access_key_id"@
            ==> shown_credentials(ls.push(l)).aws_access_key_id == Some(setting_of(l).1)
            && shown_credentials(ls.push(l)).aws_secret_access_key == shown_credentials(
            ls,
        ).aws_secret_access_key && shown_credentials(ls.push(l)).region == shown_credentials(
            ls,
        ).region,
        l.len() != 0 && !has_substring(l, "[default]"@) && setting_of(l).0
            == "aws_secret_access_key"@ ==> shown_credentials(ls.push(l)).aws_secret_access_key
            == Some(setting_of(l).1) && shown_credentials(ls.push(l)).aws_access_key_id
            == shown_credentials(ls).aws_access_key_id && shown_credentials(ls.push(l)).region
            == shown_credentials(ls).region,
        l.len() != 0 && !has_substring(l, "[default]"@) && setting_of(l).0 == "region"@
            ==> shown_credentials(ls.push(l)).region == Some(setting_of(l).1) && shown_credentials(
            ls.push(l),
        ).aws_access_key_id == shown_credentials(ls).aws_access_key_id && shown_credentials(
            ls.push(l),
        ).aws_secret_access_key == shown_credentials(ls).aws_secret_access_key,
{
    assert(ls.push(l).drop_last() =~= ls);
    assert(ls.push(l).last() == l);
    reveal_strlit("aws_access_key_id");
    reveal_strlit("aws_secret_access_key");
    reveal_strlit("region");
    assert("aws_access_key_id"@.len() != "aws_secret_access_key"@.len());
    assert("aws_access_key_id"@.len() != "region"@.len());
    assert("aws_secret_access_key"@.len() != "region"@.len());
}

/// Writing printable variables and reading the text back gives the same
/// variables in the same order.
pub proof fn lemma_env_round_trip(es: Seq<(Seq<char>, Seq<char>)>)
    requires
        printable_vars(es),
    ensures
        env_entries(env_text(es)) == es,
{
    let ls = es.map_values(|e: (Seq<char>, Seq<char>)| env_line(e));
    assert forall|k: int| 0 <= k < ls.len() implies is_plain_line(#[trigger] ls[k]) by {
        lemma_env_line(es[k].0, es[k].1);
    }
    lemma_lines_of_join(ls);
    lemma_env_read_lines(es);
}

/// Setting a variable and reading the file again: where the variables read
/// from the file are printable and the new name and value are too, the file
/// is read back as the old variables with `key` set to `value`, so that
/// reading `key` gives `value`.
pub proof fn lemma_env_update_read_back(contents: Seq<char>, key: Seq<char>, value: Seq<char>)
    requires
        printable_vars(env_entries(contents)),
        !key.contains('='),
        !key.contains('\n'),
        is_plain_line(value),
    ensures
        env_entries(env_text(entries_insert(env_entries(contents), key, value))) == entries_insert(
            env_entries(contents),
            key,
            value,
        ),
        entries_to_map(env_entries(env_text(entries_insert(env_entries(contents), key, value))))[key]
            == value,
{
    let es = env_entries(contents);
    let r = entries_insert(es, key, value);
    lemma_entries_insert(es, key, value);
    assert(printable_vars(r)) by {
        if has_key(es, key) {
            let i = choose|i: int| 0 <= i < es.len() && (#[trigger] es[i]).0 == key;
            assert forall|j: int| 0 <= j < r.len() implies !(#[trigger] r[j]).0.contains('=')
                && !r[j].0.contains('\n') && is_plain_line(r[j].1) by {
                if j != i {
                    assert(r[j] == es[j]);
                }
            }
        } else {
            assert forall|j: int| 0 <= j < r.len() implies !(#[trigger] r[j]).0.contains('=')
                && !r[j].0.contains('\n') && is_plain_line(r[j].1) by {
                if j < es.len() {
                    assert(r[j] == es[j]);
                }
            }
        }
    }
    lemma_env_round_trip(r);
}

} // verus!
