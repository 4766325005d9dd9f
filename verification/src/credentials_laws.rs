//! What holds between reading and writing the credentials file: a file that
//! was written is read back as the profiles that were written; after
//! appending this application's credentials the file is read back holding
//! them and names all three keys.
use vstd::prelude::*;

use crate::aws_credentials::{
    app_profile, blank_credentials, credentials_lines, credentials_text,
    credentials_to_append_spec, current_or_blank, field_named, full_credentials, has_credentials,
    is_section, merged_credentials, parsed_entries, profile_lines, profile_of, read_lines,
    read_step, section_line, start_state, updated_entries, with_field, CredentialField,
    CredentialsView, ReadState,
};
use crate::env_mod::{
    auth_file_complete, is_skipped_auth_line, names_key, setting_of, shown_credentials,
};
use crate::string_map::{
    entries_insert, entries_to_map, has_key, keys_unique, lemma_entries_to_map_at,
    lemma_entries_to_map_push, lemma_entries_to_map_update,
};
use crate::text::{
    has_substring, is_first_index, is_plain_line, is_white, lemma_lines_no_newline, lemma_lines_of_append,
    lemma_lines_of_join, lemma_split_once_concat, lemma_subrange_lacks, lemma_trim_end_at,
    lemma_trim_fixed, lemma_trim_idem, lemma_trim_lacks, lemma_trim_shape, lemma_trim_start_at,
    lines_of, split_once, trim, trim_end, trim_start,
};

verus! {

/// A value that is written and read back unchanged: it is its own trim and
/// stands on one line.
pub open spec fn plain_value(v: Seq<char>) -> bool {
    trim(v) == v && !v.contains('\n')
}

/// A profile that is written and read back unchanged: a one-line name, both
/// keys set, and plain values.
pub open spec fn printable_profile(name: Seq<char>, c: CredentialsView) -> bool {
    &&& !name.contains('\n')
    &&& c.aws_access_key_id matches Some(k) && plain_value(k)
    &&& c.aws_secret_access_key matches Some(s) && plain_value(s)
    &&& c.region matches Some(r) ==> plain_value(r)
}

/// Profiles with distinct names that are all printable.
pub open spec fn printable_entries(es: Seq<(Seq<char>, CredentialsView)>) -> bool {
    &&& keys_unique(es)
    &&& forall|j: int| 0 <= j < es.len() ==> printable_profile(#[trigger] es[j].0, es[j].1)
}

// ---------------------------------------------------------------------------
// Reading lines one after another
// ---------------------------------------------------------------------------
/// Reading one more line is one more step.
pub proof fn lemma_read_lines_push(st: ReadState, ls: Seq<Seq<char>>, l: Seq<char>)
    ensures
        read_lines(st, ls.push(l)) == read_step(read_lines(st, ls), l),
{
    assert(ls.push(l).drop_last() =~= ls);
}

/// Reading `a + b` is reading `a`, then `b`.
pub proof fn lemma_read_lines_concat(st: ReadState, a: Seq<Seq<char>>, b: Seq<Seq<char>>)
    ensures
        read_lines(st, a + b) == read_lines(read_lines(st, a), b),
    decreases b.len(),
{
    if b.len() == 0 {
        assert(a + b =~= a);
    } else {
        lemma_read_lines_concat(st, a, b.drop_last());
        assert((a + b).drop_last() =~= a + b.drop_last());
        assert((a + b).last() == b.last());
    }
}

// ---------------------------------------------------------------------------
// Setting values in a list of entries
// ---------------------------------------------------------------------------
/// After `entries_insert` the key is there with the new value, and keys stay distinct.
pub proof fn lemma_entries_insert<W>(es: Seq<(Seq<char>, W)>, k: Seq<char>, v: W)
    requires
        keys_unique(es),
    ensures
        keys_unique(entries_insert(es, k, v)),
        has_key(entries_insert(es, k, v), k),
        entries_to_map(entries_insert(es, k, v)) == entries_to_map(es).insert(k, v),
        entries_to_map(entries_insert(es, k, v))[k] == v,
{
    let r = entries_insert(es, k, v);
    if has_key(es, k) {
        let i = choose|i: int| 0 <= i < es.len() && (#[trigger] es[i]).0 == k;
        lemma_entries_to_map_update(es, i, v);
        assert(r[i].0 == k);
    } else {
        lemma_entries_to_map_push(es, k, v);
        assert(r[es.len() as int].0 == k);
    }
}

/// Setting a key twice is setting it to the second value.
pub proof fn lemma_entries_insert_twice<W>(es: Seq<(Seq<char>, W)>, k: Seq<char>, v1: W, v2: W)
    requires
        keys_unique(es),
    ensures
        entries_insert(entries_insert(es, k, v1), k, v2) == entries_insert(es, k, v2),
{
    lemma_entries_insert(es, k, v1);
    let r = entries_insert(es, k, v1);
    if has_key(es, k) {
        let i = choose|i: int| 0 <= i < es.len() && (#[trigger] es[i]).0 == k;
        let j = choose|j: int| 0 <= j < r.len() && (#[trigger] r[j]).0 == k;
        assert(r[i].0 == k);
        assert(j == i);
        assert(r.update(j, (k, v2)) =~= es.update(i, (k, v2)));
    } else {
        let j = choose|j: int| 0 <= j < r.len() && (#[trigger] r[j]).0 == k;
        if j < es.len() {
            assert(r[j] == es[j]);
        }
        assert(j == es.len());
        assert(r.update(j, (k, v2)) =~= es.push((k, v2)));
    }
}

/// After setting a profile, its current credentials are the ones set.
pub proof fn lemma_current_after_insert(es: Seq<(Seq<char>, CredentialsView)>, k: Seq<char>, v: CredentialsView)
    requires
        keys_unique(es),
    ensures
        current_or_blank(entries_insert(es, k, v), k) == v,
{
    lemma_entries_insert(es, k, v);
}

// ---------------------------------------------------------------------------
// The lines of one profile
// ---------------------------------------------------------------------------
/// A key that can stand at the start of a `key = value` line.
pub open spec fn line_key(key: Seq<char>) -> bool {
    &&& key.len() > 0
    &&& !key.contains('=')
    &&& !key.contains('\n')
    &&& key[0] != '['
    &&& !is_white(key[0])
    &&& !is_white(key.last())
}

/// The line `key = v`.
pub open spec fn key_line(key: Seq<char>, v: Seq<char>) -> Seq<char> {
    key + seq![' ', '=', ' '] + v
}

/// Trimming `key + " "` gives back the key.
proof fn lemma_trim_key_space(key: Seq<char>)
    requires
        line_key(key),
    ensures
        trim(key + seq![' ']) == key,
{
    let x = key + seq![' '];
    assert(x[0] == key[0]);
    lemma_trim_start_at(x, 0);
    assert(x.subrange(0, x.len() as int) =~= x);
    assert(x[key.len() - 1] == key.last());
    assert(is_white(x[key.len() as int]));
    lemma_trim_end_at(x, key.len() as int);
    assert(x.subrange(0, key.len() as int) =~= key);
}

/// A plain value is its own trim and, where it is not empty, begins and ends
/// with a character that is not white space.
proof fn lemma_plain_value_ends(v: Seq<char>)
    requires
        plain_value(v),
    ensures
        v.len() > 0 ==> !is_white(v[0]) && !is_white(v.last()),
{
    lemma_trim_shape(v);
}

/// A line `key = v` is plain, is no section header, and splits into the key
/// and the value.
pub proof fn lemma_key_line(key: Seq<char>, v: Seq<char>)
    requires
        line_key(key),
        plain_value(v),
    ensures
        is_plain_line(key_line(key, v)),
        !is_section(trim(key_line(key, v))),
        split_once(trim(key_line(key, v)), '=') matches Some(kv) && trim(kv.0) == key && trim(kv.1)
            == v,
{
    let line = key_line(key, v);
    let head = key + seq![' '];
    assert(!head.contains('=')) by {
        if head.contains('=') {
            let j = choose|j: int| 0 <= j < head.len() && head[j] == '=';
            assert(key[j] == '=');
        }
    }
    lemma_trim_key_space(key);
    lemma_plain_value_ends(v);
    assert(!line.contains('\n')) by {
        if line.contains('\n') {
            let j = choose|j: int| 0 <= j < line.len() && line[j] == '\n';
            if j < key.len() {
                assert(key[j] == '\n');
            } else if j >= key.len() + 3 {
                assert(v[j - key.len() - 3] == '\n');
            }
        }
    }
    assert(line[0] == key[0]);
    if v.len() > 0 {
        assert(line.last() == v.last());
        lemma_trim_fixed(line);
        assert(line =~= head + seq!['='] + (seq![' '] + v));
        lemma_split_once_concat(head, '=', seq![' '] + v);
        let y = seq![' '] + v;
        assert(y[1] == v[0]);
        lemma_trim_start_at(y, 1);
        assert(y.subrange(1, y.len() as int) =~= v);
        lemma_trim_start_at(v, 0);
        assert(v.subrange(0, v.len() as int) =~= v);
        assert(trim(y) == trim_end(v));
    } else {
        assert(line.last() == ' ');
        lemma_trim_start_at(line, 0);
        assert(line.subrange(0, line.len() as int) =~= line);
        assert(line[key.len() + 1int] == '=');
        assert(line[key.len() + 2int] == ' ');
        lemma_trim_end_at(line, key.len() + 2int);
        let t = line.subrange(0, key.len() + 2int);
        assert(t =~= head + seq!['='] + Seq::<char>::empty());
        lemma_split_once_concat(head, '=', Seq::<char>::empty());
        assert(trim(Seq::<char>::empty()) == Seq::<char>::empty());
        assert(v =~= Seq::<char>::empty());
        assert(t[0] == key[0]);
    }
}

/// The header line of a profile is plain and is read as that profile.
pub proof fn lemma_section_line(name: Seq<char>)
    requires
        !name.contains('\n'),
    ensures
        is_plain_line(section_line(name)),
        is_section(trim(section_line(name))),
        trim(section_line(name)).subrange(1, trim(section_line(name)).len() - 1) == name,
{
    let l = section_line(name);
    assert(l[0] == '[');
    assert(l.last() == ']');
    lemma_trim_fixed(l);
    assert(l.subrange(1, l.len() - 1) =~= name);
    assert(!l.contains('\n')) by {
        if l.contains('\n') {
            let j = choose|j: int| 0 <= j < l.len() && l[j] == '\n';
            assert(name[j - 1] == '\n');
        }
    }
}

/// The three keys of a credentials file, and the prefixes of their lines.
pub proof fn lemma_key_texts()
    ensures
        line_key("aws_access_key_id"@),
        line_key("aws_secret_access_key"@),
        line_key("region"@),
        "aws_access_key_id = "@ == "aws_access_key_id"@ + seq![' ', '=', ' '],
        "aws_secret_access_key = "@ == "aws_secret_access_key"@ + seq![' ', '=', ' '],
        "region = "@ == "region"@ + seq![' ', '=', ' '],
        !"rndr"@.contains('\n'),
        field_named("aws_access_key_id"@) == Some(CredentialField::AccessKeyId),
        field_named("aws_secret_access_key"@) == Some(CredentialField::SecretAccessKey),
        field_named("region"@) == Some(CredentialField::Region),
{
    reveal_strlit("aws_access_key_id");
    reveal_strlit("aws_secret_access_key");
    reveal_strlit("region");
    reveal_strlit("aws_access_key_id = ");
    reveal_strlit("aws_secret_access_key = ");
    reveal_strlit("region = ");
    reveal_strlit("rndr");
    assert("aws_access_key_id = "@ =~= "aws_access_key_id"@ + seq![' ', '=', ' ']);
    assert("aws_secret_access_key = "@ =~= "aws_secret_access_key"@ + seq![' ', '=', ' ']);
    assert("region = "@ =~= "region"@ + seq![' ', '=', ' ']);
    assert("aws_secret_access_key"@.len() != "aws_access_key_id"@.len());
    assert("region"@.len() != "aws_access_key_id"@.len());
    assert("region"@.len() != "aws_secret_access_key"@.len());
}

/// Reading a line `key = v` inside profile `p` sets that field of `p`.
pub proof fn lemma_read_field_line(st: ReadState, key: Seq<char>, f: CredentialField, v: Seq<char>)
    requires
        st.0 is Some,
        line_key(key),
        field_named(key) == Some(f),
        plain_value(v),
    ensures
        read_step(st, key_line(key, v)) == (
            st.0,
            entries_insert(
                st.1,
                st.0->0,
                with_field(current_or_blank(st.1, st.0->0), f, v),
            ),
        ),
{
    lemma_key_line(key, v);
}

/// Reading an empty line changes nothing.
pub proof fn lemma_read_empty_line(st: ReadState)
    ensures
        read_step(st, Seq::<char>::empty()) == st,
{
    let e = Seq::<char>::empty();
    assert(trim_start(e) == e);
    assert(trim_end(e) == e);
    assert(!e.contains('='));
}

/// Every line written for a profile is plain.
pub proof fn lemma_profile_lines_plain(name: Seq<char>, c: CredentialsView)
    requires
        printable_profile(name, c),
    ensures
        forall|k: int| 0 <= k < profile_lines(name, c).len() ==> is_plain_line(
            #[trigger] profile_lines(name, c)[k],
        ),
{
    lemma_key_texts();
    lemma_section_line(name);
    let k = c.aws_access_key_id->0;
    let s = c.aws_secret_access_key->0;
    lemma_key_line("aws_access_key_id"@, k);
    lemma_key_line("aws_secret_access_key"@, s);
    if c.region is Some {
        lemma_key_line("region"@, c.region->0);
    }
    let e = Seq::<char>::empty();
    assert(is_plain_line(e));
    let ls = profile_lines(name, c);
    assert forall|j: int| 0 <= j < ls.len() implies is_plain_line(#[trigger] ls[j]) by {
        if c.region is Some {
            assert(ls =~= seq![
                section_line(name),
                key_line("aws_access_key_id"@, k),
                key_line("aws_secret_access_key"@, s),
                key_line("region"@, c.region->0),
                e,
            ]);
        } else {
            assert(ls =~= seq![
                section_line(name),
                key_line("aws_access_key_id"@, k),
                key_line("aws_secret_access_key"@, s),
                e,
            ]);
        }
    }
}

/// Reading the lines of one printable profile sets that profile to exactly
/// its credentials, where the profile read so far has no region that the
/// written one would fail to replace.
pub proof fn lemma_read_profile(st: ReadState, name: Seq<char>, c: CredentialsView)
    requires
        keys_unique(st.1),
        printable_profile(name, c),
        c.region is None && has_key(st.1, name) ==> entries_to_map(st.1)[name].region is None,
    ensures
        read_lines(st, profile_lines(name, c)) == (Some(name), entries_insert(st.1, name, c)),
{
    lemma_key_texts();
    lemma_section_line(name);
    let es = st.1;
    let e = Seq::<char>::empty();
    let k = c.aws_access_key_id->0;
    let s = c.aws_secret_access_key->0;
    let base = current_or_blank(es, name);
    // the header
    let s1: ReadState = (Some(name), es);
    assert(read_step(st, section_line(name)) == s1);
    // the access key
    lemma_read_field_line(s1, "aws_access_key_id"@, CredentialField::AccessKeyId, k);
    let c1 = with_field(base, CredentialField::AccessKeyId, k);
    let e1 = entries_insert(es, name, c1);
    let s2: ReadState = (Some(name), e1);
    assert(read_step(s1, key_line("aws_access_key_id"@, k)) == s2);
    lemma_current_after_insert(es, name, c1);
    lemma_entries_insert(es, name, c1);
    // the secret key
    lemma_read_field_line(s2, "aws_secret_access_key"@, CredentialField::SecretAccessKey, s);
    let c2 = with_field(c1, CredentialField::SecretAccessKey, s);
    let e2 = entries_insert(e1, name, c2);
    lemma_entries_insert_twice(es, name, c1, c2);
    let s3: ReadState = (Some(name), entries_insert(es, name, c2));
    assert(read_step(s2, key_line("aws_secret_access_key"@, s)) == s3);
    lemma_current_after_insert(es, name, c2);
    lemma_entries_insert(es, name, c2);
    let kl = key_line("aws_access_key_id"@, k);
    let sl = key_line("aws_secret_access_key"@, s);
    assert(base.region is None ==> c2.region is None);
    if c.region is Some {
        let r = c.region->0;
        lemma_read_field_line(s3, "region"@, CredentialField::Region, r);
        let c3 = with_field(c2, CredentialField::Region, r);
        lemma_entries_insert_twice(es, name, c2, c3);
        let s4: ReadState = (Some(name), entries_insert(es, name, c3));
        let rl = key_line("region"@, r);
        assert(read_step(s3, rl) == s4);
        lemma_read_empty_line(s4);
        assert(c3 == c);
        let ls = profile_lines(name, c);
        assert(ls =~= seq![section_line(name), kl, sl, rl, e]);
        let l0 = Seq::<Seq<char>>::empty();
        lemma_read_lines_push(st, l0, section_line(name));
        lemma_read_lines_push(st, l0.push(section_line(name)), kl);
        lemma_read_lines_push(st, l0.push(section_line(name)).push(kl), sl);
        lemma_read_lines_push(st, l0.push(section_line(name)).push(kl).push(sl), rl);
        lemma_read_lines_push(st, l0.push(section_line(name)).push(kl).push(sl).push(rl), e);
        assert(ls =~= l0.push(section_line(name)).push(kl).push(sl).push(rl).push(e));
    } else {
        lemma_read_empty_line(s3);
        assert(base.region is None) by {
            if has_key(es, name) {
            } else {
                assert(base == blank_credentials());
            }
        }
        assert(c2 == c);
        let ls = profile_lines(name, c);
        assert(ls =~= seq![section_line(name), kl, sl, e]);
        let l0 = Seq::<Seq<char>>::empty();
        lemma_read_lines_push(st, l0, section_line(name));
        lemma_read_lines_push(st, l0.push(section_line(name)), kl);
        lemma_read_lines_push(st, l0.push(section_line(name)).push(kl), sl);
        lemma_read_lines_push(st, l0.push(section_line(name)).push(kl).push(sl), e);
        assert(ls =~= l0.push(section_line(name)).push(kl).push(sl).push(e));
    }
}

// ---------------------------------------------------------------------------
// The lines of many profiles
// ---------------------------------------------------------------------------
/// Every line written for printable profiles is plain.
pub proof fn lemma_credentials_lines_plain(es: Seq<(Seq<char>, CredentialsView)>)
    requires
        forall|j: int| 0 <= j < es.len() ==> printable_profile(#[trigger] es[j].0, es[j].1),
    ensures
        forall|k: int| 0 <= k < credentials_lines(es).len() ==> is_plain_line(
            #[trigger] credentials_lines(es)[k],
        ),
    decreases es.len(),
{
    if es.len() > 0 {
        let rest = es.drop_last();
        assert forall|j: int| 0 <= j < rest.len() implies printable_profile(
            #[trigger] rest[j].0,
            rest[j].1,
        ) by {
            assert(rest[j] == es[j]);
        }
        lemma_credentials_lines_plain(rest);
        let last = es.last();
        assert(printable_profile(es[es.len() - 1].0, es[es.len() - 1].1));
        lemma_profile_lines_plain(last.0, last.1);
        let a = credentials_lines(rest);
        let b = profile_lines(last.0, last.1);
        assert forall|k: int| 0 <= k < (a + b).len() implies is_plain_line(#[trigger] (a + b)[k]) by {
            if k < a.len() {
                assert((a + b)[k] == a[k]);
            } else {
                assert((a + b)[k] == b[k - a.len()]);
            }
        }
    }
}

/// The entries after reading the first `n` profiles of `u` over the entries `e`.
pub open spec fn merge_prefix(
    e: Seq<(Seq<char>, CredentialsView)>,
    u: Seq<(Seq<char>, CredentialsView)>,
    n: int,
) -> Seq<(Seq<char>, CredentialsView)> {
    if n < e.len() {
        u.take(n) + e.skip(n)
    } else {
        u.take(n)
    }
}

/// `e` names the first profiles of `u` in the same order, and each of them
/// that has no region in `u` has none in `e` either.
pub open spec fn leads_into(e: Seq<(Seq<char>, CredentialsView)>, u: Seq<(Seq<char>, CredentialsView)>) -> bool {
    &&& e.len() <= u.len()
    &&& forall|j: int|
        0 <= j < e.len() ==> (#[trigger] e[j]).0 == u[j].0 && (u[j].1.region is None
            ==> e[j].1.region is None)
}

/// Reading the lines written for the first `n` profiles of `u` over profiles
/// `e` that lead into `u` replaces the first `n` of them by those of `u`.
pub proof fn lemma_read_credentials_prefix(st: ReadState, u: Seq<(Seq<char>, CredentialsView)>, n: int)
    requires
        printable_entries(u),
        keys_unique(st.1),
        leads_into(st.1, u),
        0 <= n <= u.len(),
    ensures
        read_lines(st, credentials_lines(u.take(n))).1 == merge_prefix(st.1, u, n),
    decreases n,
{
    let e = st.1;
    if n == 0 {
        assert(u.take(0) =~= Seq::<(Seq<char>, CredentialsView)>::empty());
        assert(credentials_lines(u.take(0)) =~= Seq::<Seq<char>>::empty());
        if 0 < e.len() {
            assert(u.take(0) + e.skip(0) =~= e);
        } else {
            assert(e =~= Seq::<(Seq<char>, CredentialsView)>::empty());
        }
    } else {
        lemma_read_credentials_prefix(st, u, n - 1);
        let prev = read_lines(st, credentials_lines(u.take(n - 1)));
        let m = merge_prefix(e, u, n - 1);
        assert(u.take(n).drop_last() =~= u.take(n - 1));
        assert(u.take(n).last() == u[n - 1]);
        lemma_read_lines_concat(
            st,
            credentials_lines(u.take(n - 1)),
            profile_lines(u[n - 1].0, u[n - 1].1),
        );
        let name = u[n - 1].0;
        let c = u[n - 1].1;
        // the names of `m` are those of `u`, position by position
        assert forall|j: int| 0 <= j < m.len() implies (#[trigger] m[j]).0 == u[j].0 by {
            if n - 1 < e.len() {
                if j < n - 1 {
                    assert(m[j] == u[j]);
                } else {
                    assert(m[j] == e[j]);
                }
            } else {
                assert(m[j] == u[j]);
            }
        }
        assert(m.len() <= u.len());
        assert(keys_unique(m)) by {
            assert forall|a: int, b: int|
                0 <= a < m.len() && 0 <= b < m.len() && a != b implies (#[trigger] m[a]).0 != (
                #[trigger] m[b]).0 by {
                assert(m[a].0 == u[a].0);
                assert(m[b].0 == u[b].0);
            }
        }
        assert(printable_profile(u[n - 1].0, u[n - 1].1));
        if n - 1 < e.len() {
            assert(m[n - 1] == e[n - 1]);
            assert(m[n - 1].0 == name);
            lemma_entries_to_map_at(m, n - 1);
            assert(c.region is None ==> entries_to_map(m)[name].region is None);
        } else {
            assert(m =~= u.take(n - 1));
            assert(!has_key(m, name)) by {
                if has_key(m, name) {
                    let j = choose|j: int| 0 <= j < m.len() && (#[trigger] m[j]).0 == name;
                    assert(u[j].0 == u[n - 1].0);
                }
            }
        }
        lemma_read_profile(prev, name, c);
        let r = entries_insert(m, name, c);
        if n - 1 < e.len() {
            assert(has_key(m, name)) by {
                assert(m[n - 1].0 == name);
            }
            let i = choose|i: int| 0 <= i < m.len() && (#[trigger] m[i]).0 == name;
            assert(m[i].0 == m[n - 1].0);
            assert(i == n - 1);
            assert(r == m.update(n - 1, (name, c)));
            if n < e.len() {
                assert(r =~= u.take(n) + e.skip(n));
            } else {
                assert(r =~= u.take(n));
            }
        } else {
            assert(r =~= u.take(n));
        }
    }
}

/// Reading a file whose lines are those written for `u` over profiles that lead
/// into `u` gives exactly `u`.
pub proof fn lemma_read_credentials_lines(st: ReadState, u: Seq<(Seq<char>, CredentialsView)>)
    requires
        printable_entries(u),
        keys_unique(st.1),
        leads_into(st.1, u),
    ensures
        read_lines(st, credentials_lines(u)).1 == u,
{
    lemma_read_credentials_prefix(st, u, u.len() as int);
    assert(u.take(u.len() as int) =~= u);
}

// ---------------------------------------------------------------------------
// What is read can be written
// ---------------------------------------------------------------------------
/// The state of reading holds printable profiles and a one-line open profile.
pub open spec fn read_state_ok(st: ReadState) -> bool {
    &&& printable_entries(st.1)
    &&& st.0 matches Some(p) ==> !p.contains('\n')
}

/// Setting a printable profile keeps the entries printable.
proof fn lemma_insert_printable(es: Seq<(Seq<char>, CredentialsView)>, k: Seq<char>, v: CredentialsView)
    requires
        printable_entries(es),
        printable_profile(k, v),
    ensures
        printable_entries(entries_insert(es, k, v)),
{
    lemma_entries_insert(es, k, v);
    let r = entries_insert(es, k, v);
    if has_key(es, k) {
        let i = choose|i: int| 0 <= i < es.len() && (#[trigger] es[i]).0 == k;
        assert forall|j: int| 0 <= j < r.len() implies printable_profile(#[trigger] r[j].0, r[j].1) by {
            if j != i {
                assert(r[j] == es[j]);
            }
        }
    } else {
        assert forall|j: int| 0 <= j < r.len() implies printable_profile(#[trigger] r[j].0, r[j].1) by {
            if j < es.len() {
                assert(r[j] == es[j]);
            }
        }
    }
}

/// One step of reading a line without `'\n'` keeps the state sound.
proof fn lemma_read_step_ok(st: ReadState, line: Seq<char>)
    requires
        read_state_ok(st),
        !line.contains('\n'),
    ensures
        read_state_ok(read_step(st, line)),
{
    let t = trim(line);
    lemma_trim_lacks(line, '\n');
    if is_section(t) {
        lemma_subrange_lacks(t, '\n', 1, t.len() - 1);
    } else if st.0 is Some && split_once(t, '=') is Some {
        let p = st.0->0;
        lemma_first_index_exists_for(t);
        let i = choose|i: int| is_first_index(t, '=', i);
        let kv = split_once(t, '=')->0;
        assert(kv.1 == t.skip(i + 1));
        assert(t.skip(i + 1) == t.subrange(i + 1, t.len() as int));
        lemma_subrange_lacks(t, '\n', i + 1, t.len() as int);
        let v = trim(kv.1);
        lemma_trim_lacks(kv.1, '\n');
        lemma_trim_idem(kv.1);
        assert(plain_value(v));
        match field_named(trim(kv.0)) {
            Some(f) => {
                let es = st.1;
                let cur = current_or_blank(es, p);
                assert(printable_profile(p, cur)) by {
                    if has_key(es, p) {
                        let j = choose|j: int| 0 <= j < es.len() && (#[trigger] es[j]).0 == p;
                        lemma_entries_to_map_at(es, j);
                        assert(printable_profile(es[j].0, es[j].1));
                    } else {
                        let e = Seq::<char>::empty();
                        assert(trim_start(e) == e);
                        assert(trim_end(e) == e);
                        assert(plain_value(e));
                    }
                }
                lemma_insert_printable(es, p, with_field(cur, f, v));
            },
            None => {},
        }
    }
}

/// Where a text holds `'='`, it has a first one.
proof fn lemma_first_index_exists_for(t: Seq<char>)
    requires
        split_once(t, '=') is Some,
    ensures
        exists|i: int| is_first_index(t, '=', i),
{
    crate::text::lemma_first_index_exists(t, '=');
}

/// Reading lines without `'\n'` keeps the state sound.
pub proof fn lemma_read_lines_ok(st: ReadState, ls: Seq<Seq<char>>)
    requires
        read_state_ok(st),
        forall|k: int| 0 <= k < ls.len() ==> !(#[trigger] ls[k]).contains('\n'),
    ensures
        read_state_ok(read_lines(st, ls)),
    decreases ls.len(),
{
    if ls.len() > 0 {
        let rest = ls.drop_last();
        assert forall|k: int| 0 <= k < rest.len() implies !(#[trigger] rest[k]).contains('\n') by {
            assert(rest[k] == ls[k]);
        }
        lemma_read_lines_ok(st, rest);
        assert(ls[ls.len() - 1] == ls.last());
        lemma_read_step_ok(read_lines(st, rest), ls.last());
    }
}

/// Every file is read as printable profiles with distinct names: each profile
/// has both keys, and every value is trimmed and on one line.
pub proof fn lemma_parsed_entries_printable(contents: Seq<char>)
    ensures
        printable_entries(parsed_entries(contents)),
{
    lemma_lines_no_newline(contents);
    assert(read_state_ok(start_state()));
    lemma_read_lines_ok(start_state(), lines_of(contents));
}

// ---------------------------------------------------------------------------
// The laws
// ---------------------------------------------------------------------------
/// Writing printable profiles with distinct names and reading the text back
/// gives the same profiles in the same order.
pub proof fn lemma_credentials_round_trip(es: Seq<(Seq<char>, CredentialsView)>)
    requires
        printable_entries(es),
    ensures
        parsed_entries(credentials_text(es)) == es,
{
    lemma_credentials_lines_plain(es);
    lemma_lines_of_join(credentials_lines(es));
    lemma_read_credentials_lines(start_state(), es);
}

/// Reading a file, writing what was read, and reading again gives what the
/// first reading gave.
pub proof fn lemma_rewrite_is_stable(contents: Seq<char>)
    ensures
        parsed_entries(credentials_text(parsed_entries(contents))) == parsed_entries(contents),
{
    lemma_parsed_entries_printable(contents);
    lemma_credentials_round_trip(parsed_entries(contents));
}

/// Where the credentials file is empty or ends with a line break and the
/// values are trimmed one-line texts, the file after appending what
/// `credentials_to_append` computes (or after nothing, where it computes
/// nothing) holds a profile with exactly these values; where it appends,
/// the file is read as the profiles read before with profile `rndr` set to them.
pub proof fn lemma_appended_credentials_read_back(
    contents: Seq<char>,
    aws_access_key_id: Seq<char>,
    aws_secret_access_key: Seq<char>,
    region: Seq<char>,
)
    requires
        contents.len() == 0 || contents.last() == '\n',
        plain_value(aws_access_key_id),
        plain_value(aws_secret_access_key),
        plain_value(region),
    ensures
        ({
            let after = match credentials_to_append_spec(
                contents,
                aws_access_key_id,
                aws_secret_access_key,
                region,
            ) {
                Some(t) => contents + t,
                None => contents,
            };
            &&& has_credentials(
                parsed_entries(after),
                aws_access_key_id,
                aws_secret_access_key,
                region,
            )
            &&& credentials_to_append_spec(
                contents,
                aws_access_key_id,
                aws_secret_access_key,
                region,
            ) is Some ==> parsed_entries(after) == updated_entries(
                parsed_entries(contents),
                app_profile(),
                Some(aws_access_key_id),
                Some(aws_secret_access_key),
                Some(region),
            )
        }),
{
    let e = parsed_entries(contents);
    if !has_credentials(e, aws_access_key_id, aws_secret_access_key, region) {
        let u = updated_entries(
            e,
            app_profile(),
            Some(aws_access_key_id),
            Some(aws_secret_access_key),
            Some(region),
        );
        lemma_update_for_append(contents, aws_access_key_id, aws_secret_access_key, region);
        lemma_credentials_lines_plain(u);
        lemma_lines_of_append(contents, credentials_lines(u));
        let before = read_lines(start_state(), lines_of(contents));
        lemma_read_lines_concat(start_state(), lines_of(contents), credentials_lines(u));
        lemma_read_credentials_lines(before, u);
    }
}

/// The lines written for each profile stand together among the lines written
/// for all of them.
pub proof fn lemma_profile_lines_within(u: Seq<(Seq<char>, CredentialsView)>, j: int)
    requires
        0 <= j < u.len(),
    ensures
        exists|off: int|
            0 <= off && off + profile_lines(u[j].0, u[j].1).len() <= credentials_lines(u).len()
                && #[trigger] credentials_lines(u).subrange(
                off,
                off + profile_lines(u[j].0, u[j].1).len(),
            ) == profile_lines(u[j].0, u[j].1),
    decreases u.len(),
{
    let rest = u.drop_last();
    let a = credentials_lines(rest);
    let b = profile_lines(u.last().0, u.last().1);
    assert(credentials_lines(u) == a + b);
    if j == u.len() - 1 {
        let off = a.len() as int;
        assert((a + b).subrange(off, off + b.len()) =~= b);
    } else {
        assert(rest[j] == u[j]);
        lemma_profile_lines_within(rest, j);
        let pl = profile_lines(u[j].0, u[j].1);
        let off = choose|off: int|
            0 <= off && off + pl.len() <= a.len() && #[trigger] a.subrange(off, off + pl.len()) == pl;
        assert((a + b).subrange(off, off + pl.len()) =~= a.subrange(off, off + pl.len()));
    }
}

/// The line `key = v` is read by the credentials check as naming `key`.
proof fn lemma_key_line_names_key(key: Seq<char>, v: Seq<char>)
    requires
        line_key(key),
    ensures
        !is_skipped_auth_line(key_line(key, v)),
        setting_of(key_line(key, v)).0 == key,
{
    let line = key_line(key, v);
    let head = key + seq![' '];
    assert(!head.contains('=')) by {
        if head.contains('=') {
            let j = choose|j: int| 0 <= j < head.len() && head[j] == '=';
            assert(key[j] == '=');
        }
    }
    assert(line =~= head + seq!['='] + (seq![' '] + v));
    lemma_split_once_concat(head, '=', seq![' '] + v);
    lemma_trim_key_space(key);
    assert(line[0] == key[0]);
}

/// Lines that include the lines written for a printable profile holding
/// all three values name all three keys.
proof fn lemma_lines_with_full_profile_complete(
    pre: Seq<Seq<char>>,
    u: Seq<(Seq<char>, CredentialsView)>,
    j: int,
    aws_access_key_id: Seq<char>,
    aws_secret_access_key: Seq<char>,
    region: Seq<char>,
)
    requires
        0 <= j < u.len(),
        u[j].1 == full_credentials(aws_access_key_id, aws_secret_access_key, region),
    ensures
        auth_file_complete(pre + credentials_lines(u)),
{
    lemma_key_texts();
    let ls = pre + credentials_lines(u);
    lemma_profile_lines_within(u, j);
    let pl = profile_lines(u[j].0, u[j].1);
    let cl = credentials_lines(u);
    let off = choose|off: int|
        0 <= off && off + pl.len() <= cl.len() && #[trigger] cl.subrange(off, off + pl.len()) == pl;
    let base = pre.len() + off;
    let kl = key_line("aws_access_key_id"@, aws_access_key_id);
    let sl = key_line("aws_secret_access_key"@, aws_secret_access_key);
    let rl = key_line("region"@, region);
    assert(pl =~= seq![section_line(u[j].0), kl, sl, rl, Seq::<char>::empty()]);
    assert(ls[base + 1] == kl) by {
        assert(cl.subrange(off, off + pl.len())[1] == cl[off + 1]);
    }
    assert(ls[base + 2] == sl) by {
        assert(cl.subrange(off, off + pl.len())[2] == cl[off + 2]);
    }
    assert(ls[base + 3] == rl) by {
        assert(cl.subrange(off, off + pl.len())[3] == cl[off + 3]);
    }
    lemma_key_line_names_key("aws_access_key_id"@, aws_access_key_id);
    lemma_key_line_names_key("aws_secret_access_key"@, aws_secret_access_key);
    lemma_key_line_names_key("region"@, region);
    assert(names_key(ls, "aws_access_key_id"@));
    assert(names_key(ls, "aws_secret_access_key"@));
    assert(names_key(ls, "region"@));
}

/// What the update of profile `rndr` gives when credentials are appended.
proof fn lemma_update_for_append(
    contents: Seq<char>,
    aws_access_key_id: Seq<char>,
    aws_secret_access_key: Seq<char>,
    region: Seq<char>,
)
    requires
        plain_value(aws_access_key_id),
        plain_value(aws_secret_access_key),
        plain_value(region),
    ensures
        ({
            let e = parsed_entries(contents);
            let u = updated_entries(
                e,
                app_profile(),
                Some(aws_access_key_id),
                Some(aws_secret_access_key),
                Some(region),
            );
            &&& printable_entries(e)
            &&& printable_entries(u)
            &&& leads_into(e, u)
            &&& exists|j: int|
                0 <= j < u.len() && (#[trigger] u[j]).1 == full_credentials(
                    aws_access_key_id,
                    aws_secret_access_key,
                    region,
                )
        }),
{
    let e = parsed_entries(contents);
    let full = full_credentials(aws_access_key_id, aws_secret_access_key, region);
    let name = app_profile();
    lemma_parsed_entries_printable(contents);
    lemma_key_texts();
    assert(merged_credentials(
        profile_of(e, name),
        Some(aws_access_key_id),
        Some(aws_secret_access_key),
        Some(region),
    ) == full);
    let u = updated_entries(e, name, Some(aws_access_key_id), Some(aws_secret_access_key), Some(region));
    assert(u == entries_insert(e, name, full));
    assert(printable_profile(name, full));
    lemma_insert_printable(e, name, full);
    lemma_entries_insert(e, name, full);
    assert(leads_into(e, u)) by {
        if has_key(e, name) {
            let i = choose|i: int| 0 <= i < e.len() && (#[trigger] e[i]).0 == name;
            assert forall|j: int| 0 <= j < e.len() implies (#[trigger] e[j]).0 == u[j].0 && (
            u[j].1.region is None ==> e[j].1.region is None) by {
                if j != i {
                    assert(u[j] == e[j]);
                }
            }
        } else {
            assert forall|j: int| 0 <= j < e.len() implies (#[trigger] e[j]).0 == u[j].0 && (
            u[j].1.region is None ==> e[j].1.region is None) by {
                assert(u[j] == e[j]);
            }
        }
    }
    let j = choose|j: int| 0 <= j < u.len() && (#[trigger] u[j]).0 == name;
    lemma_entries_to_map_at(u, j);
    assert(u[j].1 == full);
}

/// Where the credentials file is empty or ends with a line break and the
/// values are trimmed one-line texts, the file after appending what
/// `credentials_to_append` computes passes the credentials check: it names
/// `aws_access_key_id`, `aws_secret_access_key` and `region`.
pub proof fn lemma_appended_credentials_pass_check(
    contents: Seq<char>,
    aws_access_key_id: Seq<char>,
    aws_secret_access_key: Seq<char>,
    region: Seq<char>,
)
    requires
        contents.len() == 0 || contents.last() == '\n',
        plain_value(aws_access_key_id),
        plain_value(aws_secret_access_key),
        plain_value(region),
        credentials_to_append_spec(contents, aws_access_key_id, aws_secret_access_key, region) is Some,
    ensures
        auth_file_complete(
            lines_of(
                contents + credentials_to_append_spec(
                    contents,
                    aws_access_key_id,
                    aws_secret_access_key,
                    region,
                )->0,
            ),
        ),
{
    let e = parsed_entries(contents);
    let u = updated_entries(
        e,
        app_profile(),
        Some(aws_access_key_id),
        Some(aws_secret_access_key),
        Some(region),
    );
    lemma_update_for_append(contents, aws_access_key_id, aws_secret_access_key, region);
    lemma_credentials_lines_plain(u);
    lemma_lines_of_append(contents, credentials_lines(u));
    let j = choose|j: int|
        0 <= j < u.len() && (#[trigger] u[j]).1 == full_credentials(
            aws_access_key_id,
            aws_secret_access_key,
            region,
        );
    lemma_lines_with_full_profile_complete(
        lines_of(contents),
        u,
        j,
        aws_access_key_id,
        aws_secret_access_key,
        region,
    );
}

// ---------------------------------------------------------------------------
// Credentials that are already there
// ---------------------------------------------------------------------------
/// A line that the reader takes as setting a field is one that the
/// credentials check reads as naming that field's key.
proof fn lemma_field_line_is_named(l: Seq<char>)
    requires
        !is_section(trim(l)),
        split_once(trim(l), '=') is Some,
    ensures
        !is_skipped_auth_line(l),
        setting_of(l).0 == trim((split_once(trim(l), '=')->0).0),
{
    let t = trim(l);
    lemma_first_index_exists_for(t);
    let i = choose|i: int| is_first_index(t, '=', i);
    assert(l.len() > 0) by {
        if l.len() == 0 {
            assert(trim_start(l) == l);
            assert(trim_end(l) == l);
        }
    }
    if l[0] == '[' && l.last() == ']' {
        lemma_trim_fixed(l);
    }
    crate::text::lemma_trim_start_drops_white(l);
    let a = choose|a: int|
        0 <= a <= l.len() && trim_start(l) == l.subrange(a, l.len() as int) && forall|j: int|
            0 <= j < a ==> is_white(#[trigger] l[j]);
    let u = trim_start(l);
    crate::text::lemma_trim_end_shape(u);
    let b = choose|b: int| 0 <= b <= u.len() && trim_end(u) == u.subrange(0, b);
    assert(t == l.subrange(a, a + b));
    // the first '=' of `l` is that of `t`
    assert(l[a + i] == '=');
    assert forall|j: int| 0 <= j < a + i implies l[j] != '=' by {
        if j < a {
            assert(is_white(l[j]));
        } else {
            assert(l[j] == t[j - a]);
        }
    }
    assert(is_first_index(l, '=', a + i));
    assert(l.contains('='));
    let k = choose|k: int| is_first_index(l, '=', k);
    crate::text::lemma_first_index_unique(l, '=', k, a + i);
    assert(l.take(a + i) =~= l.take(a) + t.take(i));
    assert forall|j: int| 0 <= j < l.take(a).len() implies is_white(#[trigger] l.take(a)[j]) by {
        assert(l.take(a)[j] == l[j]);
    }
    crate::text::lemma_trim_white_prefix(l.take(a), t.take(i));
}

/// The key of a field.
pub open spec fn field_key(f: CredentialField) -> Seq<char> {
    match f {
        CredentialField::AccessKeyId => "aws_access_key_id"@,
        CredentialField::SecretAccessKey => "aws_secret_access_key"@,
        CredentialField::Region => "region"@,
    }
}

/// Each field of the profiles `es` that holds a non-empty value has its key
/// named by a line of `ls`, as the credentials check reads lines.
pub open spec fn fields_named(es: Seq<(Seq<char>, CredentialsView)>, ls: Seq<Seq<char>>) -> bool {
    forall|j: int|
        0 <= j < es.len() ==> {
            &&& ((#[trigger] es[j]).1.aws_access_key_id matches Some(v) && v.len() > 0 ==> names_key(
                ls,
                "aws_access_key_id"@,
            ))
            &&& (es[j].1.aws_secret_access_key matches Some(v) && v.len() > 0 ==> names_key(
                ls,
                "aws_secret_access_key"@,
            ))
            &&& (es[j].1.region matches Some(v) && v.len() > 0 ==> names_key(ls, "region"@))
        }
}

/// A key named by some lines is named by those lines and one more.
proof fn lemma_names_key_grows(ls: Seq<Seq<char>>, l: Seq<char>, key: Seq<char>)
    requires
        names_key(ls, key),
    ensures
        names_key(ls.push(l), key),
{
    let k = choose|k: int|
        0 <= k < ls.len() && !is_skipped_auth_line(#[trigger] ls[k]) && setting_of(ls[k]).0 == key;
    assert(ls.push(l)[k] == ls[k]);
}

/// Reading the lines `ls` leaves every non-empty field named by them.
proof fn lemma_read_lines_fields_named(ls: Seq<Seq<char>>)
    requires
        forall|k: int| 0 <= k < ls.len() ==> !(#[trigger] ls[k]).contains('\n'),
    ensures
        fields_named(read_lines(start_state(), ls).1, ls),
    decreases ls.len(),
{
    if ls.len() > 0 {
        let rest = ls.drop_last();
        let l = ls.last();
        assert forall|k: int| 0 <= k < rest.len() implies !(#[trigger] rest[k]).contains('\n') by {
            assert(rest[k] == ls[k]);
        }
        lemma_read_lines_fields_named(rest);
        assert(read_state_ok(start_state()));
        lemma_read_lines_ok(start_state(), rest);
        let st = read_lines(start_state(), rest);
        let es = st.1;
        assert(ls == rest.push(l));
        let r = read_step(st, l).1;
        lemma_key_texts();
        // what `rest` named, `ls` names
        assert forall|key: Seq<char>| names_key(rest, key) implies names_key(ls, key) by {
            lemma_names_key_grows(rest, l, key);
        }
        let t = trim(l);
        if !is_section(t) && st.0 is Some && split_once(t, '=') is Some && field_named(
            trim((split_once(t, '=')->0).0),
        ) is Some {
            let p = st.0->0;
            let kv = split_once(t, '=')->0;
            let f = field_named(trim(kv.0))->0;
            let v = trim(kv.1);
            let cur = current_or_blank(es, p);
            let nv = with_field(cur, f, v);
            lemma_field_line_is_named(l);
            assert(trim(kv.0) == field_key(f));
            assert(names_key(ls, field_key(f))) by {
                assert(ls[ls.len() - 1] == l);
            }
            // the fields of the profile as it was are named
            assert(cur.aws_access_key_id matches Some(x) && x.len() > 0 ==> names_key(
                ls,
                "aws_access_key_id"@,
            )) by {
                if has_key(es, p) {
                    let i = choose|i: int| 0 <= i < es.len() && (#[trigger] es[i]).0 == p;
                    lemma_entries_to_map_at(es, i);
                }
            }
            assert(cur.aws_secret_access_key matches Some(x) && x.len() > 0 ==> names_key(
                ls,
                "aws_secret_access_key"@,
            )) by {
                if has_key(es, p) {
                    let i = choose|i: int| 0 <= i < es.len() && (#[trigger] es[i]).0 == p;
                    lemma_entries_to_map_at(es, i);
                }
            }
            assert(cur.region matches Some(x) && x.len() > 0 ==> names_key(ls, "region"@)) by {
                if has_key(es, p) {
                    let i = choose|i: int| 0 <= i < es.len() && (#[trigger] es[i]).0 == p;
                    lemma_entries_to_map_at(es, i);
                }
            }
            assert(r == entries_insert(es, p, nv));
            if has_key(es, p) {
                let i = choose|i: int| 0 <= i < es.len() && (#[trigger] es[i]).0 == p;
                assert forall|j: int| 0 <= j < r.len() implies {
                    &&& ((#[trigger] r[j]).1.aws_access_key_id matches Some(v) && v.len() > 0
                        ==> names_key(ls, "aws_access_key_id"@))
                    &&& (r[j].1.aws_secret_access_key matches Some(v) && v.len() > 0 ==> names_key(
                        ls,
                        "aws_secret_access_key"@,
                    ))
                    &&& (r[j].1.region matches Some(v) && v.len() > 0 ==> names_key(ls, "region"@))
                } by {
                    if j != i {
                        assert(r[j] == es[j]);
                    }
                }
            } else {
                assert forall|j: int| 0 <= j < r.len() implies {
                    &&& ((#[trigger] r[j]).1.aws_access_key_id matches Some(v) && v.len() > 0
                        ==> names_key(ls, "aws_access_key_id"@))
                    &&& (r[j].1.aws_secret_access_key matches Some(v) && v.len() > 0 ==> names_key(
                        ls,
                        "aws_secret_access_key"@,
                    ))
                    &&& (r[j].1.region matches Some(v) && v.len() > 0 ==> names_key(ls, "region"@))
                } by {
                    if j < es.len() {
                        assert(r[j] == es[j]);
                    }
                }
            }
        } else {
            assert(r == es);
        }
    }
}

/// Where no credentials are appended because a profile already holds the
/// given values, and those values are not empty, the file already passes
/// the credentials check.
pub proof fn lemma_existing_credentials_pass_check(
    contents: Seq<char>,
    aws_access_key_id: Seq<char>,
    aws_secret_access_key: Seq<char>,
    region: Seq<char>,
)
    requires
        aws_access_key_id.len() > 0,
        aws_secret_access_key.len() > 0,
        region.len() > 0,
        credentials_to_append_spec(contents, aws_access_key_id, aws_secret_access_key, region) is None,
    ensures
        auth_file_complete(lines_of(contents)),
{
    let es = parsed_entries(contents);
    lemma_lines_no_newline(contents);
    lemma_read_lines_fields_named(lines_of(contents));
    let j = choose|j: int|
        0 <= j < es.len() && (#[trigger] es[j]).1 == full_credentials(
            aws_access_key_id,
            aws_secret_access_key,
            region,
        );
    assert(fields_named(es, lines_of(contents)));
    assert(es[j].1.aws_access_key_id == Some(aws_access_key_id));
}

// ---------------------------------------------------------------------------
// What the settings screen shows after writing
// ---------------------------------------------------------------------------
/// A text that begins with a piece free of `'['` holds `[default]` only where
/// the rest does.
proof fn lemma_no_default_after_prefix(p: Seq<char>, v: Seq<char>)
    requires
        !p.contains('['),
        !has_substring(v, "[default]"@),
    ensures
        !has_substring(p + v, "[default]"@),
{
    reveal_strlit("[default]");
    let d = "[default]"@;
    let s = p + v;
    if has_substring(s, d) {
        let i = choose|i: int| 0 <= i && i + d.len() <= s.len() && #[trigger] s.subrange(i, i + d.len()) == d;
        if i < p.len() {
            assert(s.subrange(i, i + d.len())[0] == s[i]);
            assert(s[i] == p[i]);
        } else {
            assert(v.subrange(i - p.len(), i - p.len() + d.len()) =~= s.subrange(i, i + d.len()));
        }
    }
}

/// The settings screen reads the line `key = v` as setting `key` to `v`.
proof fn lemma_key_line_setting(key: Seq<char>, v: Seq<char>)
    requires
        line_key(key),
        plain_value(v),
    ensures
        key_line(key, v).len() > 0,
        setting_of(key_line(key, v)) == (key, v),
{
    let line = key_line(key, v);
    let head = key + seq![' '];
    assert(!head.contains('=')) by {
        if head.contains('=') {
            let j = choose|j: int| 0 <= j < head.len() && head[j] == '=';
            assert(key[j] == '=');
        }
    }
    assert(line =~= head + seq!['='] + (seq![' '] + v));
    lemma_split_once_concat(head, '=', seq![' '] + v);
    lemma_trim_key_space(key);
    lemma_plain_value_ends(v);
    let y = seq![' '] + v;
    if v.len() > 0 {
        assert(y[1] == v[0]);
        lemma_trim_start_at(y, 1);
        assert(y.subrange(1, y.len() as int) =~= v);
        lemma_trim_start_at(v, 0);
        assert(v.subrange(0, v.len() as int) =~= v);
    } else {
        lemma_trim_start_at(y, 1);
        assert(y.subrange(1, 1) =~= v);
        assert(trim_end(v) == v);
    }
}

/// A key line whose key and value hold no `[default]` is read by the settings
/// screen as setting that key to the value.
proof fn lemma_key_line_shown(key: Seq<char>, v: Seq<char>)
    requires
        line_key(key),
        !key.contains('['),
        plain_value(v),
        !has_substring(v, "[default]"@),
    ensures
        key_line(key, v).len() > 0,
        !has_substring(key_line(key, v), "[default]"@),
        setting_of(key_line(key, v)) == (key, v),
{
    lemma_key_line_setting(key, v);
    assert(!(seq![' ', '=', ' ']).contains('['));
    lemma_no_bracket_concat(key, seq![' ', '=', ' ']);
    lemma_no_default_after_prefix(key + seq![' ', '=', ' '], v);
}

/// After the lines of a full profile `rndr`, the settings screen shows that
/// profile's values, whatever came before.
proof fn lemma_shown_profile_tail(
    pre: Seq<Seq<char>>,
    aws_access_key_id: Seq<char>,
    aws_secret_access_key: Seq<char>,
    region: Seq<char>,
)
    requires
        plain_value(aws_access_key_id),
        plain_value(aws_secret_access_key),
        plain_value(region),
        !has_substring(aws_access_key_id, "[default]"@),
        !has_substring(aws_secret_access_key, "[default]"@),
        !has_substring(region, "[default]"@),
    ensures
        shown_credentials(
            pre + profile_lines(
                app_profile(),
                full_credentials(aws_access_key_id, aws_secret_access_key, region),
            ),
        ) == full_credentials(aws_access_key_id, aws_secret_access_key, region),
{
    let full = full_credentials(aws_access_key_id, aws_secret_access_key, region);
    let ka = "aws_access_key_id"@;
    let ks = "aws_secret_access_key"@;
    let kr = "region"@;
    lemma_key_texts();
    reveal_strlit("aws_access_key_id");
    reveal_strlit("aws_secret_access_key");
    reveal_strlit("region");
    reveal_strlit("rndr");
    assert(!ka.contains('['));
    assert(!ks.contains('['));
    assert(!kr.contains('['));
    lemma_key_line_shown(ka, aws_access_key_id);
    lemma_key_line_shown(ks, aws_secret_access_key);
    lemma_key_line_shown(kr, region);
    let kl = key_line(ka, aws_access_key_id);
    let sl = key_line(ks, aws_secret_access_key);
    let rl = key_line(kr, region);
    let hd = section_line(app_profile());
    let em = Seq::<char>::empty();
    assert(profile_lines(app_profile(), full) =~= seq![hd, kl, sl, rl, em]);
    // the header names no key
    assert(hd =~= seq!['[', 'r', 'n', 'd', 'r', ']']);
    assert(!hd.contains('=')) by {
        assert(hd[0] != '=' && hd[1] != '=' && hd[2] != '=' && hd[3] != '=' && hd[4] != '='
            && hd[5] != '=');
    }
    lemma_trim_fixed(hd);
    assert(setting_of(hd).0 == hd);
    assert(hd != ka && hd != ks);
    assert(hd[0] != kr[0]);
    let l1 = pre.push(hd);
    let l2 = l1.push(kl);
    let l3 = l2.push(sl);
    let l4 = l3.push(rl);
    let l5 = l4.push(em);
    assert(pre + profile_lines(app_profile(), full) =~= l5);
    assert(l1.drop_last() =~= pre && l1.last() == hd);
    assert(l2.drop_last() =~= l1 && l2.last() == kl);
    assert(l3.drop_last() =~= l2 && l3.last() == sl);
    assert(l4.drop_last() =~= l3 && l4.last() == rl);
    assert(l5.drop_last() =~= l4 && l5.last() == em);
    assert(ka != ks && ka != kr && ks != kr);
    assert(shown_credentials(l2).aws_access_key_id == Some(aws_access_key_id));
    assert(shown_credentials(l3).aws_access_key_id == Some(aws_access_key_id));
    assert(shown_credentials(l3).aws_secret_access_key == Some(aws_secret_access_key));
    assert(shown_credentials(l4) == full);
}

/// Where the credentials file is empty or ends with a line break, has no
/// profile `rndr` yet, and the values are trimmed one-line texts without
/// `[default]` in them, the settings screen shows the appended values once
/// they are appended.
pub proof fn lemma_appended_credentials_shown(
    contents: Seq<char>,
    aws_access_key_id: Seq<char>,
    aws_secret_access_key: Seq<char>,
    region: Seq<char>,
)
    requires
        contents.len() == 0 || contents.last() == '\n',
        !has_key(parsed_entries(contents), app_profile()),
        plain_value(aws_access_key_id),
        plain_value(aws_secret_access_key),
        plain_value(region),
        !has_substring(aws_access_key_id, "[default]"@),
        !has_substring(aws_secret_access_key, "[default]"@),
        !has_substring(region, "[default]"@),
        credentials_to_append_spec(contents, aws_access_key_id, aws_secret_access_key, region) is Some,
    ensures
        shown_credentials(
            lines_of(
                contents + credentials_to_append_spec(
                    contents,
                    aws_access_key_id,
                    aws_secret_access_key,
                    region,
                )->0,
            ),
        ) == full_credentials(aws_access_key_id, aws_secret_access_key, region),
{
    let e = parsed_entries(contents);
    let name = app_profile();
    let full = full_credentials(aws_access_key_id, aws_secret_access_key, region);
    lemma_update_for_append(contents, aws_access_key_id, aws_secret_access_key, region);
    let u = updated_entries(e, name, Some(aws_access_key_id), Some(aws_secret_access_key), Some(region));
    assert(u == e.push((name, full)));
    lemma_credentials_lines_plain(u);
    lemma_lines_of_append(contents, credentials_lines(u));
    assert(u.drop_last() =~= e);
    let pre = lines_of(contents) + credentials_lines(e);
    assert(credentials_lines(u) =~= credentials_lines(e) + profile_lines(name, full));
    assert(lines_of(contents) + credentials_lines(u) =~= pre + profile_lines(name, full));
    lemma_shown_profile_tail(pre, aws_access_key_id, aws_secret_access_key, region);
}

/// Two texts without `c` joined hold no `c`.
proof fn lemma_no_bracket_concat(a: Seq<char>, b: Seq<char>)
    requires
        !a.contains('['),
        !b.contains('['),
    ensures
        !(a + b).contains('['),
{
    if (a + b).contains('[') {
        let j = choose|j: int| 0 <= j < (a + b).len() && (a + b)[j] == '[';
        if j < a.len() {
            assert(a[j] == '[');
        } else {
            assert(b[j - a.len()] == '[');
        }
    }
}

} // verus!
