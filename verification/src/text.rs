//! Character-level text handling shared by the file formats of this crate:
//! splitting a text into lines, trimming white space, finding a separator,
//! joining lines back into a text and printing numbers in decimal.
use vstd::prelude::*;

verus! {

// ---------------------------------------------------------------------------
// White space and trimming
// ---------------------------------------------------------------------------
/// The characters with the Unicode `White_Space` property, which is the set
/// that `char::is_whitespace` and `str::trim` use.
pub open spec fn is_white(c: char) -> bool {
    let u = c as u32;
    ||| 0x09 <= u <= 0x0D
    ||| u == 0x20
    ||| u == 0x85
    ||| u == 0xA0
    ||| u == 0x1680
    ||| 0x2000 <= u <= 0x200A
    ||| u == 0x2028
    ||| u == 0x2029
    ||| u == 0x202F
    ||| u == 0x205F
    ||| u == 0x3000
}

/// `s` without its leading white space.
pub open spec fn trim_start(s: Seq<char>) -> Seq<char>
    decreases s.len(),
{
    if s.len() > 0 && is_white(s[0]) {
        trim_start(s.drop_first())
    } else {
        s
    }
}

/// `s` without its trailing white space.
pub open spec fn trim_end(s: Seq<char>) -> Seq<char>
    decreases s.len(),
{
    if s.len() > 0 && is_white(s.last()) {
        trim_end(s.drop_last())
    } else {
        s
    }
}

/// `s` without leading and trailing white space, as `str::trim` gives it.
pub open spec fn trim(s: Seq<char>) -> Seq<char> {
    trim_end(trim_start(s))
}

/// Whether `c` is white space.
pub fn char_is_white(c: char) -> (b: bool)
    ensures
        b == is_white(c),
{
    let u = c as u32;
    (0x09 <= u && u <= 0x0D) || u == 0x20 || u == 0x85 || u == 0xA0 || u == 0x1680 || (0x2000
        <= u && u <= 0x200A) || u == 0x2028 || u == 0x2029 || u == 0x202F || u == 0x205F || u
        == 0x3000
}

/// Dropping white space from the front stops at the first character that is not white.
pub proof fn lemma_trim_start_at(s: Seq<char>, i: int)
    requires
        0 <= i <= s.len(),
        forall|j: int| 0 <= j < i ==> is_white(#[trigger] s[j]),
        i == s.len() || !is_white(s[i]),
    ensures
        trim_start(s) == s.subrange(i, s.len() as int),
    decreases i,
{
    if i == 0 {
        assert(s.subrange(0, s.len() as int) =~= s);
        if s.len() > 0 {
            assert(!is_white(s[0]));
        }
    } else {
        let t = s.drop_first();
        assert forall|j: int| 0 <= j < i - 1 implies is_white(#[trigger] t[j]) by {
            assert(t[j] == s[j + 1]);
        }
        if i - 1 < t.len() {
            assert(t[i - 1] == s[i]);
        }
        lemma_trim_start_at(t, i - 1);
        assert(t.subrange(i - 1, t.len() as int) =~= s.subrange(i, s.len() as int));
    }
}

/// Dropping white space from the back stops at the last character that is not white.
pub proof fn lemma_trim_end_at(s: Seq<char>, k: int)
    requires
        0 <= k <= s.len(),
        forall|j: int| k <= j < s.len() ==> is_white(#[trigger] s[j]),
        k == 0 || !is_white(s[k - 1]),
    ensures
        trim_end(s) == s.subrange(0, k),
    decreases s.len() - k,
{
    if k == s.len() {
        assert(s.subrange(0, k) =~= s);
        if s.len() > 0 {
            assert(!is_white(s.last()));
        }
    } else {
        let t = s.drop_last();
        assert forall|j: int| k <= j < t.len() implies is_white(#[trigger] t[j]) by {
            assert(t[j] == s[j]);
        }
        if k > 0 {
            assert(t[k - 1] == s[k - 1]);
        }
        assert(is_white(s[s.len() - 1]));
        lemma_trim_end_at(t, k);
        assert(t.subrange(0, k) =~= s.subrange(0, k));
    }
}

/// A text that begins and ends with a character that is not white space is its own trim.
pub proof fn lemma_trim_fixed(s: Seq<char>)
    requires
        s.len() == 0 || (!is_white(s[0]) && !is_white(s.last())),
    ensures
        trim(s) == s,
{
    lemma_trim_start_at(s, 0);
    assert(s.subrange(0, s.len() as int) =~= s);
    lemma_trim_end_at(s, s.len() as int);
    assert(s.subrange(0, s.len() as int) =~= s);
}

/// `trim_start` drops a prefix, and what it keeps does not begin with white space.
pub proof fn lemma_trim_start_shape(s: Seq<char>)
    ensures
        exists|a: int| 0 <= a <= s.len() && trim_start(s) == s.subrange(a, s.len() as int),
        trim_start(s).len() > 0 ==> !is_white(trim_start(s)[0]),
    decreases s.len(),
{
    if s.len() > 0 && is_white(s[0]) {
        let t = s.drop_first();
        lemma_trim_start_shape(t);
        let a = choose|a: int| 0 <= a <= t.len() && trim_start(t) == t.subrange(a, t.len() as int);
        assert(t.subrange(a, t.len() as int) =~= s.subrange(a + 1, s.len() as int));
    } else {
        assert(s.subrange(0, s.len() as int) =~= s);
    }
}

/// What `trim_start` drops is white space.
pub proof fn lemma_trim_start_drops_white(s: Seq<char>)
    ensures
        exists|a: int|
            0 <= a <= s.len() && trim_start(s) == s.subrange(a, s.len() as int) && forall|j: int|
                0 <= j < a ==> is_white(#[trigger] s[j]),
    decreases s.len(),
{
    if s.len() > 0 && is_white(s[0]) {
        let t = s.drop_first();
        lemma_trim_start_drops_white(t);
        let a = choose|a: int|
            0 <= a <= t.len() && trim_start(t) == t.subrange(a, t.len() as int) && forall|j: int|
                0 <= j < a ==> is_white(#[trigger] t[j]);
        assert(t.subrange(a, t.len() as int) =~= s.subrange(a + 1, s.len() as int));
        assert forall|j: int| 0 <= j < a + 1 implies is_white(#[trigger] s[j]) by {
            if j > 0 {
                assert(s[j] == t[j - 1]);
            }
        }
    } else {
        assert(s.subrange(0, s.len() as int) =~= s);
    }
}

/// White space before a text does not change its trim.
pub proof fn lemma_trim_white_prefix(w: Seq<char>, x: Seq<char>)
    requires
        forall|j: int| 0 <= j < w.len() ==> is_white(#[trigger] w[j]),
    ensures
        trim(w + x) == trim(x),
    decreases w.len(),
{
    if w.len() > 0 {
        let w1 = w.drop_first();
        assert forall|j: int| 0 <= j < w1.len() implies is_white(#[trigger] w1[j]) by {
            assert(w1[j] == w[j + 1]);
        }
        lemma_trim_white_prefix(w1, x);
        assert((w + x).drop_first() =~= w1 + x);
        assert((w + x)[0] == w[0]);
    } else {
        assert(w + x =~= x);
    }
}

/// `trim_end` drops a suffix, and what it keeps does not end with white space.
pub proof fn lemma_trim_end_shape(s: Seq<char>)
    ensures
        exists|b: int| 0 <= b <= s.len() && trim_end(s) == s.subrange(0, b),
        trim_end(s).len() > 0 ==> !is_white(trim_end(s).last()),
    decreases s.len(),
{
    if s.len() > 0 && is_white(s.last()) {
        let t = s.drop_last();
        lemma_trim_end_shape(t);
        let b = choose|b: int| 0 <= b <= t.len() && trim_end(t) == t.subrange(0, b);
        assert(t.subrange(0, b) =~= s.subrange(0, b));
    } else {
        assert(s.subrange(0, s.len() as int) =~= s);
    }
}

/// The trim of `s` is a piece of `s` that neither begins nor ends with white space.
pub proof fn lemma_trim_shape(s: Seq<char>)
    ensures
        exists|a: int, b: int| 0 <= a <= b <= s.len() && trim(s) == s.subrange(a, b),
        trim(s).len() > 0 ==> !is_white(trim(s)[0]) && !is_white(trim(s).last()),
{
    lemma_trim_start_shape(s);
    let u = trim_start(s);
    let a = choose|a: int| 0 <= a <= s.len() && u == s.subrange(a, s.len() as int);
    lemma_trim_end_shape(u);
    let b = choose|b: int| 0 <= b <= u.len() && trim_end(u) == u.subrange(0, b);
    assert(u.subrange(0, b) =~= s.subrange(a, a + b));
    if trim(s).len() > 0 {
        assert(trim(s)[0] == u[0]);
    }
}

/// Trimming twice is trimming once.
pub proof fn lemma_trim_idem(s: Seq<char>)
    ensures
        trim(trim(s)) == trim(s),
{
    lemma_trim_shape(s);
    lemma_trim_fixed(trim(s));
}

/// A piece of a text without `c` holds no `c`.
pub proof fn lemma_subrange_lacks(s: Seq<char>, c: char, a: int, b: int)
    requires
        0 <= a <= b <= s.len(),
        !s.contains(c),
    ensures
        !s.subrange(a, b).contains(c),
{
    if s.subrange(a, b).contains(c) {
        let j = choose|j: int| 0 <= j < b - a && s.subrange(a, b)[j] == c;
        assert(s[a + j] == c);
    }
}

/// The trim of a text without `c` holds no `c`.
pub proof fn lemma_trim_lacks(s: Seq<char>, c: char)
    requires
        !s.contains(c),
    ensures
        !trim(s).contains(c),
{
    lemma_trim_shape(s);
    let (a, b) = choose|a: int, b: int| 0 <= a <= b <= s.len() && trim(s) == s.subrange(a, b);
    lemma_subrange_lacks(s, c, a, b);
}

/// The positions `lo <= a <= b <= hi` such that `s[a..b]` is the trim of `s[lo..hi]`.
pub fn trim_range(s: &Vec<char>, lo: usize, hi: usize) -> (r: (usize, usize))
    requires
        lo <= hi <= s.len(),
    ensures
        lo <= r.0 <= r.1 <= hi,
        s@.subrange(r.0 as int, r.1 as int) == trim(s@.subrange(lo as int, hi as int)),
{
    let ghost whole = s@.subrange(lo as int, hi as int);
    let mut a = lo;
    while a < hi && char_is_white(s[a])
        invariant
            lo <= a <= hi <= s.len(),
            whole == s@.subrange(lo as int, hi as int),
            forall|j: int| lo <= j < a ==> is_white(#[trigger] s@[j]),
        decreases hi - a,
    {
        a = a + 1;
    }
    proof {
        assert forall|j: int| 0 <= j < a - lo implies is_white(#[trigger] whole[j]) by {
            assert(whole[j] == s@[lo + j]);
        }
        if a < hi {
            assert(whole[a - lo] == s@[a as int]);
        }
        lemma_trim_start_at(whole, a - lo);
        assert(whole.subrange(a - lo, whole.len() as int) =~= s@.subrange(a as int, hi as int));
    }
    let mut b = hi;
    while b > a && char_is_white(s[b - 1])
        invariant
            lo <= a <= b <= hi <= s.len(),
            forall|j: int| b <= j < hi ==> is_white(#[trigger] s@[j]),
        decreases b - a,
    {
        b = b - 1;
    }
    proof {
        let mid = s@.subrange(a as int, hi as int);
        assert forall|j: int| b - a <= j < mid.len() implies is_white(#[trigger] mid[j]) by {
            assert(mid[j] == s@[a + j]);
        }
        if b > a {
            assert(mid[b - a - 1] == s@[b - 1]);
        }
        lemma_trim_end_at(mid, b - a);
        assert(mid.subrange(0, b - a) =~= s@.subrange(a as int, b as int));
    }
    (a, b)
}

// ---------------------------------------------------------------------------
// Searching
// ---------------------------------------------------------------------------
/// `i` is the position of the first `c` in `s`.
pub open spec fn is_first_index(s: Seq<char>, c: char, i: int) -> bool {
    &&& 0 <= i < s.len()
    &&& s[i] == c
    &&& forall|j: int| 0 <= j < i ==> s[j] != c
}

/// The text before the first `c` and the text after it, or `None` where `s`
/// holds no `c` (as `str::split_once` gives them).
pub open spec fn split_once(s: Seq<char>, c: char) -> Option<(Seq<char>, Seq<char>)> {
    if s.contains(c) {
        let i = choose|i: int| is_first_index(s, c, i);
        Some((s.take(i), s.skip(i + 1)))
    } else {
        None
    }
}

/// Where `s` holds a `c`, it has a first one.
pub proof fn lemma_first_index_exists(s: Seq<char>, c: char)
    requires
        s.contains(c),
    ensures
        exists|i: int| is_first_index(s, c, i),
    decreases s.len(),
{
    if s[0] == c {
        assert(is_first_index(s, c, 0));
    } else {
        let t = s.drop_first();
        let k = choose|k: int| 0 <= k < s.len() && s[k] == c;
        assert(t[k - 1] == c);
        lemma_first_index_exists(t, c);
        let i = choose|i: int| is_first_index(t, c, i);
        assert forall|j: int| 0 <= j < i + 1 implies s[j] != c by {
            if j > 0 {
                assert(s[j] == t[j - 1]);
            }
        }
        assert(is_first_index(s, c, i + 1));
    }
}

/// The first `c` is unique.
pub proof fn lemma_first_index_unique(s: Seq<char>, c: char, i: int, k: int)
    requires
        is_first_index(s, c, i),
        is_first_index(s, c, k),
    ensures
        i == k,
{
}

/// Splitting `a + [c] + b` where `a` holds no `c` gives back `a` and `b`.
pub proof fn lemma_split_once_concat(a: Seq<char>, c: char, b: Seq<char>)
    requires
        !a.contains(c),
    ensures
        split_once(a + seq![c] + b, c) == Some((a, b)),
{
    let s = a + seq![c] + b;
    assert(s[a.len() as int] == c);
    assert forall|j: int| 0 <= j < a.len() implies s[j] != c by {
        assert(s[j] == a[j]);
    }
    assert(is_first_index(s, c, a.len() as int));
    let i = choose|i: int| is_first_index(s, c, i);
    lemma_first_index_unique(s, c, i, a.len() as int);
    assert(s.take(a.len() as int) =~= a);
    assert(s.skip(a.len() + 1 as int) =~= b);
}

/// The position of the first `c` in `s[lo..hi]`, if any.
pub fn find_char(s: &Vec<char>, lo: usize, hi: usize, c: char) -> (r: Option<usize>)
    requires
        lo <= hi <= s.len(),
    ensures
        match r {
            Some(i) => lo <= i < hi && is_first_index(
                s@.subrange(lo as int, hi as int),
                c,
                i - lo,
            ),
            None => !s@.subrange(lo as int, hi as int).contains(c),
        },
{
    let ghost part = s@.subrange(lo as int, hi as int);
    let mut i = lo;
    while i < hi
        invariant
            lo <= i <= hi <= s.len(),
            part == s@.subrange(lo as int, hi as int),
            forall|j: int| lo <= j < i ==> s@[j] != c,
        decreases hi - i,
    {
        if s[i] == c {
            proof {
                assert forall|j: int| 0 <= j < i - lo implies part[j] != c by {
                    assert(part[j] == s@[lo + j]);
                }
            }
            return Some(i);
        }
        i = i + 1;
    }
    proof {
        assert forall|j: int| 0 <= j < part.len() implies part[j] != c by {
            assert(part[j] == s@[lo + j]);
        }
    }
    None
}

/// Whether `t` occurs in `s` as a contiguous piece (as `str::contains` tells it).
pub open spec fn has_substring(s: Seq<char>, t: Seq<char>) -> bool {
    exists|i: int| 0 <= i && i + t.len() <= s.len() && #[trigger] s.subrange(i, i + t.len()) == t
}

/// Whether `s` begins with `t` (as `str::starts_with` tells it).
pub open spec fn has_prefix(s: Seq<char>, t: Seq<char>) -> bool {
    t.len() <= s.len() && s.take(t.len() as int) == t
}

/// Whether `t` is found in `s` at position `i`.
fn matches_at(s: &Vec<char>, t: &Vec<char>, i: usize) -> (b: bool)
    requires
        i + t.len() <= s.len(),
    ensures
        b == (s@.subrange(i as int, i + t.len()) == t@),
{
    let mut k: usize = 0;
    while k < t.len()
        invariant
            i + t.len() <= s.len(),
            k <= t.len(),
            forall|j: int| 0 <= j < k ==> s@[i + j] == t@[j],
        decreases t.len() - k,
    {
        if s[i + k] != t[k] {
            proof {
                assert(s@.subrange(i as int, i + t.len())[k as int] == s@[i + k]);
            }
            return false;
        }
        k = k + 1;
    }
    assert(s@.subrange(i as int, i + t.len()) =~= t@);
    true
}

/// Whether `needle` occurs in `hay`.
pub fn contains_str(hay: &str, needle: &str) -> (b: bool)
    ensures
        b == has_substring(hay@, needle@),
{
    let s = to_chars(hay);
    let t = to_chars(needle);
    if t.len() > s.len() {
        return false;
    }
    let mut i: usize = 0;
    let last = s.len() - t.len();
    while i < last
        invariant
            s@ == hay@,
            t@ == needle@,
            t.len() <= s.len(),
            last == s.len() - t.len(),
            i <= last,
            forall|j: int| 0 <= j < i ==> #[trigger] s@.subrange(j, j + t.len()) != t@,
        decreases last - i,
    {
        if matches_at(&s, &t, i) {
            return true;
        }
        i = i + 1;
    }
    if matches_at(&s, &t, last) {
        return true;
    }
    proof {
        assert forall|j: int| 0 <= j && j + t.len() <= s.len() implies #[trigger] s@.subrange(
            j,
            j + t.len(),
        ) != t@ by {
            assert(j <= last);
        }
    }
    false
}

/// Whether `s` begins with `prefix`.
pub fn starts_with_str(s: &str, prefix: &str) -> (b: bool)
    ensures
        b == has_prefix(s@, prefix@),
{
    let a = to_chars(s);
    let p = to_chars(prefix);
    if p.len() > a.len() {
        return false;
    }
    let r = matches_at(&a, &p, 0);
    assert(a@.subrange(0, p.len() as int) =~= a@.take(p.len() as int));
    r
}

/// Whether two texts are equal.
pub fn same_text(a: &str, b: &str) -> (r: bool)
    ensures
        r == (a@ == b@),
{
    let x = to_chars(a);
    let y = to_chars(b);
    if x.len() != y.len() {
        return false;
    }
    let r = matches_at(&x, &y, 0);
    assert(x@.subrange(0, y.len() as int) =~= x@);
    r
}

// ---------------------------------------------------------------------------
// Characters and pieces of a text
// ---------------------------------------------------------------------------
/// The characters of `s`, in order.
pub fn to_chars(s: &str) -> (v: Vec<char>)
    ensures
        v@ == s@,
{
    let mut v: Vec<char> = Vec::new();
    for c in it: s.chars()
        invariant
            v@ == it.seq().take(it.index() as int),
    {
        v.push(c);
    }
    v
}

/// The characters `lo..hi` of `s`, as a new `String`.
pub fn slice_string(s: &str, lo: usize, hi: usize) -> (r: String)
    requires
        lo <= hi <= s@.len(),
    ensures
        r@ == s@.subrange(lo as int, hi as int),
{
    s.substring_char(lo, hi).to_owned()
}

/// A copy of `s`.
pub fn copy_string(s: &String) -> (r: String)
    ensures
        r@ == s@,
{
    s.clone()
}

// ---------------------------------------------------------------------------
// Lines
// ---------------------------------------------------------------------------
/// The pieces of `s` between its `'\n'` characters: one more than `s` has of them.
pub open spec fn pieces(s: Seq<char>) -> Seq<Seq<char>>
    decreases s.len(),
{
    if s.len() == 0 {
        seq![Seq::<char>::empty()]
    } else {
        let p = pieces(s.drop_last());
        if s.last() == '\n' {
            p.push(Seq::<char>::empty())
        } else {
            p.update(p.len() - 1, p.last().push(s.last()))
        }
    }
}

/// A line with one trailing carriage return removed.
pub open spec fn strip_cr(l: Seq<char>) -> Seq<char> {
    if l.len() > 0 && l.last() == '\r' {
        l.drop_last()
    } else {
        l
    }
}

/// The lines of `s`, as `str::lines` and `BufRead::lines` give them: split at
/// `'\n'`, a `'\r'` right before a `'\n'` removed, and no empty last line for
/// a text that ends with `'\n'`.
pub open spec fn lines_of(s: Seq<char>) -> Seq<Seq<char>> {
    let p = pieces(s);
    let body = p.drop_last().map_values(|l: Seq<char>| strip_cr(l));
    if p.last().len() == 0 {
        body
    } else {
        body.push(p.last())
    }
}

/// There is always at least one piece.
pub proof fn lemma_pieces_len(s: Seq<char>)
    ensures
        pieces(s).len() >= 1,
    decreases s.len(),
{
    if s.len() > 0 {
        lemma_pieces_len(s.drop_last());
    }
}

/// The lines of `s`, each as a `String`.
pub fn split_lines(s: &str) -> (ls: Vec<String>)
    ensures
        ls.deep_view() == lines_of(s@),
{
    let cs = to_chars(s);
    let n = cs.len();
    let mut out: Vec<String> = Vec::new();
    let mut start: usize = 0;
    let mut i: usize = 0;
    while i < n
        invariant
            cs@ == s@,
            n == cs.len(),
            start <= i <= n,
            pieces(s@.take(i as int)).len() >= 1,
            out.deep_view() == pieces(s@.take(i as int)).drop_last().map_values(
                |l: Seq<char>| strip_cr(l),
            ),
            pieces(s@.take(i as int)).last() == s@.subrange(start as int, i as int),
        decreases n - i,
    {
        let ghost before = s@.take(i as int);
        proof {
            assert(s@.take(i + 1).drop_last() =~= before);
            assert(s@.take(i + 1).last() == s@[i as int]);
            lemma_pieces_len(before);
        }
        if cs[i] == '\n' {
            let mut end = i;
            if end > start && cs[end - 1] == '\r' {
                end = end - 1;
            }
            let line = slice_string(s, start, end);
            let ghost old_dv = out.deep_view();
            out.push(line);
            proof {
                assert(out.deep_view() =~= old_dv.push(line@));
                let p = pieces(before);
                let q = pieces(s@.take(i + 1));
                assert(q == p.push(Seq::<char>::empty()));
                assert(q.drop_last() =~= p);
                assert(line@ == strip_cr(p.last())) by {
                    if i > start && s@[i - 1] == '\r' {
                        assert(p.last().drop_last() =~= s@.subrange(start as int, i - 1));
                    }
                }
                assert(out.deep_view() =~= p.map_values(|l: Seq<char>| strip_cr(l))) by {
                    assert(p =~= p.drop_last().push(p.last()));
                }
                assert(q.last() =~= s@.subrange(i + 1, i + 1));
            }
            start = i + 1;
        } else {
            proof {
                let p = pieces(before);
                let q = pieces(s@.take(i + 1));
                assert(q.drop_last() =~= p.drop_last());
                assert(q.last() =~= s@.subrange(start as int, i + 1));
            }
        }
        i = i + 1;
    }
    proof {
        assert(s@.take(n as int) =~= s@);
    }
    if start < n {
        let line = slice_string(s, start, n);
        out.push(line);
    }
    out
}

/// The text made of the lines `ls`, each followed by `'\n'`.
pub open spec fn join_lines(ls: Seq<Seq<char>>) -> Seq<char>
    decreases ls.len(),
{
    if ls.len() == 0 {
        Seq::<char>::empty()
    } else {
        join_lines(ls.drop_last()) + ls.last() + seq!['\n']
    }
}

/// A line that can stand in a text and be read back as itself.
pub open spec fn is_plain_line(l: Seq<char>) -> bool {
    &&& !l.contains('\n')
    &&& !(l.len() > 0 && l.last() == '\r')
}

/// Appending text without `'\n'` grows the last piece.
pub proof fn lemma_pieces_append(a: Seq<char>, x: Seq<char>)
    requires
        !x.contains('\n'),
    ensures
        pieces(a + x) == pieces(a).update(pieces(a).len() - 1, pieces(a).last() + x),
    decreases x.len(),
{
    lemma_pieces_len(a);
    if x.len() == 0 {
        assert(a + x =~= a);
        assert(pieces(a).last() + x =~= pieces(a).last());
        assert(pieces(a).update(pieces(a).len() - 1, pieces(a).last()) =~= pieces(a));
    } else {
        let y = x.drop_last();
        assert(!y.contains('\n')) by {
            if y.contains('\n') {
                let k = choose|k: int| 0 <= k < y.len() && y[k] == '\n';
                assert(x[k] == '\n');
            }
        }
        assert(x.last() != '\n') by {
            assert(x[x.len() - 1] == x.last());
        }
        lemma_pieces_append(a, y);
        assert((a + x).drop_last() =~= a + y);
        assert((a + x).last() == x.last());
        lemma_pieces_len(a + y);
        let p = pieces(a);
        let q = pieces(a + y);
        assert(q.len() == p.len());
        assert(q.last() == p.last() + y);
        assert(p.last() + y + seq![x.last()] =~= p.last() + x);
        assert((p.last() + y).push(x.last()) =~= p.last() + x);
        assert(pieces(a + x) =~= p.update(p.len() - 1, p.last() + x));
    }
}

/// Joining lines without `'\n'` after a text whose last piece is empty
/// splits back into the pieces of that text, those lines and one empty piece.
pub proof fn lemma_pieces_join_after(a: Seq<char>, ls: Seq<Seq<char>>)
    requires
        a.len() == 0 || a.last() == '\n',
        forall|k: int| 0 <= k < ls.len() ==> !(#[trigger] ls[k]).contains('\n'),
    ensures
        pieces(a + join_lines(ls)) == pieces(a).drop_last() + ls.push(Seq::<char>::empty()),
    decreases ls.len(),
{
    lemma_pieces_len(a);
    assert(pieces(a).last() == Seq::<char>::empty()) by {
        if a.len() > 0 {
            lemma_pieces_len(a.drop_last());
        }
    }
    if ls.len() == 0 {
        assert(a + join_lines(ls) =~= a);
        assert(pieces(a).drop_last() + ls.push(Seq::<char>::empty()) =~= pieces(a));
    } else {
        let rest = ls.drop_last();
        let l = ls.last();
        assert forall|k: int| 0 <= k < rest.len() implies !(#[trigger] rest[k]).contains('\n') by {
            assert(rest[k] == ls[k]);
        }
        assert(!l.contains('\n')) by {
            assert(ls[ls.len() - 1] == l);
        }
        lemma_pieces_join_after(a, rest);
        let b = a + join_lines(rest);
        lemma_pieces_append(b, l);
        let whole = b + l + seq!['\n'];
        assert(whole.drop_last() =~= b + l);
        assert(whole.last() == '\n');
        assert(a + join_lines(ls) =~= whole);
        let p = pieces(a).drop_last() + rest.push(Seq::<char>::empty());
        assert(Seq::<char>::empty() + l =~= l);
        assert(p.update(p.len() - 1, p.last() + l) =~= pieces(a).drop_last() + ls);
        assert(pieces(whole) =~= pieces(a).drop_last() + ls.push(Seq::<char>::empty()));
    }
}

/// Plain lines joined after a text that is empty or ends with `'\n'` are
/// read back as the lines of that text followed by those lines.
pub proof fn lemma_lines_of_append(a: Seq<char>, ls: Seq<Seq<char>>)
    requires
        a.len() == 0 || a.last() == '\n',
        forall|k: int| 0 <= k < ls.len() ==> is_plain_line(#[trigger] ls[k]),
    ensures
        lines_of(a + join_lines(ls)) == lines_of(a) + ls,
{
    assert forall|k: int| 0 <= k < ls.len() implies !(#[trigger] ls[k]).contains('\n') by {
        assert(is_plain_line(ls[k]));
    }
    lemma_pieces_join_after(a, ls);
    lemma_pieces_len(a);
    assert(pieces(a).last() == Seq::<char>::empty()) by {
        if a.len() > 0 {
            lemma_pieces_len(a.drop_last());
        }
    }
    let pa = pieces(a).drop_last();
    let p = pa + ls.push(Seq::<char>::empty());
    assert(p.drop_last() =~= pa + ls);
    assert forall|k: int| 0 <= k < ls.len() implies strip_cr(#[trigger] ls[k]) == ls[k] by {
        assert(is_plain_line(ls[k]));
    }
    assert((pa + ls).map_values(|l: Seq<char>| strip_cr(l)) =~= pa.map_values(
        |l: Seq<char>| strip_cr(l),
    ) + ls);
}

/// Plain lines joined and split again are the same lines.
pub proof fn lemma_lines_of_join(ls: Seq<Seq<char>>)
    requires
        forall|k: int| 0 <= k < ls.len() ==> is_plain_line(#[trigger] ls[k]),
    ensures
        lines_of(join_lines(ls)) == ls,
{
    let e = Seq::<char>::empty();
    lemma_lines_of_append(e, ls);
    assert(e + join_lines(ls) =~= join_lines(ls));
    assert(lines_of(e) =~= Seq::<Seq<char>>::empty()) by {
        assert(pieces(e) =~= seq![e]);
        assert(pieces(e).drop_last() =~= Seq::<Seq<char>>::empty());
    }
    assert(lines_of(e) + ls =~= ls);
}

/// No piece holds a `'\n'`.
pub proof fn lemma_pieces_no_newline(s: Seq<char>)
    ensures
        forall|k: int| 0 <= k < pieces(s).len() ==> !(#[trigger] pieces(s)[k]).contains('\n'),
    decreases s.len(),
{
    if s.len() > 0 {
        let t = s.drop_last();
        lemma_pieces_no_newline(t);
        lemma_pieces_len(t);
        let p = pieces(t);
        if s.last() != '\n' {
            let q = p.update(p.len() - 1, p.last().push(s.last()));
            assert forall|k: int| 0 <= k < q.len() implies !(#[trigger] q[k]).contains('\n') by {
                if k == p.len() - 1 {
                    if q[k].contains('\n') {
                        let j = choose|j: int| 0 <= j < q[k].len() && q[k][j] == '\n';
                        if j < p.last().len() {
                            assert(p.last()[j] == '\n');
                            assert(p[p.len() - 1].contains('\n'));
                        }
                    }
                } else {
                    assert(q[k] == p[k]);
                }
            }
        } else {
            let q = p.push(Seq::<char>::empty());
            assert forall|k: int| 0 <= k < q.len() implies !(#[trigger] q[k]).contains('\n') by {
                if k < p.len() {
                    assert(q[k] == p[k]);
                }
            }
        }
    }
}

/// No line holds a `'\n'`.
pub proof fn lemma_lines_no_newline(s: Seq<char>)
    ensures
        forall|k: int|
            0 <= k < lines_of(s).len() ==> !(#[trigger] lines_of(s)[k]).contains('\n'),
{
    lemma_pieces_no_newline(s);
    lemma_pieces_len(s);
    let p = pieces(s);
    let body = p.drop_last().map_values(|l: Seq<char>| strip_cr(l));
    assert forall|k: int| 0 <= k < body.len() implies !(#[trigger] body[k]).contains('\n') by {
        let l = p[k];
        assert(p.drop_last()[k] == l);
        if body[k].contains('\n') {
            let j = choose|j: int| 0 <= j < body[k].len() && body[k][j] == '\n';
            assert(l[j] == '\n');
        }
    }
    if p.last().len() != 0 {
        let b2 = body.push(p.last());
        assert forall|k: int| 0 <= k < b2.len() implies !(#[trigger] b2[k]).contains('\n') by {
            if k < body.len() {
                assert(b2[k] == body[k]);
            } else {
                assert(b2[k] == p[p.len() - 1]);
            }
        }
    }
}

/// The join of `a + b` is the join of `a` followed by the join of `b`.
pub proof fn lemma_join_concat(a: Seq<Seq<char>>, b: Seq<Seq<char>>)
    ensures
        join_lines(a + b) == join_lines(a) + join_lines(b),
    decreases b.len(),
{
    if b.len() == 0 {
        assert(a + b =~= a);
        assert(join_lines(a) + join_lines(b) =~= join_lines(a));
    } else {
        lemma_join_concat(a, b.drop_last());
        assert((a + b).drop_last() =~= a + b.drop_last());
        assert((a + b).last() == b.last());
        assert(join_lines(a + b) =~= join_lines(a) + join_lines(b.drop_last()) + b.last() + seq![
            '\n',
        ]);
    }
}

/// Appends each line of `ls`, followed by `'\n'`, to `out`.
pub fn append_lines(out: &mut String, ls: &Vec<String>)
    ensures
        final(out)@ == old(out)@ + join_lines(ls.deep_view()),
{
    let ghost start = out@;
    let mut i: usize = 0;
    while i < ls.len()
        invariant
            i <= ls.len(),
            out@ == start + join_lines(ls.deep_view().take(i as int)),
        decreases ls.len() - i,
    {
        out.append(ls[i].as_str());
        out.append("\n");
        proof {
            reveal_strlit("\n");
            let t = ls.deep_view().take(i + 1);
            assert(t.drop_last() =~= ls.deep_view().take(i as int));
            assert(t.last() == ls[i as int]@);
        }
        i = i + 1;
    }
    assert(ls.deep_view().take(ls.len() as int) =~= ls.deep_view());
}

// ---------------------------------------------------------------------------
// Numbers
// ---------------------------------------------------------------------------
/// The decimal digit for `d < 10`.
pub open spec fn digit_char(d: nat) -> char {
    if d == 0 {
        '0'
    } else if d == 1 {
        '1'
    } else if d == 2 {
        '2'
    } else if d == 3 {
        '3'
    } else if d == 4 {
        '4'
    } else if d == 5 {
        '5'
    } else if d == 6 {
        '6'
    } else if d == 7 {
        '7'
    } else if d == 8 {
        '8'
    } else {
        '9'
    }
}

/// `n` in decimal without leading zeros, as `u32::to_string` prints it.
pub open spec fn decimal(n: nat) -> Seq<char>
    decreases n,
{
    if n < 10 {
        seq![digit_char(n)]
    } else {
        decimal(n / 10).push(digit_char(n % 10))
    }
}

/// The one-character text of the digit `d`.
fn digit_str(d: u32) -> (s: &'static str)
    requires
        d < 10,
    ensures
        s@ == seq![digit_char(d as nat)],
{
    proof {
        reveal_strlit("0");
        reveal_strlit("1");
        reveal_strlit("2");
        reveal_strlit("3");
        reveal_strlit("4");
        reveal_strlit("5");
        reveal_strlit("6");
        reveal_strlit("7");
        reveal_strlit("8");
        reveal_strlit("9");
    }
    match d {
        0 => "0",
        1 => "1",
        2 => "2",
        3 => "3",
        4 => "4",
        5 => "5",
        6 => "6",
        7 => "7",
        8 => "8",
        _ => "9",
    }
}

/// `n` in decimal.
pub fn u32_to_decimal(n: u32) -> (s: String)
    ensures
        s@ == decimal(n as nat),
    decreases n,
{
    if n < 10 {
        let mut s = String::new();
        s.append(digit_str(n));
        assert(s@ =~= seq![digit_char(n as nat)]);
        s
    } else {
        let mut s = u32_to_decimal(n / 10);
        s.append(digit_str(n % 10));
        s
    }
}

} // verus!
