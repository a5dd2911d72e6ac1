//! Character-level helpers shared by the rest of the library: building
//! strings, Unicode white space and trimming, ASCII case, comparison.

use vstd::prelude::*;

verus! {

/// The Unicode `White_Space` property, the set of characters that
/// `char::is_whitespace` and `str::trim` treat as white space.
pub open spec fn is_white_space(c: char) -> bool {
    let v = c as u32;
    ||| 0x09 <= v <= 0x0d
    ||| v == 0x20
    ||| v == 0x85
    ||| v == 0xa0
    ||| v == 0x1680
    ||| 0x2000 <= v <= 0x200a
    ||| v == 0x2028
    ||| v == 0x2029
    ||| v == 0x202f
    ||| v == 0x205f
    ||| v == 0x3000
}

/// `s` with its leading white space removed.
pub open spec fn trim_start(s: Seq<char>) -> Seq<char>
    decreases s.len(),
{
    if s.len() > 0 && is_white_space(s[0]) {
        trim_start(s.drop_first())
    } else {
        s
    }
}

/// `s` with its trailing white space removed.
pub open spec fn trim_end(s: Seq<char>) -> Seq<char>
    decreases s.len(),
{
    if s.len() > 0 && is_white_space(s.last()) {
        trim_end(s.drop_last())
    } else {
        s
    }
}

/// `s` with white space removed at both ends, as `str::trim` gives it.
pub open spec fn trimmed(s: Seq<char>) -> Seq<char> {
    trim_end(trim_start(s))
}

/// A character in `A..=Z` mapped to `a..=z`; any other character unchanged.
pub open spec fn ascii_lower_char(c: char) -> char {
    if 'A' <= c <= 'Z' {
        ((c as u32) + 32) as char
    } else {
        c
    }
}

/// `s` with every ASCII capital letter made small.
pub open spec fn ascii_lowercase(s: Seq<char>) -> Seq<char> {
    Seq::new(s.len(), |i: int| ascii_lower_char(s[i]))
}

/// Every character of `s` is ASCII.
pub open spec fn all_ascii(s: Seq<char>) -> bool {
    forall|i: int| 0 <= i < s.len() ==> (s[i] as u32) < 128
}

/// What `str::to_lowercase` returns for a string: the Unicode lower-case
/// mapping, which is context dependent (final sigma) and may change lengths.
pub uninterp spec fn unicode_lowercase(s: Seq<char>) -> Seq<char>;

/// Appends one character; calls `String::push`.
#[verifier::external_body]
fn push_char(s: &mut String, c: char)
    ensures
        final(s)@ == old(s)@.push(c),
{
    s.push(c);
}

/// Calls `str::to_lowercase`. The result is named by `unicode_lowercase`;
/// on ASCII input the Unicode mapping only lowers `A..=Z`.
#[verifier::external_body]
pub(crate) fn str_to_lowercase(s: &str) -> (res: String)
    ensures
        res@ == unicode_lowercase(s@),
        all_ascii(s@) ==> res@ == ascii_lowercase(s@),
{
    s.to_lowercase()
}

/// The characters of a string slice, in order.
pub fn chars_of(s: &str) -> (res: Vec<char>)
    ensures
        res@ == s@,
{
    let mut res: Vec<char> = Vec::new();
    for c in it: s.chars()
        invariant
            res@ == it.seq().take(it.index() as int),
    {
        res.push(c);
    }
    res
}

/// A string made of the given characters.
pub fn string_from_chars(cs: &[char]) -> (res: String)
    ensures
        res@ == cs@,
{
    let mut res = String::new();
    let mut i: usize = 0;
    while i < cs.len()
        invariant
            i <= cs@.len(),
            res@ == cs@.take(i as int),
        decreases cs@.len() - i,
    {
        push_char(&mut res, cs[i]);
        i = i + 1;
        assert(res@ =~= cs@.take(i as int));
    }
    assert(cs@.take(cs@.len() as int) =~= cs@);
    res
}

/// The characters `cs[from..to]` as a string.
pub fn string_from_range(cs: &[char], from: usize, to: usize) -> (res: String)
    requires
        from <= to <= cs@.len(),
    ensures
        res@ == cs@.subrange(from as int, to as int),
{
    let mut res = String::new();
    let mut i: usize = from;
    while i < to
        invariant
            from <= i <= to <= cs@.len(),
            res@ == cs@.subrange(from as int, i as int),
        decreases to - i,
    {
        push_char(&mut res, cs[i]);
        i = i + 1;
        assert(res@ =~= cs@.subrange(from as int, i as int));
    }
    res
}

/// `is_white_space` computed.
pub fn is_white_space_char(c: char) -> (res: bool)
    ensures
        res == is_white_space(c),
{
    let v = c as u32;
    (0x09 <= v && v <= 0x0d) || v == 0x20 || v == 0x85 || v == 0xa0 || v == 0x1680
        || (0x2000 <= v && v <= 0x200a) || v == 0x2028 || v == 0x2029 || v == 0x202f
        || v == 0x205f || v == 0x3000
}

/// Skipping a white-space prefix of length `i` that is followed by a
/// non-white-space character (or the end) is what `trim_start` does.
pub proof fn lemma_trim_start_at(s: Seq<char>, i: int)
    requires
        0 <= i <= s.len(),
        forall|j: int| 0 <= j < i ==> is_white_space(#[trigger] s[j]),
        i == s.len() || !is_white_space(s[i]),
    ensures
        trim_start(s) == s.subrange(i, s.len() as int),
    decreases i,
{
    if i == 0 {
        assert(s.subrange(0, s.len() as int) =~= s);
    } else {
        let t = s.drop_first();
        assert forall|j: int| 0 <= j < i - 1 implies is_white_space(#[trigger] t[j]) by {
            assert(t[j] == s[j + 1]);
        }
        lemma_trim_start_at(t, i - 1);
        assert(t.subrange(i - 1, t.len() as int) =~= s.subrange(i, s.len() as int));
    }
}

/// Cutting a white-space suffix that starts at `j`, preceded by a
/// non-white-space character (or the start), is what `trim_end` does.
pub proof fn lemma_trim_end_at(s: Seq<char>, j: int)
    requires
        0 <= j <= s.len(),
        forall|k: int| j <= k < s.len() ==> is_white_space(#[trigger] s[k]),
        j == 0 || !is_white_space(s[j - 1]),
    ensures
        trim_end(s) == s.subrange(0, j),
    decreases s.len() - j,
{
    if j == s.len() {
        assert(s.subrange(0, j) =~= s);
    } else {
        let t = s.drop_last();
        assert forall|k: int| j <= k < t.len() implies is_white_space(#[trigger] t[k]) by {
            assert(t[k] == s[k]);
        }
        lemma_trim_end_at(t, j);
        assert(t.subrange(0, j) =~= s.subrange(0, j));
    }
}

proof fn lemma_trim_start_all_space(x: Seq<char>)
    requires
        forall|i: int| 0 <= i < x.len() ==> is_white_space(#[trigger] x[i]),
    ensures
        trim_start(x) == Seq::<char>::empty(),
    decreases x.len(),
{
    if x.len() > 0 {
        let t = x.drop_first();
        assert forall|i: int| 0 <= i < t.len() implies is_white_space(#[trigger] t[i]) by {
            assert(t[i] == x[i + 1]);
        }
        lemma_trim_start_all_space(t);
    } else {
        assert(x =~= Seq::<char>::empty());
    }
}

proof fn lemma_trim_start_prefix(pre: Seq<char>, x: Seq<char>)
    requires
        forall|i: int| 0 <= i < pre.len() ==> is_white_space(#[trigger] pre[i]),
    ensures
        trim_start(pre + x) == trim_start(x),
    decreases pre.len(),
{
    if pre.len() > 0 {
        let t = pre.drop_first();
        assert forall|i: int| 0 <= i < t.len() implies is_white_space(#[trigger] t[i]) by {
            assert(t[i] == pre[i + 1]);
        }
        assert((pre + x)[0] == pre[0]);
        assert((pre + x).drop_first() =~= t + x);
        lemma_trim_start_prefix(t, x);
    } else {
        assert(pre + x =~= x);
    }
}

proof fn lemma_trim_end_suffix(x: Seq<char>, post: Seq<char>)
    requires
        forall|i: int| 0 <= i < post.len() ==> is_white_space(#[trigger] post[i]),
    ensures
        trim_end(x + post) == trim_end(x),
    decreases post.len(),
{
    if post.len() > 0 {
        let t = post.drop_last();
        assert forall|i: int| 0 <= i < t.len() implies is_white_space(#[trigger] t[i]) by {
            assert(t[i] == post[i]);
        }
        assert((x + post).last() == post.last());
        assert((x + post).drop_last() =~= x + t);
        lemma_trim_end_suffix(x, t);
    } else {
        assert(x + post =~= x);
    }
}

proof fn lemma_trimmed_suffix(s: Seq<char>, post: Seq<char>)
    requires
        forall|i: int| 0 <= i < post.len() ==> is_white_space(#[trigger] post[i]),
    ensures
        trim_end(trim_start(s + post)) == trim_end(trim_start(s)),
    decreases s.len(),
{
    if s.len() == 0 {
        assert(s + post =~= post);
        lemma_trim_start_all_space(post);
    } else if is_white_space(s[0]) {
        assert((s + post)[0] == s[0]);
        assert((s + post).drop_first() =~= s.drop_first() + post);
        lemma_trimmed_suffix(s.drop_first(), post);
    } else {
        assert((s + post)[0] == s[0]);
        lemma_trim_end_suffix(s, post);
    }
}

/// White space added around a string does not change what trimming gives.
pub proof fn lemma_trim_padding(pre: Seq<char>, s: Seq<char>, post: Seq<char>)
    requires
        forall|i: int| 0 <= i < pre.len() ==> is_white_space(#[trigger] pre[i]),
        forall|i: int| 0 <= i < post.len() ==> is_white_space(#[trigger] post[i]),
    ensures
        trimmed(pre + s + post) == trimmed(s),
{
    assert(pre + s + post =~= pre + (s + post));
    lemma_trim_start_prefix(pre, s + post);
    lemma_trimmed_suffix(s, post);
}

/// The bounds `(i, j)` such that `trimmed(cs) == cs[i..j]`.
pub fn trim_bounds(cs: &[char]) -> (res: (usize, usize))
    ensures
        res.0 <= res.1 <= cs@.len(),
        trimmed(cs@) == cs@.subrange(res.0 as int, res.1 as int),
{
    let n = cs.len();
    let mut i: usize = 0;
    while i < n && is_white_space_char(cs[i])
        invariant
            i <= n == cs@.len(),
            forall|k: int| 0 <= k < i ==> is_white_space(#[trigger] cs@[k]),
        decreases n - i,
    {
        i = i + 1;
    }
    proof {
        lemma_trim_start_at(cs@, i as int);
    }
    let mut j: usize = n;
    while j > i && is_white_space_char(cs[j - 1])
        invariant
            i <= j <= n == cs@.len(),
            forall|k: int| j <= k < n ==> is_white_space(#[trigger] cs@[k]),
        decreases j - i,
    {
        j = j - 1;
    }
    proof {
        let t = cs@.subrange(i as int, n as int);
        assert forall|k: int| j - i <= k < t.len() implies is_white_space(#[trigger] t[k]) by {
            assert(t[k] == cs@[i + k]);
        }
        if j > i {
            assert(t[j - i - 1] == cs@[j - 1]);
        }
        lemma_trim_end_at(t, j - i);
        assert(t.subrange(0, j - i) =~= cs@.subrange(i as int, j as int));
    }
    (i, j)
}

/// `str::trim`: the string without white space at either end.
pub fn trim_str(s: &str) -> (res: String)
    ensures
        res@ == trimmed(s@),
        exists|i: int, j: int| 0 <= i <= j <= s@.len() && res@ == s@.subrange(i, j),
{
    let cs = chars_of(s);
    let (i, j) = trim_bounds(cs.as_slice());
    let res = string_from_range(cs.as_slice(), i, j);
    assert(res@ == s@.subrange(i as int, j as int));
    res
}

proof fn lemma_lower_keeps_space(c: char)
    ensures
        is_white_space(ascii_lower_char(c)) == is_white_space(c),
{
}

proof fn lemma_trim_start_lower(x: Seq<char>)
    ensures
        trim_start(ascii_lowercase(x)) == ascii_lowercase(trim_start(x)),
    decreases x.len(),
{
    let l = ascii_lowercase(x);
    if x.len() > 0 {
        lemma_lower_keeps_space(x[0]);
        assert(l[0] == ascii_lower_char(x[0]));
        if is_white_space(x[0]) {
            assert(l.drop_first() =~= ascii_lowercase(x.drop_first()));
            lemma_trim_start_lower(x.drop_first());
        }
    }
}

proof fn lemma_trim_end_lower(x: Seq<char>)
    ensures
        trim_end(ascii_lowercase(x)) == ascii_lowercase(trim_end(x)),
    decreases x.len(),
{
    let l = ascii_lowercase(x);
    if x.len() > 0 {
        lemma_lower_keeps_space(x.last());
        assert(l.last() == ascii_lower_char(x.last()));
        if is_white_space(x.last()) {
            assert(l.drop_last() =~= ascii_lowercase(x.drop_last()));
            lemma_trim_end_lower(x.drop_last());
        }
    }
}

proof fn lemma_trim_start_shape(x: Seq<char>)
    ensures
        trim_start(x).len() == 0 || !is_white_space(trim_start(x)[0]),
    decreases x.len(),
{
    if x.len() > 0 && is_white_space(x[0]) {
        lemma_trim_start_shape(x.drop_first());
    }
}

proof fn lemma_trim_end_shape(x: Seq<char>)
    ensures
        trim_end(x).len() <= x.len(),
        trim_end(x) == x.take(trim_end(x).len() as int),
        trim_end(x).len() == 0 || !is_white_space(trim_end(x).last()),
    decreases x.len(),
{
    if x.len() > 0 && is_white_space(x.last()) {
        lemma_trim_end_shape(x.drop_last());
        let t = trim_end(x.drop_last());
        assert(x.drop_last().take(t.len() as int) =~= x.take(t.len() as int));
    } else {
        assert(x.take(x.len() as int) =~= x);
    }
}

/// Trimming twice gives what trimming once gives.
pub proof fn lemma_trimmed_idempotent(x: Seq<char>)
    ensures
        trimmed(trimmed(x)) == trimmed(x),
{
    let u = trim_start(x);
    let t = trim_end(u);
    lemma_trim_start_shape(x);
    lemma_trim_end_shape(u);
    if t.len() > 0 {
        assert(t[0] == u[0]);
        assert(trim_start(t) == t);
    } else {
        assert(trim_start(t) == t);
    }
}

/// Lower-casing ASCII twice gives what lower-casing once gives.
pub proof fn lemma_ascii_lowercase_idempotent(x: Seq<char>)
    ensures
        ascii_lowercase(ascii_lowercase(x)) == ascii_lowercase(x),
{
    assert forall|i: int| 0 <= i < x.len() implies #[trigger] ascii_lower_char(ascii_lower_char(x[i])) == ascii_lower_char(x[i]) by {
        let c = x[i];
        if 'A' <= c <= 'Z' {
            let d = ((c as u32) + 32) as char;
            assert(d as u32 == (c as u32) + 32);
        }
    }
    assert(ascii_lowercase(ascii_lowercase(x)) =~= ascii_lowercase(x));
}

/// Trimming and ASCII lower-casing can be done in either order.
pub proof fn lemma_trimmed_lowercase(x: Seq<char>)
    ensures
        trimmed(ascii_lowercase(x)) == ascii_lowercase(trimmed(x)),
{
    lemma_trim_start_lower(x);
    lemma_trim_end_lower(trim_start(x));
}

/// Two string slices hold the same characters.
pub fn str_eq(a: &str, b: &str) -> (res: bool)
    ensures
        res == (a@ == b@),
{
    let x = chars_of(a);
    let y = chars_of(b);
    if x.len() != y.len() {
        return false;
    }
    let mut i: usize = 0;
    while i < x.len()
        invariant
            i <= x@.len() == y@.len(),
            x@ == a@,
            y@ == b@,
            forall|k: int| 0 <= k < i ==> x@[k] == y@[k],
        decreases x@.len() - i,
    {
        if x[i] != y[i] {
            return false;
        }
        i = i + 1;
    }
    assert(x@ =~= y@);
    true
}

/// `ascii_lower_char` computed.
pub fn ascii_lower(c: char) -> (res: char)
    ensures
        res == ascii_lower_char(c),
{
    if 'A' <= c && c <= 'Z' {
        let v = c as u8;
        (v + 32) as char
    } else {
        c
    }
}

} // verus!
