//! Character-level string helpers with exact specifications.
use vstd::prelude::*;

verus! {

/// Copies the characters of a string slice into a vector (`str::chars` collected).
#[verifier::external_body]
pub(crate) fn chars_of(s: &str) -> (v: Vec<char>)
    ensures
        v@ == s@,
{
    s.chars().collect()
}

/// Builds a string from a vector of characters (`String::from_iter`).
#[verifier::external_body]
pub(crate) fn string_of(v: &Vec<char>) -> (s: String)
    ensures
        s@ == v@,
{
    v.iter().collect()
}

/// Every occurrence of `pat` in `s`, scanned from the left and never overlapping,
/// replaced by `rep` (`str::replace` for a non-empty pattern).
pub open spec fn replace_all(s: Seq<char>, pat: Seq<char>, rep: Seq<char>) -> Seq<char>
    decreases s.len(),
{
    if pat.len() == 0 || s.len() < pat.len() {
        s
    } else if s.take(pat.len() as int) == pat {
        rep + replace_all(s.skip(pat.len() as int), pat, rep)
    } else {
        seq![s[0]] + replace_all(s.skip(1), pat, rep)
    }
}

/// `true` iff `pat` occurs in `s` at character position `at`.
pub fn matches_at(s: &Vec<char>, at: usize, pat: &Vec<char>) -> (b: bool)
    requires
        at <= s.len(),
    ensures
        b == (at + pat.len() <= s.len() && s@.subrange(at as int, at + pat.len()) == pat@),
{
    if pat.len() > s.len() - at {
        return false;
    }
    let mut j: usize = 0;
    while j < pat.len()
        invariant
            at + pat.len() <= s.len(),
            j <= pat.len(),
            forall|k: int| 0 <= k < j ==> s@[at + k] == pat@[k],
        decreases pat.len() - j,
    {
        if s[at + j] != pat[j] {
            assert(s@.subrange(at as int, at + pat.len())[j as int] != pat@[j as int]);
            return false;
        }
        j = j + 1;
    }
    assert(s@.subrange(at as int, at + pat.len()) =~= pat@);
    true
}

/// Appends all of `src` to `dst`.
pub fn extend_chars(dst: &mut Vec<char>, src: &Vec<char>)
    ensures
        final(dst)@ == old(dst)@ + src@,
{
    let mut i: usize = 0;
    while i < src.len()
        invariant
            i <= src.len(),
            dst@ == old(dst)@ + src@.take(i as int),
        decreases src.len() - i,
    {
        dst.push(src[i]);
        i = i + 1;
        assert(src@.take(i as int) =~= src@.take(i - 1) + seq![src@[i - 1]]);
    }
    assert(src@.take(i as int) =~= src@);
}

proof fn lemma_replace_all_skip(s: Seq<char>, i: int, pat: Seq<char>, rep: Seq<char>)
    requires
        0 <= i <= s.len(),
        pat.len() > 0,
    ensures
        i + pat.len() <= s.len() && s.subrange(i, i + pat.len()) == pat ==> replace_all(s.skip(i), pat, rep)
            == rep + replace_all(s.skip(i + pat.len()), pat, rep),
        i + pat.len() <= s.len() && s.subrange(i, i + pat.len()) != pat ==> replace_all(s.skip(i), pat, rep)
            == seq![s[i]] + replace_all(s.skip(i + 1), pat, rep),
        i + pat.len() > s.len() ==> replace_all(s.skip(i), pat, rep) == s.skip(i),
{
    let t = s.skip(i);
    if i + pat.len() <= s.len() {
        assert(t.take(pat.len() as int) =~= s.subrange(i, i + pat.len()));
        assert(t.skip(pat.len() as int) =~= s.skip(i + pat.len()));
        assert(t.skip(1) =~= s.skip(i + 1));
    }
}

/// `replace_all` on character vectors.
pub fn replace_all_chars(s: &Vec<char>, pat: &Vec<char>, rep: &Vec<char>) -> (r: Vec<char>)
    requires
        pat.len() > 0,
    ensures
        r@ == replace_all(s@, pat@, rep@),
{
    let mut out: Vec<char> = Vec::new();
    let mut i: usize = 0;
    assert(s@.skip(0) =~= s@);
    while i < s.len()
        invariant
            pat.len() > 0,
            i <= s.len(),
            out@ + replace_all(s@.skip(i as int), pat@, rep@) == replace_all(s@, pat@, rep@),
        decreases s.len() - i,
    {
        proof {
            lemma_replace_all_skip(s@, i as int, pat@, rep@);
        }
        if matches_at(s, i, pat) {
            let ghost before = out@;
            extend_chars(&mut out, rep);
            i = i + pat.len();
            assert(out@ + replace_all(s@.skip(i as int), pat@, rep@) =~= before + (rep@
                + replace_all(s@.skip(i as int), pat@, rep@)));
        } else if pat.len() > s.len() - i {
            let ghost before = out@;
            let ghost rest = s@.skip(i as int);
            while i < s.len()
                invariant
                    i <= s.len(),
                    out@ + s@.skip(i as int) == before + rest,
                decreases s.len() - i,
            {
                let ghost o = out@;
                out.push(s[i]);
                i = i + 1;
                assert(o + s@.skip(i - 1) =~= out@ + s@.skip(i as int));
            }
            assert(s@.skip(i as int) =~= Seq::<char>::empty());
            assert(out@ =~= out@ + s@.skip(i as int));
            return out;
        } else {
            let ghost before = out@;
            out.push(s[i]);
            i = i + 1;
            assert(out@ + replace_all(s@.skip(i as int), pat@, rep@) =~= before + (seq![s@[i - 1]]
                + replace_all(s@.skip(i as int), pat@, rep@)));
        }
    }
    assert(s@.skip(i as int) =~= Seq::<char>::empty());
    assert(replace_all(s@.skip(i as int), pat@, rep@) == s@.skip(i as int));
    assert(out@ =~= out@ + s@.skip(i as int));
    out
}


/// The Unicode `White_Space` property (what `char::is_whitespace` tests).
pub open spec fn is_white_space(c: char) -> bool {
    let u = c as u32;
    ||| 0x09 <= u <= 0x0d
    ||| u == 0x20
    ||| u == 0x85
    ||| u == 0xa0
    ||| u == 0x1680
    ||| 0x2000 <= u <= 0x200a
    ||| u == 0x2028
    ||| u == 0x2029
    ||| u == 0x202f
    ||| u == 0x205f
    ||| u == 0x3000
}

pub fn is_white_space_exec(c: char) -> (b: bool)
    ensures
        b == is_white_space(c),
{
    let u = c as u32;
    (0x09 <= u && u <= 0x0d) || u == 0x20 || u == 0x85 || u == 0xa0 || u == 0x1680 || (0x2000 <= u
        && u <= 0x200a) || u == 0x2028 || u == 0x2029 || u == 0x202f || u == 0x205f || u == 0x3000
}

/// The maximal runs of characters that are not white space, in order
/// (`str::split_whitespace`).
pub open spec fn words(s: Seq<char>) -> Seq<Seq<char>>
    decreases s.len(),
{
    words_from(s, Seq::empty())
}

/// The words of `s`, where `cur` is a word begun before `s`.
pub open spec fn words_from(s: Seq<char>, cur: Seq<char>) -> Seq<Seq<char>>
    decreases s.len(),
{
    if s.len() == 0 {
        if cur.len() == 0 { Seq::empty() } else { seq![cur] }
    } else if is_white_space(s[0]) {
        if cur.len() == 0 {
            words_from(s.skip(1), cur)
        } else {
            seq![cur] + words_from(s.skip(1), Seq::empty())
        }
    } else {
        words_from(s.skip(1), cur.push(s[0]))
    }
}

/// Splits a line into its words.
pub fn split_whitespace(line: &str) -> (r: Vec<String>)
    ensures
        r@.map_values(|w: String| w@) == words(line@),
{
    let s = chars_of(line);
    let mut out: Vec<String> = Vec::new();
    let mut cur: Vec<char> = Vec::new();
    let mut i: usize = 0;
    assert(s@.skip(0) =~= s@);
    while i < s.len()
        invariant
            i <= s.len(),
            out@.map_values(|w: String| w@) + words_from(s@.skip(i as int), cur@) == words(s@),
        decreases s.len() - i,
    {
        let c = s[i];
        assert(s@.skip(i as int).skip(1) =~= s@.skip(i + 1));
        if is_white_space_exec(c) {
            if cur.len() > 0 {
                let w = string_of(&cur);
                let ghost o = out@;
                out.push(w);
                assert(out@.map_values(|w: String| w@) =~= o.map_values(|w: String| w@).push(cur@));
                cur = Vec::new();
                assert(out@.map_values(|w: String| w@) + words_from(s@.skip(i + 1), cur@)
                    =~= o.map_values(|w: String| w@) + (seq![w@] + words_from(s@.skip(i + 1), Seq::empty())));
            }
        } else {
            cur.push(c);
        }
        i = i + 1;
    }
    assert(s@.skip(i as int) =~= Seq::<char>::empty());
    if cur.len() > 0 {
        let w = string_of(&cur);
        let ghost o = out@;
        out.push(w);
        assert(out@.map_values(|w: String| w@) =~= o.map_values(|w: String| w@).push(cur@));
    }
    assert(out@.map_values(|w: String| w@) =~= out@.map_values(|w: String| w@) + Seq::<Seq<char>>::empty());
    out
}

/// `s` begins with `prefix`.
pub open spec fn starts_with(s: Seq<char>, prefix: Seq<char>) -> bool {
    prefix.len() <= s.len() && s.take(prefix.len() as int) == prefix
}

pub fn starts_with_exec(s: &str, prefix: &str) -> (b: bool)
    ensures
        b == starts_with(s@, prefix@),
{
    let sv = chars_of(s);
    let pv = chars_of(prefix);
    let b = matches_at(&sv, 0, &pv);
    proof {
        if b {
            assert(sv@.take(pv@.len() as int) =~= sv@.subrange(0, pv@.len() as int));
        } else if pv@.len() <= sv@.len() {
            assert(sv@.take(pv@.len() as int) =~= sv@.subrange(0, pv@.len() as int));
        }
    }
    b
}

/// The characters that `trim` removes from either end: tab, line feed, carriage return
/// and space.
pub open spec fn is_trim_space(c: char) -> bool {
    c == '\t' || c == '\n' || c == '\r' || c == ' '
}

/// `s` without its leading trim spaces.
pub open spec fn trim_start(s: Seq<char>) -> Seq<char>
    decreases s.len(),
{
    if s.len() > 0 && is_trim_space(s[0]) { trim_start(s.skip(1)) } else { s }
}

/// `s` without its trailing trim spaces.
pub open spec fn trim_end(s: Seq<char>) -> Seq<char>
    decreases s.len(),
{
    if s.len() > 0 && is_trim_space(s.last()) { trim_end(s.drop_last()) } else { s }
}

/// `s` without leading and trailing tabs, line feeds, carriage returns and spaces.
pub open spec fn trim_spec(s: Seq<char>) -> Seq<char> {
    trim_start(trim_end(s))
}

proof fn lemma_trim_start_skip(s: Seq<char>, i: int)
    requires
        0 <= i <= s.len(),
        forall|k: int| 0 <= k < i ==> is_trim_space(#[trigger] s[k]),
    ensures
        trim_start(s) == trim_start(s.skip(i)),
    decreases i,
{
    if i > 0 {
        assert(s.skip(1).skip(i - 1) =~= s.skip(i));
        lemma_trim_start_skip(s.skip(1), i - 1);
    } else {
        assert(s.skip(0) =~= s);
    }
}

proof fn lemma_trim_end_take(s: Seq<char>, j: int)
    requires
        0 <= j <= s.len(),
        forall|k: int| j <= k < s.len() ==> is_trim_space(#[trigger] s[k]),
    ensures
        trim_end(s) == trim_end(s.take(j)),
    decreases s.len() - j,
{
    if j < s.len() {
        assert(s.drop_last().take(j) =~= s.take(j));
        lemma_trim_end_take(s.drop_last(), j);
    } else {
        assert(s.take(j) =~= s);
    }
}

/// Trims tabs, line feeds, carriage returns and spaces from both ends.
pub fn trim(s: &str) -> (r: String)
    ensures
        r@ == trim_spec(s@),
{
    let v = chars_of(s);
    let mut end: usize = v.len();
    while end > 0 && (v[end - 1] == '\t' || v[end - 1] == '\n' || v[end - 1] == '\r' || v[end - 1] == ' ')
        invariant
            end <= v.len(),
            forall|k: int| end <= k < v.len() ==> is_trim_space(#[trigger] v@[k]),
        decreases end,
    {
        end = end - 1;
    }
    proof {
        lemma_trim_end_take(v@, end as int);
        assert(!(end > 0 && is_trim_space(v@.take(end as int).last())));
    }
    let mut start: usize = 0;
    while start < end && (v[start] == '\t' || v[start] == '\n' || v[start] == '\r' || v[start] == ' ')
        invariant
            start <= end <= v.len(),
            forall|k: int| 0 <= k < start ==> is_trim_space(#[trigger] v@[k]),
        decreases end - start,
    {
        start = start + 1;
    }
    let mut out: Vec<char> = Vec::new();
    let mut i: usize = start;
    while i < end
        invariant
            start <= i <= end <= v.len(),
            out@ == v@.subrange(start as int, i as int),
        decreases end - i,
    {
        out.push(v[i]);
        i = i + 1;
        assert(out@ =~= v@.subrange(start as int, i as int));
    }
    proof {
        let t = v@.take(end as int);
        assert forall|k: int| 0 <= k < start implies is_trim_space(#[trigger] t[k]) by {
            assert(t[k] == v@[k]);
        }
        lemma_trim_start_skip(t, start as int);
        assert(t.skip(start as int) =~= v@.subrange(start as int, end as int));
        let u = t.skip(start as int);
        assert(!(u.len() > 0 && is_trim_space(u[0])));
    }
    string_of(&out)
}

/// What `str::to_uppercase` gives: the Unicode uppercase mapping of each character.
pub uninterp spec fn uppercase(s: Seq<char>) -> Seq<char>;

/// ASCII letters `a` to `z` mapped to `A` to `Z`, every other character unchanged.
pub open spec fn ascii_upper(s: Seq<char>) -> Seq<char> {
    s.map_values(|c: char| if 'a' <= c <= 'z' { ((c as u32) - 32) as char } else { c })
}

/// `str::to_uppercase`. The contract names the result, and states that a string of
/// ASCII characters gets its letters `a` to `z` mapped to `A` to `Z` (the Unicode
/// uppercase mapping of ASCII characters).
#[verifier::external_body]
pub(crate) fn to_uppercase(s: &str) -> (r: String)
    ensures
        r@ == uppercase(s@),
        vstd::utf8::is_ascii_chars(s@) ==> r@ == ascii_upper(s@),
{
    s.to_uppercase()
}

/// `String::from_utf8`: the text that the bytes encode, `None` where they are not
/// UTF-8.
#[verifier::external_body]
pub(crate) fn utf8_string(bytes: Vec<u8>) -> (r: Option<String>)
    ensures
        r is Some <==> vstd::utf8::valid_utf8(bytes@),
        r matches Some(s) ==> s@ == vstd::utf8::decode_utf8(bytes@),
{
    String::from_utf8(bytes).ok()
}

} // verus!
