//! Content identifiers of shared files, and the file names and record keys made of them.
use vstd::prelude::*;
use base64_simd::{Out, URL_SAFE};
use crate::text::{chars_of, string_of, extend_chars};
use crate::command_line::{split_on, split_from};

verus! {

/// A file's content identifier: the ULID it was imported under and the SHA-256 hash of
/// its content.
#[derive(Clone, Copy, Debug, PartialEq, Eq)]
pub struct Cid {
    pub id: u128,
    pub hash: [u8; 32],
}

/// Why a path names no file of a content identifier.
#[derive(Clone, Copy, Debug, PartialEq, Eq)]
pub enum CidError {
    InvalidInput,
}

/// `32` to the power `n`.
pub open spec fn pow32(n: nat) -> nat
    decreases n,
{
    if n == 0 {
        1
    } else {
        32 * pow32((n - 1) as nat)
    }
}

/// The digit of value `d` (`d < 32`) in Crockford's base 32 alphabet
/// `0123456789ABCDEFGHJKMNPQRSTVWXYZ`, which leaves out `I`, `L`, `O` and `U`.
pub open spec fn crockford_digit(d: nat) -> char {
    if d < 10 {
        (48 + d) as char
    } else if d < 18 {
        (55 + d) as char
    } else if d < 20 {
        (56 + d) as char
    } else if d < 22 {
        (57 + d) as char
    } else if d < 27 {
        (58 + d) as char
    } else {
        (59 + d) as char
    }
}

/// The value of a digit of Crockford's alphabet, a letter in either case.
pub open spec fn crockford_value(c: char) -> Option<nat> {
    let u = if 'a' <= c && c <= 'z' { c as int - 32 } else { c as int };
    if 48 <= u <= 57 {
        Some((u - 48) as nat)
    } else if 65 <= u <= 72 {
        Some((u - 55) as nat)
    } else if 74 <= u <= 75 {
        Some((u - 56) as nat)
    } else if 77 <= u <= 78 {
        Some((u - 57) as nat)
    } else if 80 <= u <= 84 {
        Some((u - 58) as nat)
    } else if 86 <= u <= 90 {
        Some((u - 59) as nat)
    } else {
        None
    }
}

/// The canonical text of a ULID (`Ulid::to_string`): the 26 base-32 digits of its
/// number, most significant first.
pub open spec fn ulid_text(id: u128) -> Seq<char> {
    Seq::new(26, |i: int| crockford_digit(((id as nat) / pow32((25 - i) as nat)) % 32))
}

/// The number that digits of Crockford's alphabet write, most significant first.
pub open spec fn crockford_number(s: Seq<char>) -> nat
    decreases s.len(),
{
    if s.len() == 0 {
        0
    } else {
        crockford_number(s.drop_last()) * 32 + match crockford_value(s.last()) {
            Some(v) => v,
            None => 0,
        }
    }
}

/// What `Ulid::from_string` gives for a text: for 26 digits of Crockford's alphabet, the
/// number they write, of which the bits beyond the 128th are shifted out; `None` for
/// any other text.
pub open spec fn ulid_parse(s: Seq<char>) -> Option<u128> {
    if s.len() == 26 && forall|i: int| 0 <= i < 26 ==> #[trigger] crockford_value(s[i]) is Some {
        Some((crockford_number(s) % 0x1_0000_0000_0000_0000_0000_0000_0000_0000nat) as u128)
    } else {
        None
    }
}

proof fn lemma_pow32_positive(n: nat)
    ensures
        pow32(n) >= 1,
    decreases n,
{
    if n > 0 {
        lemma_pow32_positive((n - 1) as nat);
    }
}

/// The first `k` digits of a ULID's text write its number without its last `26 - k`
/// digits.
proof fn lemma_ulid_prefix(id: u128, k: nat)
    requires
        k <= 26,
    ensures
        crockford_number(ulid_text(id).take(k as int)) == (id as nat) / pow32((26 - k) as nat),
    decreases k,
{
    let n = id as nat;
    if k == 0 {
        assert(ulid_text(id).take(0) =~= Seq::<char>::empty());
        assert(pow32(26) == 0x4_0000_0000_0000_0000_0000_0000_0000_0000int) by {
            reveal_with_fuel(pow32, 27);
        }
        vstd::arithmetic::div_mod::lemma_basic_div(n as int, pow32(26) as int);
    } else {
        let t = ulid_text(id).take(k as int);
        assert(t.drop_last() =~= ulid_text(id).take(k - 1));
        lemma_ulid_prefix(id, (k - 1) as nat);
        let e = (26 - k) as nat;
        lemma_pow32_positive(e);
        let x = n / pow32(e);
        let d = x % 32;
        vstd::arithmetic::div_mod::lemma_mod_pos_bound(x as int, 32);
        assert(t.last() == crockford_digit(d));
        assert(crockford_value(crockford_digit(d)) == Some(d));
        assert(pow32((26 - (k - 1)) as nat) == pow32(e) * 32);
        vstd::arithmetic::div_mod::lemma_div_denominator(n as int, pow32(e) as int, 32);
        vstd::arithmetic::div_mod::lemma_fundamental_div_mod(x as int, 32);
        assert(crockford_number(t) == (x / 32) * 32 + d);
    }
}

/// A ULID's text is 26 digits of Crockford's alphabet, which `Ulid::from_string` reads
/// back as the ULID.
pub proof fn lemma_ulid_text_reads_back(id: u128)
    ensures
        ulid_text(id).len() == 26,
        forall|i: int| 0 <= i < 26 ==> is_crockford_char(#[trigger] ulid_text(id)[i]),
        ulid_parse(ulid_text(id)) == Some(id),
{
    let t = ulid_text(id);
    assert forall|i: int| 0 <= i < 26 implies is_crockford_char(#[trigger] t[i]) && crockford_value(t[i]) is Some by {
        lemma_pow32_positive((25 - i) as nat);
        vstd::arithmetic::div_mod::lemma_mod_pos_bound(((id as nat) / pow32((25 - i) as nat)) as int, 32);
    }
    lemma_ulid_prefix(id, 26);
    assert(t.take(26) =~= t);
    let n = id as nat;
    vstd::arithmetic::div_mod::lemma_fundamental_div_mod_converse(n as int, 1, n as int, 0);
    assert(crockford_number(t) == n);
    vstd::arithmetic::div_mod::lemma_small_mod(n, 0x1_0000_0000_0000_0000_0000_0000_0000_0000nat);
}

/// `ulid::Ulid::generate`, as its number: a new ULID, made of the time and of chance,
/// so nothing is known of it beforehand.
#[verifier::external_body]
pub(crate) fn fresh_ulid() -> (r: u128) {
    ulid::Ulid::generate().0
}

/// The characters of Crockford's base 32 alphabet that a ULID is written in.
pub open spec fn is_crockford_char(c: char) -> bool {
    ('0' <= c && c <= '9') || ('A' <= c && c <= 'Z' && c != 'I' && c != 'L' && c != 'O' && c != 'U')
}

/// The characters of URL-safe base 64 with its padding.
pub open spec fn is_url_safe_char(c: char) -> bool {
    ('0' <= c && c <= '9') || ('A' <= c && c <= 'Z') || ('a' <= c && c <= 'z') || c == '-' || c == '_' || c == '='
}

/// `Ulid(id).to_string()`: the crate's `base32::encode`, which writes the 26 base-32
/// digits of the number, most significant first, in Crockford's alphabet.
#[verifier::external_body]
pub(crate) fn ulid_to_string(id: u128) -> (r: String)
    ensures
        r@ == ulid_text(id),
{
    ulid::Ulid(id).to_string()
}

/// `Ulid::from_string`, the value of the ULID where it parses: the crate's
/// `base32::decode`, which takes 26 bytes, each a digit of Crockford's alphabet in either
/// case, and shifts each digit's five bits into a `u128`.
#[verifier::external_body]
pub(crate) fn ulid_from_str(s: &str) -> (r: Option<u128>)
    ensures
        r == ulid_parse(s@),
{
    ulid::Ulid::from_string(s).ok().map(|u| u.0)
}

/// The URL-safe base 64 text, with padding, of some bytes (`base64_simd::URL_SAFE`).
pub uninterp spec fn b64_text(bytes: Seq<u8>) -> Seq<char>;

/// What `URL_SAFE.decoded_length` gives for a text: the number of bytes it decodes to,
/// `None` where its length or padding is wrong.
pub uninterp spec fn b64_decoded_len(s: Seq<char>) -> Option<usize>;

/// What `URL_SAFE.decode` gives for a text, `None` for an error.
pub uninterp spec fn b64_decode(s: Seq<char>) -> Option<Seq<u8>>;

/// `URL_SAFE.encode_as_str` of a hash into a 64-byte buffer: 44 characters of the
/// URL-safe alphabet and padding, which decode back to the hash.
#[verifier::external_body]
fn b64_encode_hash(hash: &[u8; 32]) -> (r: String)
    ensures
        r@ == b64_text(hash@),
        r@.len() == 44,
        forall|i: int| 0 <= i < 44 ==> is_url_safe_char(#[trigger] r@[i]),
        b64_decoded_len(r@) == Some(32usize),
        b64_decode(r@) == Some(hash@),
{
    let mut out = [0u8; 64];
    URL_SAFE.encode_as_str(&hash[..], Out::from_slice(&mut out[..])).to_string()
}

/// `URL_SAFE.decoded_length`.
#[verifier::external_body]
fn b64_decoded_length(s: &str) -> (r: Option<usize>)
    ensures
        r == b64_decoded_len(s@),
{
    URL_SAFE.decoded_length(s.as_bytes()).ok()
}

/// `URL_SAFE.decode` into a 32-byte buffer, which panics for a text of more bytes: the
/// decoded bytes, as many as `decoded_length` says, or `None` for an error (always
/// where `decoded_length` fails, since `decode` calls it first).
#[verifier::external_body]
fn b64_decode_into_hash(s: &str) -> (r: Option<Vec<u8>>)
    requires
        b64_decoded_len(s@) matches Some(m) ==> m <= 32,
    ensures
        r matches Some(v) ==> b64_decode(s@) == Some(v@) && b64_decoded_len(s@) == Some(v@.len() as usize),
        r is None ==> b64_decode(s@) is None,
        b64_decoded_len(s@) is None ==> r is None,
{
    let mut hash = [0u8; 32];
    URL_SAFE.decode(s.as_bytes(), Out::from_slice(&mut hash[..])).ok().map(|o| o.to_vec())
}

/// What `Path::file_stem` gives for a path, as text.
pub uninterp spec fn path_stem(p: Seq<char>) -> Option<Seq<char>>;

/// The stem of a file name without `/`, as `Path::file_stem` documents it: none for an
/// empty name, `.` or `..`; else the whole name if it holds no `.` after its first
/// character; else the part before the last `.`.
pub open spec fn plain_name_stem(p: Seq<char>) -> Option<Seq<char>> {
    if p.len() == 0 || p == seq!['.'] || p == seq!['.', '.'] {
        None
    } else if forall|i: int| 1 <= i < p.len() ==> p[i] != '.' {
        Some(p)
    } else {
        let k = choose|k: int| 1 <= k < p.len() && p[k] == '.' && forall|j: int| k < j < p.len() ==> p[j] != '.';
        Some(p.take(k))
    }
}

/// The path holds no `/`, `\` or `:`: it is a bare file name, on Unix where only `/`
/// separates and on Windows where `\` separates too and `:` ends a drive prefix.
pub open spec fn is_plain_name(p: Seq<char>) -> bool {
    forall|i: int| 0 <= i < p.len() ==> p[i] != '/' && p[i] != '\\' && p[i] != ':'
}

/// The stem of a path: for a bare file name as the documentation of
/// `Path::file_stem` describes it, else what `file_stem` gives.
pub open spec fn stem_of(p: Seq<char>) -> Option<Seq<char>> {
    if is_plain_name(p) { plain_name_stem(p) } else { path_stem(p) }
}

/// `Path::new(p).file_stem()` as text. For a bare file name (no `/`, `\` or `:`) it is
/// the stem that the documentation of `file_stem` describes, on Unix and on Windows.
#[verifier::external_body]
fn file_stem(p: &str) -> (r: Option<String>)
    ensures
        match r {
            Some(s) => path_stem(p@) == Some(s@),
            None => path_stem(p@) is None,
        },
        is_plain_name(p@) ==> match r {
            Some(s) => plain_name_stem(p@) == Some(s@),
            None => plain_name_stem(p@) is None,
        },
{
    std::path::Path::new(p).file_stem().and_then(|s| s.to_str()).map(|s| s.to_string())
}

/// The file name of a content identifier: its ULID, `+`, its hash in URL-safe base 64,
/// and the extension `.data`.
pub open spec fn cid_file_name(id: u128, hash: Seq<u8>) -> Seq<char> {
    ulid_text(id) + seq!['+'] + b64_text(hash) + seq!['.', 'd', 'a', 't', 'a']
}

/// What a path names: its stem split at `+`, the first part a ULID, the second a hash of
/// 32 bytes in URL-safe base 64.
pub open spec fn cid_of_path(p: Seq<char>) -> Option<(u128, Seq<u8>)> {
    match stem_of(p) {
        None => None,
        Some(stem) => {
            let parts = split_on(stem, '+');
            match ulid_parse(parts[0]) {
                None => None,
                Some(id) => if parts.len() < 2 {
                    None
                } else {
                    match b64_decode(parts[1]) {
                        Some(h) => if h.len() == 32 { Some((id, h)) } else { None },
                        None => None,
                    }
                },
            }
        },
    }
}

/// The path is read without the base 64 decoder panicking: its hash part does not
/// decode to more than 32 bytes.
pub open spec fn cid_path_in_bounds(p: Seq<char>) -> bool {
    match stem_of(p) {
        None => true,
        Some(stem) => {
            let parts = split_on(stem, '+');
            ulid_parse(parts[0]) is None || parts.len() < 2 || match b64_decoded_len(parts[1]) {
                Some(m) => m <= 32,
                None => true,
            }
        },
    }
}

/// The 16 bytes of a value, most significant first (`u128::to_be_bytes`).
pub open spec fn be_bytes(x: u128) -> Seq<u8> {
    Seq::new(16, |i: int| ((x >> ((8 * (15 - i)) as u128)) & 0xff) as u8)
}

impl Cid {
    /// The name of the file holding the content.
    pub fn to_path(&self) -> (r: String)
        ensures
            r@ == cid_file_name(self.id, self.hash@),
            cid_path_in_bounds(r@),
            cid_of_path(r@) == Some((self.id, self.hash@)),
    {
        let id = ulid_to_string(self.id);
        proof {
            lemma_ulid_text_reads_back(self.id);
        }
        let hash = b64_encode_hash(&self.hash);
        let mut v = chars_of(id.as_str());
        v.push('+');
        extend_chars(&mut v, &chars_of(hash.as_str()));
        let ext: Vec<char> = vec!['.', 'd', 'a', 't', 'a'];
        extend_chars(&mut v, &ext);
        assert(v@ =~= cid_file_name(self.id, self.hash@));
        proof {
            lemma_file_name_reads_back(id@, hash@);
        }
        string_of(&v)
    }

    /// The key under which the content is announced: the ULID's 16 bytes, most
    /// significant first, then the hash.
    pub fn to_key(&self) -> (r: Vec<u8>)
        ensures
            r@ == be_bytes(self.id) + self.hash@,
    {
        let mut r: Vec<u8> = Vec::new();
        let mut i: usize = 0;
        while i < 16
            invariant
                i <= 16,
                r@ == be_bytes(self.id).take(i as int),
            decreases 16 - i,
        {
            let shift: u128 = (8 * (15 - i)) as u128;
            let b: u8 = ((self.id >> shift) & 0xff) as u8;
            r.push(b);
            assert(be_bytes(self.id).take(i + 1) =~= be_bytes(self.id).take(i as int).push(b));
            i = i + 1;
        }
        let mut j: usize = 0;
        while j < 32
            invariant
                j <= 32,
                r@ == be_bytes(self.id) + self.hash@.take(j as int),
            decreases 32 - j,
        {
            r.push(self.hash[j]);
            assert(self.hash@.take(j + 1) =~= self.hash@.take(j as int).push(self.hash@[j as int]));
            j = j + 1;
        }
        assert(self.hash@.take(32) =~= self.hash@);
        r
    }

    /// The content identifier that a path names, where it names one.
    pub fn to_cid(path: &str) -> (r: Result<Cid, CidError>)
        requires
            cid_path_in_bounds(path@),
        ensures
            match cid_of_path(path@) {
                Some((id, h)) => r matches Ok(c) && c.id == id && c.hash@ == h,
                None => r == Err::<Cid, CidError>(CidError::InvalidInput),
            },
    {
        let stem = match file_stem(path) {
            Some(s) => s,
            None => return Err(CidError::InvalidInput),
        };
        let parts = split_chars_str(stem.as_str());
        let first = string_of(&parts[0]);
        let id = match ulid_from_str(first.as_str()) {
            Some(id) => id,
            None => return Err(CidError::InvalidInput),
        };
        if parts.len() < 2 {
            return Err(CidError::InvalidInput);
        }
        let second = string_of(&parts[1]);
        let decoded = match b64_decode_into_hash(second.as_str()) {
            Some(v) => v,
            None => return Err(CidError::InvalidInput),
        };
        if decoded.len() != 32 {
            return Err(CidError::InvalidInput);
        }
        let mut hash = [0u8; 32];
        let mut i: usize = 0;
        while i < 32
            invariant
                i <= 32,
                decoded.len() == 32,
                forall|k: int| 0 <= k < i ==> hash@[k] == decoded@[k],
            decreases 32 - i,
        {
            hash[i] = decoded[i];
            i = i + 1;
        }
        assert(hash@ =~= decoded@);
        Ok(Cid { id, hash })
    }
}

proof fn lemma_split_from_plain(s: Seq<char>, sep: char, cur: Seq<char>)
    requires
        forall|i: int| 0 <= i < s.len() ==> s[i] != sep,
    ensures
        split_from(s, sep, cur) == seq![cur + s],
    decreases s.len(),
{
    if s.len() == 0 {
        assert(cur + s =~= cur);
    } else {
        lemma_split_from_plain(s.skip(1), sep, cur.push(s[0]));
        assert(cur.push(s[0]) + s.skip(1) =~= cur + s);
    }
}

proof fn lemma_split_two(a: Seq<char>, b: Seq<char>, sep: char)
    requires
        forall|i: int| 0 <= i < a.len() ==> a[i] != sep,
        forall|i: int| 0 <= i < b.len() ==> b[i] != sep,
    ensures
        split_on(a + seq![sep] + b, sep) == seq![a, b],
    decreases a.len(),
{
    lemma_split_from_cur(a, seq![sep] + b, sep, Seq::empty());
    assert(a + seq![sep] + b =~= a + (seq![sep] + b));
    let t = seq![sep] + b;
    assert(t.skip(1) =~= b);
    lemma_split_from_plain(b, sep, Seq::empty());
    assert(Seq::<char>::empty() + b =~= b);
    assert(Seq::<char>::empty() + a =~= a);
}

proof fn lemma_split_from_cur(a: Seq<char>, rest: Seq<char>, sep: char, cur: Seq<char>)
    requires
        forall|i: int| 0 <= i < a.len() ==> a[i] != sep,
    ensures
        split_from(a + rest, sep, cur) == split_from(rest, sep, cur + a),
    decreases a.len(),
{
    if a.len() == 0 {
        assert(a + rest =~= rest);
        assert(cur + a =~= cur);
    } else {
        assert((a + rest).skip(1) =~= a.skip(1) + rest);
        lemma_split_from_cur(a.skip(1), rest, sep, cur.push(a[0]));
        assert(cur.push(a[0]) + a.skip(1) =~= cur + a);
    }
}

/// The file name of a content identifier reads back as the content identifier.
proof fn lemma_file_name_reads_back(idt: Seq<char>, ht: Seq<char>)
    requires
        idt.len() == 26,
        forall|i: int| 0 <= i < 26 ==> is_crockford_char(#[trigger] idt[i]),
        ht.len() == 44,
        forall|i: int| 0 <= i < 44 ==> is_url_safe_char(#[trigger] ht[i]),
    ensures
        stem_of(idt + seq!['+'] + ht + seq!['.', 'd', 'a', 't', 'a']) == Some(idt + seq!['+'] + ht),
        split_on(idt + seq!['+'] + ht, '+') == seq![idt, ht],
{
    let stem = idt + seq!['+'] + ht;
    let p = stem + seq!['.', 'd', 'a', 't', 'a'];
    assert forall|i: int| 0 <= i < stem.len() implies stem[i] != '.' && stem[i] != '/' && stem[i] != '\\' && stem[i] != ':' by {
        if i < 26 {
            assert(stem[i] == idt[i]);
        } else if i > 26 {
            assert(stem[i] == ht[i - 27]);
        }
    }
    assert(is_plain_name(p));
    let k = stem.len() as int;
    assert(p[k] == '.');
    assert forall|j: int| k < j < p.len() implies p[j] != '.' by {}
    assert(!(forall|i: int| 1 <= i < p.len() ==> p[i] != '.'));
    let kc = choose|kc: int| 1 <= kc < p.len() && p[kc] == '.' && forall|j: int| kc < j < p.len() ==> p[j] != '.';
    assert(kc == k) by {
        if kc < k {
            assert(stem[kc] == p[kc]);
        }
    }
    assert(p.take(k) =~= stem);
    assert(p != seq!['.']);
    assert(p != seq!['.', '.']);
    assert forall|i: int| 0 <= i < idt.len() implies idt[i] != '+' by {}
    assert forall|i: int| 0 <= i < ht.len() implies ht[i] != '+' by {}
    lemma_split_two(idt, ht, '+');
}

impl Cid {
    /// `to_cid` where it does not panic: `None` for a path whose hash part decodes to
    /// more than 32 bytes, on which the decoder's output buffer is too small.
    pub fn try_to_cid(path: &str) -> (r: Option<Result<Cid, CidError>>)
        ensures
            cid_path_in_bounds(path@) <==> r is Some,
            r matches Some(res) ==> match cid_of_path(path@) {
                Some((id, h)) => res matches Ok(c) && c.id == id && c.hash@ == h,
                None => res == Err::<Cid, CidError>(CidError::InvalidInput),
            },
    {
        let stem = match file_stem(path) {
            Some(s) => s,
            None => return Some(Cid::to_cid(path)),
        };
        let parts = split_chars_str(stem.as_str());
        let first = string_of(&parts[0]);
        if ulid_from_str(first.as_str()).is_none() || parts.len() < 2 {
            return Some(Cid::to_cid(path));
        }
        let second = string_of(&parts[1]);
        match b64_decoded_length(second.as_str()) {
            Some(m) => if m > 32 {
                None
            } else {
                Some(Cid::to_cid(path))
            },
            None => Some(Cid::to_cid(path)),
        }
    }
}

fn split_chars_str(s: &str) -> (r: Vec<Vec<char>>)
    ensures
        r@.map_values(|v: Vec<char>| v@) == split_on(s@, '+'),
        r.len() > 0,
{
    let r = crate::command_line::split_chars(&chars_of(s), '+');
    proof {
        crate::command_line::lemma_split_nonempty(s@, '+');
    }
    r
}

} // verus!
