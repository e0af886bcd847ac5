//! Character-level helpers: equality, trimming, case mapping, decimal and hex rendering, and the
//! conversions between strings, characters and bytes.
use vstd::prelude::*;
use vstd::utf8::*;

verus! {

/// The characters of `s` in order.
pub(crate) fn chars_of(s: &str) -> (r: Vec<char>)
    ensures
        r@ == s@,
{
    broadcast use vstd::string::axiom_spec_iter;
    let mut r: Vec<char> = Vec::new();
    for c in iter: s.chars()
        invariant
            iter.seq() == s@,
            r@ == iter.seq().take(iter.index() as int),
    {
        r.push(c);
        assert(r@ =~= iter.seq().take(iter.index() as int + 1));
    }
    assert(r@ =~= s@);
    r
}

/// Returns the string made of `chars` (calls `String::from_iter` on the characters).
#[verifier::external_body]
pub(crate) fn string_from_chars(chars: &[char]) -> (r: String)
    ensures
        r@ == chars@,
{
    chars.iter().collect()
}

/// Decodes `bytes` as UTF-8 (calls `String::from_utf8`): a string exactly when the bytes are
/// valid UTF-8, holding the characters they encode.
#[verifier::external_body]
pub(crate) fn string_from_utf8(bytes: Vec<u8>) -> (r: Option<String>)
    ensures
        (r is Some) <==> valid_utf8(bytes@),
        r matches Some(s) ==> s@ == decode_utf8(bytes@),
{
    String::from_utf8(bytes).ok()
}

/// The length of the longest prefix of `b`, no longer than `n`, that is valid UTF-8.
pub open spec fn utf8_prefix_len(b: Seq<u8>, n: int) -> int
    decreases n,
{
    if n <= 0 {
        0
    } else if valid_utf8(b.subrange(0, n)) {
        n
    } else {
        utf8_prefix_len(b, n - 1)
    }
}

/// The longest valid prefix is no longer than the bound.
pub proof fn lemma_utf8_prefix_len_bounds(b: Seq<u8>, n: int)
    requires
        0 <= n,
    ensures
        0 <= utf8_prefix_len(b, n) <= n,
    decreases n,
{
    if n > 0 {
        lemma_utf8_prefix_len_bounds(b, n - 1);
    }
}

/// What `Utf8Error::error_len` reports of bytes that are not UTF-8: the length of the bad
/// sequence that follows the valid prefix, or `None` where the bytes end inside a character.
pub uninterp spec fn utf8_error_len_spec(bytes: Seq<u8>) -> Option<usize>;

/// Checks `bytes` with `std::str::from_utf8`: `None` exactly when they are valid UTF-8, else
/// the error's `valid_up_to()`, which std documents as the longest prefix that is valid UTF-8,
/// and its `error_len()`, which is named here and not stated.
#[verifier::external_body]
pub(crate) fn utf8_error(bytes: &[u8]) -> (r: Option<(usize, Option<usize>)>)
    ensures
        (r is None) <==> valid_utf8(bytes@),
        r matches Some((i, n)) ==> i == utf8_prefix_len(bytes@, bytes@.len() as int) && n
            == utf8_error_len_spec(bytes@),
{
    match std::str::from_utf8(bytes) {
        Ok(_) => None,
        Err(e) => Some((e.valid_up_to(), e.error_len())),
    }
}

/// Whether two strings hold the same characters.
pub fn str_eq(a: &str, b: &str) -> (r: bool)
    ensures
        r == (a@ == b@),
{
    let x = a.as_bytes();
    let y = b.as_bytes();
    proof {
        encode_utf8_decode_utf8(a@);
        encode_utf8_decode_utf8(b@);
    }
    assert(a@ == b@ ==> x@ == y@);
    assert(x@ == y@ ==> a@ == b@);
    if x.len() != y.len() {
        return false;
    }
    let n = x.len();
    let mut i: usize = 0;
    while i < n
        invariant
            n == x@.len(),
            n == y@.len(),
            i <= n,
            forall|k: int| 0 <= k < i ==> x@[k] == y@[k],
            a@ == b@ ==> x@ == y@,
            x@ == y@ ==> a@ == b@,
        decreases n - i,
    {
        if x[i] != y[i] {
            assert(x@ != y@);
            return false;
        }
        i = i + 1;
    }
    assert(x@ =~= y@);
    true
}

/// Whether two character vectors are equal.
pub fn chars_eq(a: &[char], b: &[char]) -> (r: bool)
    ensures
        r == (a@ == b@),
{
    if a.len() != b.len() {
        return false;
    }
    let n = a.len();
    let mut i: usize = 0;
    while i < n
        invariant
            n == a@.len(),
            n == b@.len(),
            i <= n,
            forall|k: int| 0 <= k < i ==> a@[k] == b@[k],
        decreases n - i,
    {
        if a[i] != b[i] {
            return false;
        }
        i = i + 1;
    }
    assert(a@ =~= b@);
    true
}

/// The characters with the Unicode `White_Space` property, which `char::is_whitespace` and
/// `str::trim` go by.
pub open spec fn is_whitespace_spec(c: char) -> bool {
    let u = c as u32;
    ||| 0x09 <= u <= 0x0d
    ||| u == 0x20
    ||| u == 0x85
    ||| u == 0xa0
    ||| u == 0x1680
    ||| 0x2000 <= u <= 0x200a
    ||| u == 0x2028
    ||| u == 0x2029
    ||| u == 0x202f
    ||| u == 0x205f
    ||| u == 0x3000
}

/// Whether `c` is white space in the Unicode sense.
pub fn is_whitespace(c: char) -> (r: bool)
    ensures
        r == is_whitespace_spec(c),
{
    let u = c as u32;
    (0x09 <= u && u <= 0x0d) || u == 0x20 || u == 0x85 || u == 0xa0 || u == 0x1680 || (0x2000
        <= u && u <= 0x200a) || u == 0x2028 || u == 0x2029 || u == 0x202f || u == 0x205f || u
        == 0x3000
}

/// Whether `c` is ASCII white space (space, tab, line feed, form feed, carriage return).
pub open spec fn is_ascii_whitespace_spec(c: char) -> bool {
    c == ' ' || c == '\t' || c == '\n' || c == '\x0C' || c == '\r'
}

/// `s` without the leading characters that satisfy `p`.
pub open spec fn strip_start(s: Seq<char>, p: spec_fn(char) -> bool) -> Seq<char>
    decreases s.len(),
{
    if s.len() > 0 && p(s[0]) {
        strip_start(s.drop_first(), p)
    } else {
        s
    }
}

/// `s` without the trailing characters that satisfy `p`.
pub open spec fn strip_end(s: Seq<char>, p: spec_fn(char) -> bool) -> Seq<char>
    decreases s.len(),
{
    if s.len() > 0 && p(s.last()) {
        strip_end(s.drop_last(), p)
    } else {
        s
    }
}

/// `s` without leading and trailing white space, as `str::trim` returns it.
pub open spec fn trim_spec(s: Seq<char>) -> Seq<char> {
    strip_end(strip_start(s, |c: char| is_whitespace_spec(c)), |c: char| is_whitespace_spec(c))
}

/// `s` without leading and trailing copies of `c`, as `str::trim_matches` returns it.
pub open spec fn trim_char_spec(s: Seq<char>, c: char) -> Seq<char> {
    strip_end(strip_start(s, eq_char(c)), eq_char(c))
}

/// The predicate that holds of `c` alone.
pub open spec fn eq_char(c: char) -> spec_fn(char) -> bool {
    |x: char| x == c
}

proof fn lemma_strip_start_skip(s: Seq<char>, p: spec_fn(char) -> bool, i: int)
    requires
        0 <= i <= s.len(),
        forall|k: int| 0 <= k < i ==> p(#[trigger] s[k]),
    ensures
        strip_start(s, p) == strip_start(s.subrange(i, s.len() as int), p),
    decreases i,
{
    if i > 0 {
        assert(s.drop_first().subrange(i - 1, s.drop_first().len() as int) =~= s.subrange(
            i,
            s.len() as int,
        ));
        lemma_strip_start_skip(s.drop_first(), p, i - 1);
    } else {
        assert(s.subrange(0, s.len() as int) =~= s);
    }
}

proof fn lemma_strip_end_skip(s: Seq<char>, p: spec_fn(char) -> bool, j: int)
    requires
        0 <= j <= s.len(),
        forall|k: int| j <= k < s.len() ==> p(#[trigger] s[k]),
    ensures
        strip_end(s, p) == strip_end(s.subrange(0, j), p),
    decreases s.len() - j,
{
    if j < s.len() {
        assert(s.drop_last().subrange(0, j) =~= s.subrange(0, j));
        lemma_strip_end_skip(s.drop_last(), p, j);
    } else {
        assert(s.subrange(0, s.len() as int) =~= s);
    }
}

/// `chars` with leading and trailing white space removed.
pub fn trim_chars(chars: &[char]) -> (r: Vec<char>)
    ensures
        r@ == trim_spec(chars@),
{
    let n = chars.len();
    let mut i: usize = 0;
    while i < n && is_whitespace(chars[i])
        invariant
            n == chars@.len(),
            i <= n,
            forall|k: int| 0 <= k < i ==> is_whitespace_spec(#[trigger] chars@[k]),
        decreases n - i,
    {
        i = i + 1;
    }
    let mut j: usize = n;
    while j > i && is_whitespace(chars[j - 1])
        invariant
            n == chars@.len(),
            i <= j <= n,
            forall|k: int| j <= k < n ==> is_whitespace_spec(#[trigger] chars@[k]),
        decreases j,
    {
        j = j - 1;
    }
    let ghost p = |c: char| is_whitespace_spec(c);
    proof {
        lemma_strip_start_skip(chars@, p, i as int);
        let rest = chars@.subrange(i as int, n as int);
        assert(rest.len() == 0 || !p(rest[0]));
        assert(strip_start(rest, p) == rest);
        assert forall|k: int| j - i <= k < rest.len() implies p(#[trigger] rest[k]) by {
            assert(rest[k] == chars@[i + k]);
        }
        lemma_strip_end_skip(rest, p, j - i);
        let kept = rest.subrange(0, j - i);
        assert(kept.len() == 0 || !p(kept.last()));
        assert(kept =~= chars@.subrange(i as int, j as int));
    }
    slice_chars(chars, i, j)
}

/// `chars` with leading and trailing copies of `c` removed.
pub fn trim_char(chars: &[char], c: char) -> (r: Vec<char>)
    ensures
        r@ == trim_char_spec(chars@, c),
{
    let n = chars.len();
    let mut i: usize = 0;
    while i < n && chars[i] == c
        invariant
            n == chars@.len(),
            i <= n,
            forall|k: int| 0 <= k < i ==> #[trigger] chars@[k] == c,
        decreases n - i,
    {
        i = i + 1;
    }
    let mut j: usize = n;
    while j > i && chars[j - 1] == c
        invariant
            n == chars@.len(),
            i <= j <= n,
            forall|k: int| j <= k < n ==> #[trigger] chars@[k] == c,
        decreases j,
    {
        j = j - 1;
    }
    let ghost p = eq_char(c);
    proof {
        lemma_strip_start_skip(chars@, p, i as int);
        let rest = chars@.subrange(i as int, n as int);
        assert(rest.len() == 0 || !p(rest[0]));
        assert(strip_start(rest, p) == rest);
        assert forall|k: int| j - i <= k < rest.len() implies p(#[trigger] rest[k]) by {
            assert(rest[k] == chars@[i + k]);
        }
        lemma_strip_end_skip(rest, p, j - i);
        let kept = rest.subrange(0, j - i);
        assert(kept.len() == 0 || !p(kept.last()));
        assert(kept =~= chars@.subrange(i as int, j as int));
    }
    slice_chars(chars, i, j)
}

/// The characters `chars[a..b]` as a new vector.
pub fn slice_chars(chars: &[char], a: usize, b: usize) -> (r: Vec<char>)
    requires
        a <= b <= chars@.len(),
    ensures
        r@ == chars@.subrange(a as int, b as int),
{
    let mut r: Vec<char> = Vec::new();
    let mut i = a;
    while i < b
        invariant
            a <= i <= b <= chars@.len(),
            r@ == chars@.subrange(a as int, i as int),
        decreases b - i,
    {
        r.push(chars[i]);
        i = i + 1;
        assert(r@ =~= chars@.subrange(a as int, i as int));
    }
    r
}

/// Appends every character of `more` to `out`.
pub fn push_chars(out: &mut Vec<char>, more: &[char])
    ensures
        final(out)@ == old(out)@ + more@,
{
    let n = more.len();
    let mut i: usize = 0;
    while i < n
        invariant
            n == more@.len(),
            i <= n,
            out@ == old(out)@ + more@.subrange(0, i as int),
        decreases n - i,
    {
        out.push(more[i]);
        i = i + 1;
        assert(out@ =~= old(out)@ + more@.subrange(0, i as int));
    }
    assert(more@.subrange(0, n as int) =~= more@);
}

/// Appends the characters of `s` to `out`.
pub fn push_str(out: &mut Vec<char>, s: &str)
    ensures
        final(out)@ == old(out)@ + s@,
{
    let c = chars_of(s);
    push_chars(out, c.as_slice());
}

/// ASCII upper-case letters mapped to lower case; every other character unchanged.
pub open spec fn ascii_lower(c: char) -> char {
    if 'A' <= c && c <= 'Z' {
        ((c as u32) + 32) as char
    } else {
        c
    }
}

/// ASCII lower-case letters mapped to upper case; every other character unchanged.
pub open spec fn ascii_upper(c: char) -> char {
    if 'a' <= c && c <= 'z' {
        ((c as u32) - 32) as char
    } else {
        c
    }
}

/// `chars` with ASCII letters mapped to lower case, as `str::to_ascii_lowercase` does.
pub fn to_ascii_lower(chars: &[char]) -> (r: Vec<char>)
    ensures
        r@ == chars@.map_values(|c: char| ascii_lower(c)),
{
    let n = chars.len();
    let mut r: Vec<char> = Vec::new();
    let mut i: usize = 0;
    while i < n
        invariant
            n == chars@.len(),
            i <= n,
            r@ == chars@.subrange(0, i as int).map_values(|c: char| ascii_lower(c)),
        decreases n - i,
    {
        let c = chars[i];
        let l = if 'A' <= c && c <= 'Z' {
            ((c as u8) + 32) as char
        } else {
            c
        };
        r.push(l);
        i = i + 1;
        assert(r@ =~= chars@.subrange(0, i as int).map_values(|c: char| ascii_lower(c)));
    }
    assert(chars@.subrange(0, n as int) =~= chars@);
    r
}

/// `chars` with ASCII letters mapped to upper case, as `str::to_ascii_uppercase` does.
pub fn to_ascii_upper(chars: &[char]) -> (r: Vec<char>)
    ensures
        r@ == chars@.map_values(|c: char| ascii_upper(c)),
{
    let n = chars.len();
    let mut r: Vec<char> = Vec::new();
    let mut i: usize = 0;
    while i < n
        invariant
            n == chars@.len(),
            i <= n,
            r@ == chars@.subrange(0, i as int).map_values(|c: char| ascii_upper(c)),
        decreases n - i,
    {
        let c = chars[i];
        let u = if 'a' <= c && c <= 'z' {
            ((c as u8) - 32) as char
        } else {
            c
        };
        r.push(u);
        i = i + 1;
        assert(r@ =~= chars@.subrange(0, i as int).map_values(|c: char| ascii_upper(c)));
    }
    assert(chars@.subrange(0, n as int) =~= chars@);
    r
}

/// Whether `s` ends with `suffix`.
pub open spec fn ends_with_spec(s: Seq<char>, suffix: Seq<char>) -> bool {
    s.len() >= suffix.len() && s.subrange(s.len() - suffix.len(), s.len() as int) == suffix
}

/// Whether `s` starts with `prefix`.
pub open spec fn starts_with_spec<T>(s: Seq<T>, prefix: Seq<T>) -> bool {
    s.len() >= prefix.len() && s.subrange(0, prefix.len() as int) == prefix
}

/// Whether `chars` ends with the characters of `suffix`.
pub fn ends_with(chars: &[char], suffix: &str) -> (r: bool)
    ensures
        r == ends_with_spec(chars@, suffix@),
{
    let suf = chars_of(suffix);
    let n = chars.len();
    let m = suf.len();
    if m > n {
        return false;
    }
    let tail = slice_chars(chars, n - m, n);
    chars_eq(tail.as_slice(), suf.as_slice())
}

/// Whether `chars` starts with the characters of `prefix`.
pub fn starts_with(chars: &[char], prefix: &str) -> (r: bool)
    ensures
        r == starts_with_spec(chars@, prefix@),
{
    let pre = chars_of(prefix);
    let n = chars.len();
    let m = pre.len();
    if m > n {
        return false;
    }
    let head = slice_chars(chars, 0, m);
    chars_eq(head.as_slice(), pre.as_slice())
}

/// Whether `c` occurs in `s`.
pub open spec fn contains_char_spec(s: Seq<char>, c: char) -> bool {
    exists|i: int| 0 <= i < s.len() && s[i] == c
}

/// Whether `c` occurs in `chars`.
pub fn contains_char(chars: &[char], c: char) -> (r: bool)
    ensures
        r == contains_char_spec(chars@, c),
{
    let n = chars.len();
    let mut i: usize = 0;
    while i < n
        invariant
            n == chars@.len(),
            i <= n,
            forall|k: int| 0 <= k < i ==> chars@[k] != c,
        decreases n - i,
    {
        if chars[i] == c {
            return true;
        }
        i = i + 1;
    }
    false
}

/// The index of the first occurrence of `c` in `s`.
pub open spec fn first_index_of(s: Seq<char>, c: char) -> Option<int> {
    if contains_char_spec(s, c) {
        Some(choose|i: int| 0 <= i < s.len() && s[i] == c && forall|k: int| 0 <= k < i ==> s[k] != c)
    } else {
        None
    }
}

/// The index of the last occurrence of `c` in `s`.
pub open spec fn last_index_of(s: Seq<char>, c: char) -> Option<int> {
    if contains_char_spec(s, c) {
        Some(choose|i: int| 0 <= i < s.len() && s[i] == c && forall|k: int| i < k < s.len() ==> s[k] != c)
    } else {
        None
    }
}

/// The index of the first occurrence of `c` in `chars`.
pub fn find_char(chars: &[char], c: char) -> (r: Option<usize>)
    ensures
        r matches Some(i) ==> (i < chars@.len() && chars@[i as int] == c),
        r matches Some(i) ==> first_index_of(chars@, c) == Some(i as int),
        r is None ==> first_index_of(chars@, c) is None,
{
    let n = chars.len();
    let mut i: usize = 0;
    while i < n
        invariant
            n == chars@.len(),
            i <= n,
            forall|k: int| 0 <= k < i ==> chars@[k] != c,
        decreases n - i,
    {
        if chars[i] == c {
            proof {
                let s = chars@;
                let w = choose|j: int| 0 <= j < s.len() && s[j] == c && forall|k: int| 0 <= k < j ==> s[k] != c;
                assert(0 <= i < s.len() && s[i as int] == c && forall|k: int| 0 <= k < i ==> s[k] != c);
                assert(w == i as int) by {
                    if w < i {
                        assert(s[w] != c);
                    } else if w > i {
                        assert(s[i as int] != c);
                    }
                }
            }
            return Some(i);
        }
        i = i + 1;
    }
    None
}

/// The index of the last occurrence of `c` in `chars`.
pub fn rfind_char(chars: &[char], c: char) -> (r: Option<usize>)
    ensures
        r matches Some(i) ==> (i < chars@.len() && chars@[i as int] == c),
        r matches Some(i) ==> last_index_of(chars@, c) == Some(i as int),
        r is None ==> last_index_of(chars@, c) is None,
{
    let n = chars.len();
    let mut j: usize = n;
    while j > 0
        invariant
            n == chars@.len(),
            j <= n,
            forall|k: int| j <= k < n ==> chars@[k] != c,
        decreases j,
    {
        if chars[j - 1] == c {
            let i = j - 1;
            proof {
                let s = chars@;
                let w = choose|x: int| 0 <= x < s.len() && s[x] == c && forall|k: int| x < k < s.len() ==> s[k] != c;
                assert(0 <= i < s.len() && s[i as int] == c && forall|k: int| i < k < s.len() ==> s[k] != c);
                assert(w == i as int) by {
                    if w < i {
                        assert(s[i as int] != c);
                    } else if w > i {
                        assert(s[w] != c);
                    }
                }
            }
            return Some(i);
        }
        j = j - 1;
    }
    None
}

/// The character for a decimal digit.
pub open spec fn digit_char(d: nat) -> char {
    ((d + 48) as u8) as char
}

/// The decimal representation of `n`, without leading zeros.
pub open spec fn decimal_spec(n: nat) -> Seq<char>
    decreases n,
{
    if n < 10 {
        seq![digit_char(n)]
    } else {
        decimal_spec(n / 10).push(digit_char(n % 10))
    }
}

/// The decimal representation of `n`.
pub fn decimal_chars(n: u64) -> (r: Vec<char>)
    ensures
        r@ == decimal_spec(n as nat),
    decreases n,
{
    if n < 10 {
        let mut v: Vec<char> = Vec::new();
        v.push(((n as u8) + 48) as char);
        v
    } else {
        let mut v = decimal_chars(n / 10);
        v.push((((n % 10) as u8) + 48) as char);
        v
    }
}

/// The lower-case hex digit for a value below sixteen.
pub open spec fn hex_digit_char(d: nat) -> char {
    if d < 10 {
        ((d + 48) as u8) as char
    } else {
        ((d + 87) as u8) as char
    }
}

/// The lower-case hex digit for `d`.
pub fn hex_char(d: u8) -> (r: char)
    requires
        d < 16,
    ensures
        r == hex_digit_char(d as nat),
{
    if d < 10 {
        (d + 48) as char
    } else {
        (d + 87) as char
    }
}

/// Whether `chars` holds exactly the characters of `s`.
pub fn chars_equal_str(chars: &[char], s: &str) -> (r: bool)
    ensures
        r == (chars@ == s@),
{
    let other = chars_of(s);
    chars_eq(chars, other.as_slice())
}

/// The part of `s` after its last `sep`, or all of `s` when `sep` does not occur: what
/// `str::rsplit(sep).next()` yields.
pub open spec fn last_segment(s: Seq<char>, sep: char) -> Seq<char> {
    match last_index_of(s, sep) {
        Some(i) => s.subrange(i + 1, s.len() as int),
        None => s,
    }
}

/// The part of `chars` after its last `sep`.
pub fn last_segment_chars(chars: &[char], sep: char) -> (r: Vec<char>)
    ensures
        r@ == last_segment(chars@, sep),
{
    let n = chars.len();
    match rfind_char(chars, sep) {
        Some(i) => slice_chars(chars, i + 1, n),
        None => {
            let r = slice_chars(chars, 0, chars.len());
            assert(chars@.subrange(0, chars@.len() as int) =~= chars@);
            r
        },
    }
}

/// The `n`-th piece of `s` split at every `sep` (what `str::split(sep).nth(n)` yields).
pub open spec fn split_piece(s: Seq<char>, sep: char, n: nat) -> Option<Seq<char>>
    decreases n,
{
    match first_index_of(s, sep) {
        None => if n == 0 {
            Some(s)
        } else {
            None
        },
        Some(i) => if n == 0 {
            Some(s.subrange(0, i))
        } else {
            split_piece(s.subrange(i + 1, s.len() as int), sep, (n - 1) as nat)
        },
    }
}

/// The `n`-th piece of `chars` split at every `sep`.
pub fn split_piece_chars(chars: &[char], sep: char, n: usize) -> (r: Option<Vec<char>>)
    ensures
        r matches Some(v) ==> split_piece(chars@, sep, n as nat) == Some(v@),
        r is None ==> split_piece(chars@, sep, n as nat) is None,
    decreases n,
{
    let len = chars.len();
    match find_char(chars, sep) {
        None => {
            if n == 0 {
                let r = slice_chars(chars, 0, chars.len());
                assert(chars@.subrange(0, chars@.len() as int) =~= chars@);
                Some(r)
            } else {
                None
            }
        },
        Some(i) => {
            if n == 0 {
                Some(slice_chars(chars, 0, i))
            } else {
                let rest = slice_chars(chars, i + 1, len);
                split_piece_chars(rest.as_slice(), sep, n - 1)
            }
        },
    }
}

/// Whether `c` is an ASCII decimal digit.
pub open spec fn is_ascii_digit(c: char) -> bool {
    '0' <= c && c <= '9'
}

/// Whether every character of `s` is an ASCII decimal digit.
pub open spec fn all_ascii_digits(s: Seq<char>) -> bool {
    forall|i: int| 0 <= i < s.len() ==> is_ascii_digit(#[trigger] s[i])
}

/// Whether every character of `chars` is an ASCII decimal digit.
pub fn chars_all_ascii_digits(chars: &[char]) -> (r: bool)
    ensures
        r == all_ascii_digits(chars@),
{
    let n = chars.len();
    let mut i: usize = 0;
    while i < n
        invariant
            n == chars@.len(),
            i <= n,
            forall|k: int| 0 <= k < i ==> is_ascii_digit(#[trigger] chars@[k]),
        decreases n - i,
    {
        if !('0' <= chars[i] && chars[i] <= '9') {
            return false;
        }
        i = i + 1;
    }
    true
}

/// Whether `needle` occurs in `hay` as a contiguous run.
pub open spec fn contains_seq(hay: Seq<char>, needle: Seq<char>) -> bool {
    exists|i: int| 0 <= i && i + needle.len() <= hay.len() && #[trigger] hay.subrange(i, i + needle.len()) == needle
}

/// Whether the characters of `needle` occur in `hay` as a contiguous run.
pub fn contains_str(hay: &[char], needle: &str) -> (r: bool)
    ensures
        r == contains_seq(hay@, needle@),
{
    let pat = chars_of(needle);
    let n = hay.len();
    let m = pat.len();
    if m > n {
        assert forall|i: int| 0 <= i && i + needle@.len() <= hay@.len() implies #[trigger] hay@.subrange(i, i + needle@.len()) != needle@ by {}
        return false;
    }
    if m == 0 {
        assert(hay@.subrange(0, 0 + needle@.len() as int) =~= needle@);
        return true;
    }
    let mut i: usize = 0;
    while i <= n - m
        invariant
            n == hay@.len(),
            m == pat@.len(),
            pat@ == needle@,
            1 <= m <= n,
            i <= n - m + 1,
            forall|k: int| 0 <= k < i ==> #[trigger] hay@.subrange(k, k + m) != needle@,
        decreases n - m + 1 - i,
    {
        let window = slice_chars(hay, i, i + m);
        if chars_eq(window.as_slice(), pat.as_slice()) {
            return true;
        }
        i = i + 1;
    }
    assert forall|k: int| 0 <= k && k + needle@.len() <= hay@.len() implies #[trigger] hay@.subrange(k, k + needle@.len()) != needle@ by {
        assert(k < i);
    }
    false
}

/// `s` with every occurrence of `from` replaced by `to`, taken left to right without overlap,
/// as `str::replace` does; an empty `from` leaves `s` as it is here.
pub open spec fn replace_spec(s: Seq<char>, from: Seq<char>, to: Seq<char>) -> Seq<char>
    decreases s.len(),
{
    if from.len() == 0 || s.len() == 0 {
        s
    } else if from.len() <= s.len() && s.subrange(0, from.len() as int) == from {
        to + replace_spec(s.subrange(from.len() as int, s.len() as int), from, to)
    } else {
        seq![s[0]] + replace_spec(s.drop_first(), from, to)
    }
}

/// `chars` with every occurrence of `from` replaced by `to`.
pub fn replace_chars(chars: &[char], from: &str, to: &str) -> (r: Vec<char>)
    requires
        from@.len() > 0,
    ensures
        r@ == replace_spec(chars@, from@, to@),
{
    let pat = chars_of(from);
    let rep = chars_of(to);
    let n = chars.len();
    let m = pat.len();
    let mut out: Vec<char> = Vec::new();
    let mut i: usize = 0;
    assert(chars@.subrange(0, n as int) =~= chars@);
    while i < n
        invariant
            n == chars@.len(),
            m == pat@.len(),
            pat@ == from@,
            rep@ == to@,
            m > 0,
            i <= n,
            out@ + replace_spec(chars@.subrange(i as int, n as int), from@, to@) == replace_spec(chars@, from@, to@),
        decreases n - i,
    {
        let ghost rest = chars@.subrange(i as int, n as int);
        let ghost before = out@;
        if m <= n - i {
            let window = slice_chars(chars, i, i + m);
            assert(window@ =~= rest.subrange(0, m as int));
            if chars_eq(window.as_slice(), pat.as_slice()) {
                assert(rest.subrange(m as int, rest.len() as int) =~= chars@.subrange(i + m, n as int));
                push_chars(&mut out, rep.as_slice());
                assert(out@ + replace_spec(chars@.subrange(i + m, n as int), from@, to@) =~= before + (to@
                    + replace_spec(rest.subrange(m as int, rest.len() as int), from@, to@)));
                i = i + m;
                continue;
            }
        }
        assert(rest.drop_first() =~= chars@.subrange(i + 1, n as int));
        assert(rest[0] == chars@[i as int]);
        out.push(chars[i]);
        assert(out@ + replace_spec(chars@.subrange(i + 1, n as int), from@, to@) =~= before + (seq![rest[0]]
            + replace_spec(rest.drop_first(), from@, to@)));
        i = i + 1;
    }
    assert(chars@.subrange(n as int, n as int) =~= Seq::<char>::empty());
    assert(out@ + Seq::<char>::empty() =~= out@);
    out
}

} // verus!
