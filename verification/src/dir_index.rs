//! The camera's older HTTP directory listings: the camera folders of a DCIM page, and the
//! files of a folder page. Rows are found with the `regex` crate; the library undoes the HTML
//! escapes, decides which rows are files, and builds their addresses. The sizes (`4.5M`) are
//! read by the caller.
use vstd::prelude::*;
use crate::media::{file_kind, file_kind_spec, html_unescape, html_unescape_spec, string_views, LunaFile, MediaStorage};
use crate::text::{
    chars_eq, chars_of, contains_seq, contains_str, ends_with, ends_with_spec, eq_char, push_chars,
    push_str, str_eq, string_from_chars, strip_end,
};

verus! {

/// What `Regex::new(pattern)` followed by `captures_iter(text)` yields: `None` when the pattern
/// is refused, else for each match in order its groups by index (group 0 the whole match), a
/// group that took no part being `None`.
pub uninterp spec fn regex_captures_spec(pattern: Seq<char>, text: Seq<char>) -> Option<Seq<Seq<Option<Seq<char>>>>>;

/// The text of an optional string.
pub open spec fn opt_view(o: Option<String>) -> Option<Seq<char>> {
    match o {
        Some(s) => Some(s@),
        None => None,
    }
}

/// The groups of each match, as texts.
pub open spec fn captures_view(v: Seq<Vec<Option<String>>>) -> Seq<Seq<Option<Seq<char>>>> {
    v.map_values(|c: Vec<Option<String>>| c@.map_values(|o: Option<String>| opt_view(o)))
}

/// Calls `Regex::new(pattern)` and, when the pattern is accepted, `captures_iter(text)`,
/// collecting every match's groups by index as owned strings. The result is named, not stated.
#[verifier::external_body]
fn regex_captures(pattern: &str, text: &str) -> (r: Option<Vec<Vec<Option<String>>>>)
    ensures
        match r {
            Some(v) => regex_captures_spec(pattern@, text@) == Some(captures_view(v@)),
            None => regex_captures_spec(pattern@, text@) is None,
        },
{
    match regex::Regex::new(pattern) {
        Err(_) => None,
        Ok(re) => Some(
            re.captures_iter(text).map(
                |c| c.iter().map(|m| m.map(|m| m.as_str().to_string())).collect(),
            ).collect(),
        ),
    }
}

/// The links of a listing page.
pub const LINK_PATTERN: &'static str = "(?i)<a\\s+href=\"(?P<href>[^\"]+)\"";

/// A camera folder link: `Camera`, digits and a slash, in any letter case.
pub const CAMERA_DIR_PATTERN: &'static str = "(?i)^Camera\\d+/$";

/// A file row: link, name, date, time and size.
pub const INDEX_ROW_PATTERN: &'static str = "<a\\s+href=\"(?P<href>[^\"]+)\">(?P<name>[^<]+)</a>\\s+(?P<date>\\d{2}-[A-Za-z]{3}-\\d{4})\\s+(?P<time>\\d{2}:\\d{2})\\s+(?P<size>\\S+)";

/// Why a listing page could not be read.
#[derive(Debug, Clone, Copy, PartialEq, Eq, Structural)]
pub enum IndexError {
    /// The row pattern was refused.
    PatternRejected,
    /// The page lists no file and mentions 401: the camera refused the request.
    Unauthorized,
}

impl IndexError {
    /// The message shown to the user.
    pub fn message(self) -> (r: &'static str)
        ensures
            self == IndexError::PatternRejected ==> r@ == "directory listing pattern rejected"@,
            self == IndexError::Unauthorized ==> r@ == "camera returned unauthorized directory page"@,
    {
        match self {
            IndexError::PatternRejected => "directory listing pattern rejected",
            IndexError::Unauthorized => "camera returned unauthorized directory page",
        }
    }
}

/// Group `k` of a match, or `None` when it took no part or does not exist.
pub open spec fn group(cap: Seq<Option<Seq<char>>>, k: int) -> Option<Seq<char>> {
    if 0 <= k < cap.len() {
        cap[k]
    } else {
        None
    }
}

/// The text of group `k` of a match.
fn group_text(cap: &Vec<Option<String>>, k: usize) -> (r: Option<&str>)
    ensures
        match r {
            Some(s) => group(cap@.map_values(|o: Option<String>| opt_view(o)), k as int) == Some(s@),
            None => group(cap@.map_values(|o: Option<String>| opt_view(o)), k as int) is None,
        },
{
    if k < cap.len() {
        match &cap[k] {
            Some(s) => Some(s.as_str()),
            None => None,
        }
    } else {
        None
    }
}

/// `a` comes before `b` in the order of their characters, as strings are sorted (the byte
/// order of UTF-8 is the order of the characters).
pub open spec fn chars_before(a: Seq<char>, b: Seq<char>) -> bool
    decreases a.len(),
{
    if a.len() == 0 {
        b.len() > 0
    } else if b.len() == 0 {
        false
    } else if a[0] != b[0] {
        (a[0] as u32) < (b[0] as u32)
    } else {
        chars_before(a.drop_first(), b.drop_first())
    }
}

/// Two different texts are ordered one way or the other, and never both.
proof fn lemma_chars_before_total(a: Seq<char>, b: Seq<char>)
    ensures
        a != b ==> (chars_before(a, b) || chars_before(b, a)),
        !(chars_before(a, b) && chars_before(b, a)),
        !chars_before(a, a),
    decreases a.len(),
{
    if a.len() == 0 && b.len() == 0 {
        assert(a =~= b);
    }
    if a.len() > 0 && b.len() > 0 && a[0] != b[0] {
        vstd::utf8::char_u32_cast(a[0], a[0] as u32);
        vstd::utf8::char_u32_cast(b[0], b[0] as u32);
    }
    if a.len() > 0 && b.len() > 0 && a[0] == b[0] {
        lemma_chars_before_total(a.drop_first(), b.drop_first());
        if a != b {
            assert(a.drop_first() != b.drop_first()) by {
                if a.drop_first() == b.drop_first() {
                    assert(a =~= seq![a[0]] + a.drop_first());
                    assert(b =~= seq![b[0]] + b.drop_first());
                }
            }
        }
    }
    if a.len() > 0 {
        lemma_chars_before_total(a.drop_first(), a.drop_first());
    }
}

/// The order is transitive.
proof fn lemma_chars_before_trans(a: Seq<char>, b: Seq<char>, c: Seq<char>)
    requires
        chars_before(a, b),
        chars_before(b, c),
    ensures
        chars_before(a, c),
    decreases a.len(),
{
    if a.len() > 0 && b.len() > 0 && c.len() > 0 && a[0] == b[0] && b[0] == c[0] {
        lemma_chars_before_trans(a.drop_first(), b.drop_first(), c.drop_first());
    }
}

/// Whether `a` comes before `b`.
fn chars_less(a: &[char], b: &[char]) -> (r: bool)
    ensures
        r == chars_before(a@, b@),
{
    let mut i: usize = 0;
    assert(a@.subrange(0, a@.len() as int) =~= a@);
    assert(b@.subrange(0, b@.len() as int) =~= b@);
    while i < a.len() && i < b.len() && a[i] == b[i]
        invariant
            i <= a@.len(),
            i <= b@.len(),
            chars_before(a@, b@) == chars_before(
                a@.subrange(i as int, a@.len() as int),
                b@.subrange(i as int, b@.len() as int),
            ),
        decreases a.len() - i,
    {
        let ghost x = a@.subrange(i as int, a@.len() as int);
        let ghost y = b@.subrange(i as int, b@.len() as int);
        assert(x.drop_first() =~= a@.subrange(i + 1, a@.len() as int));
        assert(y.drop_first() =~= b@.subrange(i + 1, b@.len() as int));
        assert(x[0] == a@[i as int] && y[0] == b@[i as int]);
        i = i + 1;
    }
    let ghost x = a@.subrange(i as int, a@.len() as int);
    let ghost y = b@.subrange(i as int, b@.len() as int);
    if i == a.len() {
        i < b.len()
    } else if i == b.len() {
        false
    } else {
        assert(x[0] == a@[i as int] && y[0] == b@[i as int]);
        (a[i] as u32) < (b[i] as u32)
    }
}

/// Whether the texts are in strictly increasing order.
pub open spec fn strictly_sorted(v: Seq<Seq<char>>) -> bool {
    forall|i: int, j: int| 0 <= i < j < v.len() ==> chars_before(#[trigger] v[i], #[trigger] v[j])
}

/// Puts `s` into the sorted texts `v` unless it is there already.
fn insert_sorted(v: &mut Vec<String>, s: String)
    requires
        strictly_sorted(string_views(old(v)@)),
    ensures
        strictly_sorted(string_views(final(v)@)),
        string_views(final(v)@).to_set() == string_views(old(v)@).to_set().insert(s@),
{
    let sc = chars_of(s.as_str());
    let n = v.len();
    let mut p: usize = 0;
    let ghost w = string_views(v@);
    while p < n
        invariant
            n == v@.len(),
            w == string_views(v@),
            p <= n,
            sc@ == s@,
            strictly_sorted(w),
            forall|k: int| 0 <= k < p ==> chars_before(#[trigger] w[k], s@),
        ensures
            p <= n,
            forall|k: int| 0 <= k < p ==> chars_before(#[trigger] w[k], s@),
            p < n ==> !chars_before(w[p as int], s@),
        decreases n - p,
    {
        let vc = chars_of(v[p].as_str());
        assert(w[p as int] == v@[p as int]@);
        if !chars_less(vc.as_slice(), sc.as_slice()) {
            break;
        }
        p = p + 1;
    }
    if p < n {
        let vc = chars_of(v[p].as_str());
        assert(w[p as int] == v@[p as int]@);
        if chars_eq(vc.as_slice(), sc.as_slice()) {
            assert(w.to_set() =~= w.to_set().insert(s@)) by {
                assert(w.to_set().contains(w[p as int]));
            }
            return;
        }
        proof {
            lemma_chars_before_total(w[p as int], s@);
            assert(chars_before(s@, w[p as int]));
            assert forall|j: int| p <= j < n implies chars_before(s@, #[trigger] w[j]) by {
                if j > p {
                    lemma_chars_before_trans(s@, w[p as int], w[j]);
                }
            }
        }
    }
    v.insert(p, s);
    let ghost u = string_views(v@);
    assert(u =~= w.insert(p as int, sc@));
    assert forall|i: int, j: int| 0 <= i < j < u.len() implies chars_before(#[trigger] u[i], #[trigger] u[j]) by {
        if j < p {
            assert(u[i] == w[i] && u[j] == w[j]);
        } else if j == p {
            assert(u[i] == w[i]);
        } else if i < p {
            assert(u[i] == w[i] && u[j] == w[j - 1]);
            lemma_chars_before_trans(w[i], s@, w[j - 1]);
        } else if i == p {
            assert(u[j] == w[j - 1]);
        } else {
            assert(u[i] == w[i - 1] && u[j] == w[j - 1]);
        }
    }
    assert(u.to_set() =~= w.to_set().insert(s@)) by {
        assert forall|x: Seq<char>| u.to_set().contains(x) implies w.to_set().insert(s@).contains(x) by {
            let k = choose|k: int| 0 <= k < u.len() && u[k] == x;
            if k < p {
                assert(u[k] == w[k]);
            } else if k > p {
                assert(u[k] == w[k - 1]);
            }
        }
        assert forall|x: Seq<char>| w.to_set().insert(s@).contains(x) implies u.to_set().contains(x) by {
            if x == s@ {
                assert(u[p as int] == x);
            } else {
                let k = choose|k: int| 0 <= k < w.len() && w[k] == x;
                if k < p {
                    assert(u[k] == x);
                } else {
                    assert(u[k + 1] == x);
                }
            }
        }
    }
}

/// `chars` without its trailing slashes.
fn strip_end_slashes(chars: &[char]) -> (r: Vec<char>)
    ensures
        r@ == strip_end(chars@, eq_char('/')),
{
    let mut k: usize = chars.len();
    assert(chars@.subrange(0, k as int) =~= chars@);
    while k > 0 && chars[k - 1] == '/'
        invariant
            k <= chars@.len(),
            strip_end(chars@, eq_char('/')) == strip_end(chars@.subrange(0, k as int), eq_char('/')),
        decreases k,
    {
        let ghost t = chars@.subrange(0, k as int);
        assert(t.drop_last() =~= chars@.subrange(0, k - 1));
        assert(t.last() == chars@[k - 1]);
        assert(eq_char('/')(t.last()));
        k = k - 1;
    }
    let ghost t = chars@.subrange(0, k as int);
    if k > 0 {
        assert(t.last() == chars@[k - 1]);
        assert(!eq_char('/')(t.last()));
    }
    let mut r: Vec<char> = Vec::new();
    let mut i: usize = 0;
    while i < k
        invariant
            k <= chars@.len(),
            i <= k,
            r@ == chars@.subrange(0, i as int),
        decreases k - i,
    {
        r.push(chars[i]);
        i = i + 1;
        assert(r@ =~= chars@.subrange(0, i as int));
    }
    r
}

/// The camera folder a link names: `Some(Some(folder))` when its unescaped text is a camera
/// folder link (the folder is that text without its trailing slashes), `Some(None)` when it is
/// another link, `None` when the folder pattern is refused.
pub open spec fn camera_dir_of(href: Seq<char>) -> Option<Option<Seq<char>>> {
    let h = html_unescape_spec(href);
    match regex_captures_spec(CAMERA_DIR_PATTERN@, h) {
        None => None,
        Some(m) => Some(
            if m.len() > 0 {
                Some(strip_end(h, eq_char('/')))
            } else {
                None
            },
        ),
    }
}

/// The camera folders that the link matches `caps` name, in link order (a match without its
/// link group names none), or `None` when the folder pattern is refused.
pub open spec fn camera_dirs_from(caps: Seq<Seq<Option<Seq<char>>>>) -> Option<Seq<Seq<char>>>
    decreases caps.len(),
{
    if caps.len() == 0 {
        Some(Seq::empty())
    } else {
        match camera_dirs_from(caps.drop_last()) {
            None => None,
            Some(prev) => match group(caps.last(), 1) {
                None => Some(prev),
                Some(href) => match camera_dir_of(href) {
                    None => None,
                    Some(None) => Some(prev),
                    Some(Some(d)) => Some(prev.push(d)),
                },
            },
        }
    }
}

/// Once the folder pattern is refused for a prefix of the links, it is refused for every
/// longer prefix.
proof fn lemma_dirs_none_extends(s: Seq<Seq<Option<Seq<char>>>>, k: int, j: int)
    requires
        0 <= k <= j <= s.len(),
        camera_dirs_from(s.subrange(0, k)) is None,
    ensures
        camera_dirs_from(s.subrange(0, j)) is None,
    decreases j - k,
{
    if k < j {
        assert(s.subrange(0, k + 1).drop_last() =~= s.subrange(0, k));
        lemma_dirs_none_extends(s, k + 1, j);
    }
}

/// The camera folders of a DCIM listing page: the links whose unescaped target is `Camera`,
/// digits and a slash (in any letter case), without the slash, sorted and each once.
pub fn parse_camera_subdirs(html: &str) -> (r: Result<Vec<String>, IndexError>)
    ensures
        match regex_captures_spec(LINK_PATTERN@, html@) {
            None => r == Err::<Vec<String>, IndexError>(IndexError::PatternRejected),
            Some(caps) => match camera_dirs_from(caps) {
                None => r == Err::<Vec<String>, IndexError>(IndexError::PatternRejected),
                Some(dirs) => (r matches Ok(v) && strictly_sorted(string_views(v@)) && string_views(
                    v@,
                ).to_set() == dirs.to_set()),
            },
        },
{
    let caps = match regex_captures(LINK_PATTERN, html) {
        None => return Err(IndexError::PatternRejected),
        Some(c) => c,
    };
    let ghost cv = captures_view(caps@);
    let n = caps.len();
    let mut dirs: Vec<String> = Vec::new();
    let mut i: usize = 0;
    assert(cv.subrange(0, 0) =~= Seq::<Seq<Option<Seq<char>>>>::empty());
    assert(string_views(dirs@).to_set() =~= Seq::<Seq<char>>::empty().to_set());
    while i < n
        invariant
            n == caps@.len(),
            cv == captures_view(caps@),
            regex_captures_spec(LINK_PATTERN@, html@) == Some(cv),
            i <= n,
            strictly_sorted(string_views(dirs@)),
            camera_dirs_from(cv.subrange(0, i as int)) matches Some(d) && string_views(dirs@).to_set()
                == d.to_set(),
        decreases n - i,
    {
        let ghost pre = cv.subrange(0, i as int);
        let ghost next = cv.subrange(0, i + 1);
        assert(next.drop_last() =~= pre);
        assert(next.last() == caps@[i as int]@.map_values(|o: Option<String>| opt_view(o)));
        let ghost d0 = camera_dirs_from(pre)->0;
        match group_text(&caps[i], 1) {
            None => {},
            Some(href) => {
                let h = html_unescape(href);
                match regex_captures(CAMERA_DIR_PATTERN, h.as_str()) {
                    None => {
                        proof {
                            assert(camera_dir_of(href@) is None);
                            assert(group(next.last(), 1) == Some(href@));
                            assert(camera_dirs_from(next) is None);
                            assert(cv.subrange(0, i + 1) == next);
                            lemma_dirs_none_extends(cv, i + 1, n as int);
                            assert(cv.subrange(0, n as int) =~= cv);
                        }
                        return Err(IndexError::PatternRejected);
                    },
                    Some(m) => {
                        if m.len() > 0 {
                            let hc = chars_of(h.as_str());
                            let d = strip_end_slashes(hc.as_slice());
                            let ds = string_from_chars(d.as_slice());
                            insert_sorted(&mut dirs, ds);
                            proof {
                                d0.lemma_push_to_set_commute(d@);
                            }
                        }
                    },
                }
            },
        }
        i = i + 1;
    }
    assert(cv.subrange(0, n as int) =~= cv);
    Ok(dirs)
}

/// Whether a row match is a file: its link, name, date, time and size groups took part, the
/// unescaped link and name are not `../`, and the link does not end in `/`.
pub open spec fn is_file_row(cap: Seq<Option<Seq<char>>>) -> bool {
    &&& group(cap, 1) is Some
    &&& group(cap, 2) is Some
    &&& group(cap, 3) is Some
    &&& group(cap, 4) is Some
    &&& group(cap, 5) is Some
    &&& html_unescape_spec(group(cap, 1)->0) != "../"@
    &&& html_unescape_spec(group(cap, 2)->0) != "../"@
    &&& !ends_with_spec(html_unescape_spec(group(cap, 1)->0), "/"@)
}

/// The row matches that are files, in order.
pub open spec fn file_rows(caps: Seq<Seq<Option<Seq<char>>>>) -> Seq<Seq<Option<Seq<char>>>>
    decreases caps.len(),
{
    if caps.len() == 0 {
        Seq::empty()
    } else if is_file_row(caps.last()) {
        file_rows(caps.drop_last()).push(caps.last())
    } else {
        file_rows(caps.drop_last())
    }
}

/// Whether `f` is the file of the row match `cap` in the folder at `base` of `storage`: the
/// unescaped name, the address (the base without trailing slashes, `/`, the unescaped link),
/// the date, time and size text as listed, no size in bytes yet, the kind named by the
/// extension, and the storage's id and label.
pub open spec fn is_file_of_row(f: LunaFile, cap: Seq<Option<Seq<char>>>, base: Seq<char>, storage: MediaStorage) -> bool {
    let href = html_unescape_spec(group(cap, 1)->0);
    let name = html_unescape_spec(group(cap, 2)->0);
    &&& f.name@ == name
    &&& f.url@ == strip_end(base, eq_char('/')) + "/"@ + href
    &&& f.date@ == group(cap, 3)->0
    &&& f.time@ == group(cap, 4)->0
    &&& f.size_text@ == group(cap, 5)->0
    &&& f.bytes is None
    &&& f.kind@ == file_kind_spec(name)
    &&& f.storage_id@ == storage.id@
    &&& f.storage_label@ == storage.label@
}

/// The files of a folder listing page at `base_url`, in the order listed; their sizes in bytes
/// are left for the caller to read from the size text. A page that lists no file and mentions
/// `401` is the camera's refusal.
pub fn parse_index(html: &str, base_url: &str, storage: MediaStorage) -> (r: Result<Vec<LunaFile>, IndexError>)
    ensures
        match regex_captures_spec(INDEX_ROW_PATTERN@, html@) {
            None => r == Err::<Vec<LunaFile>, IndexError>(IndexError::PatternRejected),
            Some(caps) => if file_rows(caps).len() == 0 && contains_seq(html@, "401"@) {
                r == Err::<Vec<LunaFile>, IndexError>(IndexError::Unauthorized)
            } else {
                r matches Ok(v) && v@.len() == file_rows(caps).len() && forall|k: int|
                    0 <= k < v@.len() ==> is_file_of_row(#[trigger] v@[k], file_rows(caps)[k], base_url@, storage)
            },
        },
{
    let caps = match regex_captures(INDEX_ROW_PATTERN, html) {
        None => return Err(IndexError::PatternRejected),
        Some(c) => c,
    };
    let ghost cv = captures_view(caps@);
    let base_chars = chars_of(base_url);
    let base = strip_end_slashes(base_chars.as_slice());
    let n = caps.len();
    let mut files: Vec<LunaFile> = Vec::new();
    let mut i: usize = 0;
    assert(cv.subrange(0, 0) =~= Seq::<Seq<Option<Seq<char>>>>::empty());
    while i < n
        invariant
            n == caps@.len(),
            cv == captures_view(caps@),
            base@ == strip_end(base_url@, eq_char('/')),
            i <= n,
            files@.len() == file_rows(cv.subrange(0, i as int)).len(),
            forall|k: int|
                0 <= k < files@.len() ==> is_file_of_row(
                    #[trigger] files@[k],
                    file_rows(cv.subrange(0, i as int))[k],
                    base_url@,
                    storage,
                ),
        decreases n - i,
    {
        let ghost pre = cv.subrange(0, i as int);
        let ghost next = cv.subrange(0, i + 1);
        let ghost cap = next.last();
        assert(next.drop_last() =~= pre);
        assert(cap == caps@[i as int]@.map_values(|o: Option<String>| opt_view(o)));
        let ghost before = files@;
        let row = &caps[i];
        let g1 = group_text(row, 1);
        let g2 = group_text(row, 2);
        let g3 = group_text(row, 3);
        let g4 = group_text(row, 4);
        let g5 = group_text(row, 5);
        if let (Some(h), Some(nm), Some(date), Some(time), Some(size)) = (g1, g2, g3, g4, g5) {
            let href = html_unescape(h);
            let name = html_unescape(nm);
            let href_chars = chars_of(href.as_str());
            if !str_eq(href.as_str(), "../") && !str_eq(name.as_str(), "../") && !ends_with(
                href_chars.as_slice(),
                "/",
            ) {
                let mut url: Vec<char> = Vec::new();
                push_chars(&mut url, base.as_slice());
                push_str(&mut url, "/");
                push_chars(&mut url, href_chars.as_slice());
                let kind = file_kind(name.as_str());
                let file = LunaFile {
                    name,
                    url: string_from_chars(url.as_slice()),
                    date: date.to_owned(),
                    time: time.to_owned(),
                    size_text: size.to_owned(),
                    bytes: None,
                    kind,
                    storage_id: storage.id.to_owned(),
                    storage_label: storage.label.to_owned(),
                };
                files.push(file);
                assert(is_file_row(cap));
                assert(file_rows(next) == file_rows(pre).push(cap));
                assert forall|k: int| 0 <= k < files@.len() implies is_file_of_row(
                    #[trigger] files@[k],
                    file_rows(next)[k],
                    base_url@,
                    storage,
                ) by {
                    if k < before.len() {
                        assert(files@[k] == before[k]);
                    }
                }
            } else {
                assert(!is_file_row(cap));
            }
        } else {
            assert(!is_file_row(cap));
        }
        i = i + 1;
    }
    assert(cv.subrange(0, n as int) =~= cv);
    if files.len() == 0 {
        let html_chars = chars_of(html);
        if contains_str(html_chars.as_slice(), "401") {
            return Err(IndexError::Unauthorized);
        }
    }
    Ok(files)
}

} // verus!
