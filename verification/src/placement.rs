//! The placement tables of the official app. Each row reads `"key": "v1##v2##…",`; a lookup
//! finds the first row whose trimmed text starts with the quoted key and cuts the text after its
//! last colon into fields. The fields are numbers, which the caller reads.
use vstd::prelude::*;
use crate::text::{
    chars_of, last_index_of, push_str, rfind_char, slice_chars, starts_with, starts_with_spec,
    string_from_chars, trim_char, trim_char_spec, trim_chars, trim_spec,
};

verus! {

/// `s` cut at every `sep`, left to right, after the pieces `done` and the piece `cur` begun so
/// far.
pub open spec fn split_char_from(s: Seq<char>, sep: char, cur: Seq<char>, done: Seq<Seq<char>>) -> Seq<Seq<char>>
    decreases s.len(),
{
    if s.len() == 0 {
        done.push(cur)
    } else if s[0] == sep {
        split_char_from(s.drop_first(), sep, Seq::empty(), done.push(cur))
    } else {
        split_char_from(s.drop_first(), sep, cur.push(s[0]), done)
    }
}

/// `s` cut at every `sep`, as `str::split` with a character cuts it.
pub open spec fn split_char(s: Seq<char>, sep: char) -> Seq<Seq<char>> {
    split_char_from(s, sep, Seq::empty(), Seq::empty())
}

/// `s` cut at every `##`, after the pieces `done` and the piece `cur` begun so far; matches are
/// taken left to right without overlap.
pub open spec fn split_hash_from(s: Seq<char>, cur: Seq<char>, done: Seq<Seq<char>>) -> Seq<Seq<char>>
    decreases s.len(),
{
    if s.len() == 0 {
        done.push(cur)
    } else if s.len() >= 2 && s[0] == '#' && s[1] == '#' {
        split_hash_from(s.subrange(2, s.len() as int), Seq::empty(), done.push(cur))
    } else {
        split_hash_from(s.drop_first(), cur.push(s[0]), done)
    }
}

/// `s` cut at every `##`, as `str::split("##")` cuts it.
pub open spec fn split_hash(s: Seq<char>) -> Seq<Seq<char>> {
    split_hash_from(s, Seq::empty(), Seq::empty())
}

/// The fields of a row's value text: trimmed of white space, then of commas, then of double
/// quotes, and cut at every `##`.
pub open spec fn value_fields(v: Seq<char>) -> Seq<Seq<char>> {
    split_hash(trim_char_spec(trim_char_spec(trim_spec(v), ','), '"'))
}

/// The fields of the first of `lines` whose trimmed text starts with `key`: `None` when no
/// line does, or when that line holds no colon.
pub open spec fn find_row(lines: Seq<Seq<char>>, key: Seq<char>) -> Option<Seq<Seq<char>>>
    decreases lines.len(),
{
    if lines.len() == 0 {
        None
    } else {
        let t = trim_spec(lines[0]);
        if starts_with_spec(t, key) {
            match last_index_of(t, ':') {
                None => None,
                Some(c) => Some(value_fields(t.subrange(c + 1, t.len() as int))),
            }
        } else {
            find_row(lines.drop_first(), key)
        }
    }
}

/// The fields of the row of `table` for `key`. Lines are cut at line feeds; the trimming takes
/// a carriage return off, and an empty last line never starts with a key that an earlier line
/// would not match first, so this is the lookup over `str::lines` as well.
pub open spec fn table_row(table: Seq<char>, key: Seq<char>) -> Option<Seq<Seq<char>>> {
    find_row(split_char(table, '\n'), key)
}

/// The characters of each piece.
pub open spec fn pieces_view(v: Seq<Vec<char>>) -> Seq<Seq<char>> {
    v.map_values(|p: Vec<char>| p@)
}

/// The texts of each field.
pub open spec fn fields_view(v: Seq<String>) -> Seq<Seq<char>> {
    v.map_values(|p: String| p@)
}

/// `chars` cut at every `sep`.
pub fn split_chars(chars: &[char], sep: char) -> (r: Vec<Vec<char>>)
    ensures
        pieces_view(r@) == split_char(chars@, sep),
{
    let n = chars.len();
    let mut done: Vec<Vec<char>> = Vec::new();
    let mut cur: Vec<char> = Vec::new();
    let mut i: usize = 0;
    assert(chars@.subrange(0, n as int) =~= chars@);
    assert(pieces_view(done@) =~= Seq::<Seq<char>>::empty());
    assert(cur@ =~= Seq::<char>::empty());
    while i < n
        invariant
            n == chars@.len(),
            i <= n,
            split_char_from(chars@.subrange(i as int, n as int), sep, cur@, pieces_view(done@))
                == split_char(chars@, sep),
        decreases n - i,
    {
        let ghost rest = chars@.subrange(i as int, n as int);
        let ghost before = pieces_view(done@);
        let ghost cur_before = cur@;
        assert(rest.drop_first() =~= chars@.subrange(i + 1, n as int));
        assert(rest[0] == chars@[i as int]);
        if chars[i] == sep {
            assert(split_char_from(rest, sep, cur_before, before) == split_char_from(
                rest.drop_first(), sep, Seq::empty(), before.push(cur_before)));
            let piece = cur;
            done.push(piece);
            assert(pieces_view(done@) =~= before.push(cur_before));
            cur = Vec::new();
            assert(cur@ =~= Seq::<char>::empty());
        } else {
            assert(split_char_from(rest, sep, cur_before, before) == split_char_from(
                rest.drop_first(), sep, cur_before.push(chars@[i as int]), before));
            cur.push(chars[i]);
        }
        i = i + 1;
    }
    assert(chars@.subrange(n as int, n as int) =~= Seq::<char>::empty());
    let ghost before = pieces_view(done@);
    let last = cur;
    done.push(last);
    assert(pieces_view(done@) =~= before.push(last@));
    done
}

/// `chars` cut at every `##`.
pub fn split_hash_chars(chars: &[char]) -> (r: Vec<Vec<char>>)
    ensures
        pieces_view(r@) == split_hash(chars@),
{
    let n = chars.len();
    let mut done: Vec<Vec<char>> = Vec::new();
    let mut cur: Vec<char> = Vec::new();
    let mut i: usize = 0;
    assert(chars@.subrange(0, n as int) =~= chars@);
    assert(pieces_view(done@) =~= Seq::<Seq<char>>::empty());
    assert(cur@ =~= Seq::<char>::empty());
    while i < n
        invariant
            n == chars@.len(),
            i <= n,
            split_hash_from(chars@.subrange(i as int, n as int), cur@, pieces_view(done@))
                == split_hash(chars@),
        decreases n - i,
    {
        let ghost rest = chars@.subrange(i as int, n as int);
        let ghost before = pieces_view(done@);
        let ghost cur_before = cur@;
        assert(rest[0] == chars@[i as int]);
        if i + 1 < n && chars[i] == '#' && chars[i + 1] == '#' {
            assert(rest[1] == chars@[i + 1]);
            assert(rest.subrange(2, rest.len() as int) =~= chars@.subrange(i + 2, n as int));
            assert(split_hash_from(rest, cur_before, before) == split_hash_from(
                rest.subrange(2, rest.len() as int), Seq::empty(), before.push(cur_before)));
            let piece = cur;
            done.push(piece);
            assert(pieces_view(done@) =~= before.push(cur_before));
            cur = Vec::new();
            assert(cur@ =~= Seq::<char>::empty());
            i = i + 2;
        } else {
            assert(rest.drop_first() =~= chars@.subrange(i + 1, n as int));
            assert(!(rest.len() >= 2 && rest[0] == '#' && rest[1] == '#')) by {
                if rest.len() >= 2 {
                    assert(rest[1] == chars@[i + 1]);
                }
            }
            assert(split_hash_from(rest, cur_before, before) == split_hash_from(
                rest.drop_first(), cur_before.push(chars@[i as int]), before));
            cur.push(chars[i]);
            i = i + 1;
        }
    }
    assert(chars@.subrange(n as int, n as int) =~= Seq::<char>::empty());
    let ghost before = pieces_view(done@);
    let last = cur;
    done.push(last);
    assert(pieces_view(done@) =~= before.push(last@));
    done
}

/// The fields of the row of `table` for `key` (a quoted key such as the one
/// [`placement_key`] builds), as texts.
pub fn table_row_fields(table: &str, key: &str) -> (r: Option<Vec<String>>)
    ensures
        match table_row(table@, key@) {
            Some(f) => (r matches Some(v) && fields_view(v@) == f),
            None => r is None,
        },
{
    let chars = chars_of(table);
    let lines = split_chars(&chars, '\n');
    let ghost lv = pieces_view(lines@);
    let n = lines.len();
    let mut k: usize = 0;
    assert(lv.subrange(0, n as int) =~= lv);
    while k < n
        invariant
            n == lines@.len(),
            lv == pieces_view(lines@),
            lv == split_char(table@, '\n'),
            k <= n,
            find_row(lv.subrange(k as int, n as int), key@) == table_row(table@, key@),
        decreases n - k,
    {
        let ghost rest = lv.subrange(k as int, n as int);
        assert(rest[0] == lines@[k as int]@);
        assert(rest.drop_first() =~= lv.subrange(k + 1, n as int));
        let t = trim_chars(lines[k].as_slice());
        if starts_with(&t, key) {
            match rfind_char(&t, ':') {
                None => return None,
                Some(c) => {
                    assert(c < t.len());
                    let value = slice_chars(&t, c + 1, t.len());
                    let v1 = trim_chars(&value);
                    let v2 = trim_char(&v1, ',');
                    let v3 = trim_char(&v2, '"');
                    let pieces = split_hash_chars(&v3);
                    let m = pieces.len();
                    let mut out: Vec<String> = Vec::new();
                    let mut j: usize = 0;
                    while j < m
                        invariant
                            m == pieces@.len(),
                            j <= m,
                            out@.len() == j,
                            fields_view(out@) == pieces_view(pieces@).subrange(0, j as int),
                        decreases m - j,
                    {
                        let s = string_from_chars(pieces[j].as_slice());
                        assert(pieces_view(pieces@)[j as int] == pieces@[j as int]@);
                        let ghost out_before = out@;
                        out.push(s);
                        assert forall|x: int| 0 <= x < j implies fields_view(out@)[x] == fields_view(out_before)[x] by {
                            assert(out@[x] == out_before[x]);
                        }
                        assert(fields_view(out@) =~= pieces_view(pieces@).subrange(0, j + 1));
                        j = j + 1;
                    }
                    assert(pieces_view(pieces@).subrange(0, m as int) =~= pieces_view(pieces@));
                    return Some(out);
                },
            }
        }
        k = k + 1;
    }
    None
}

/// The key of a placement row of the mark tables: `"model##profile##ratio##position"` in
/// double quotes.
pub open spec fn placement_key_spec(model: Seq<char>, profile: Seq<char>, ratio: Seq<char>, position: Seq<char>) -> Seq<char> {
    seq!['"'] + model + "##"@ + profile + "##"@ + ratio + "##"@ + position + seq!['"']
}

/// The key of a row of the frame table: `"model##profile##ratio"` in double quotes.
pub open spec fn frame_key_spec(model: Seq<char>, profile: Seq<char>, ratio: Seq<char>) -> Seq<char> {
    seq!['"'] + model + "##"@ + profile + "##"@ + ratio + seq!['"']
}

/// The key of a placement row of the mark tables.
pub fn placement_key(model: &str, profile: &str, ratio: &str, position: &str) -> (r: String)
    ensures
        r@ == placement_key_spec(model@, profile@, ratio@, position@),
{
    let mut out: Vec<char> = Vec::new();
    out.push('"');
    push_str(&mut out, model);
    push_str(&mut out, "##");
    push_str(&mut out, profile);
    push_str(&mut out, "##");
    push_str(&mut out, ratio);
    push_str(&mut out, "##");
    push_str(&mut out, position);
    out.push('"');
    proof {
        reveal_strlit("##");
    }
    assert(out@ =~= placement_key_spec(model@, profile@, ratio@, position@));
    string_from_chars(&out)
}

/// The key of a row of the frame table.
pub fn frame_key(model: &str, profile: &str, ratio: &str) -> (r: String)
    ensures
        r@ == frame_key_spec(model@, profile@, ratio@),
{
    let mut out: Vec<char> = Vec::new();
    out.push('"');
    push_str(&mut out, model);
    push_str(&mut out, "##");
    push_str(&mut out, profile);
    push_str(&mut out, "##");
    push_str(&mut out, ratio);
    out.push('"');
    proof {
        reveal_strlit("##");
    }
    assert(out@ =~= frame_key_spec(model@, profile@, ratio@));
    string_from_chars(&out)
}

/// The fields of the mark table row for a style's model and profile, a ratio name and a
/// position name of the user; `None` when the position has no name in the app's tables or
/// the table has no such row.
pub fn mark_placement_fields(table: &str, model: &str, profile: &str, ratio: &str, position: &str) -> (r: Option<Vec<String>>)
    ensures
        match crate::watermark::app_position_spec(position@) {
            None => r is None,
            Some(p) => match table_row(table@, placement_key_spec(model@, profile@, ratio@, p)) {
                Some(f) => (r matches Some(v) && fields_view(v@) == f),
                None => r is None,
            },
        },
{
    match crate::watermark::app_position(position) {
        None => None,
        Some(p) => {
            let key = placement_key(model, profile, ratio, p);
            table_row_fields(table, key.as_str())
        },
    }
}

/// The fields of the frame table row for a style's model and profile and a ratio name.
pub fn frame_placement_fields(table: &str, model: &str, profile: &str, ratio: &str) -> (r: Option<Vec<String>>)
    ensures
        match table_row(table@, frame_key_spec(model@, profile@, ratio@)) {
            Some(f) => (r matches Some(v) && fields_view(v@) == f),
            None => r is None,
        },
{
    let key = frame_key(model, profile, ratio);
    table_row_fields(table, key.as_str())
}

} // verus!
