//! Listing the camera's media: the paged file-list queries of one storage, the media items of
//! the paths they return, and the merge of the storages' outcomes into one list.
use vstd::prelude::*;
use crate::media::{
    build_delete_files_body, camera_path_from_url, camera_path_spec, delete_body_spec,
    build_file_list_body, camera_file_from_path, file_list_body_spec, file_list_paths_from,
    is_media_item, media_name_spec, parse_file_list_paths, string_views, LunaFile, MediaError,
    MediaStorage,
};
use crate::text::{chars_of, push_chars, push_str, str_eq, string_from_chars};
use crate::url::url_with_path_spec;

verus! {

/// Whether no path occurs twice.
pub open spec fn no_duplicates(s: Seq<Seq<char>>) -> bool {
    forall|i: int, j: int| 0 <= i < j < s.len() ==> s[i] != s[j]
}

/// `acc` followed by the paths of `page` that are not already there, each once, in the order
/// they first occur.
pub open spec fn append_unique(acc: Seq<Seq<char>>, page: Seq<Seq<char>>) -> Seq<Seq<char>>
    decreases page.len(),
{
    if page.len() == 0 {
        acc
    } else {
        let prev = append_unique(acc, page.drop_last());
        if prev.contains(page.last()) {
            prev
        } else {
            prev.push(page.last())
        }
    }
}

/// Appending the unseen paths of a page keeps a list free of duplicates, keeps what it held,
/// and only adds paths of the page.
pub proof fn lemma_append_unique(acc: Seq<Seq<char>>, page: Seq<Seq<char>>)
    requires
        no_duplicates(acc),
    ensures
        no_duplicates(append_unique(acc, page)),
        append_unique(acc, page).len() >= acc.len(),
        append_unique(acc, page).subrange(0, acc.len() as int) == acc,
        forall|i: int| acc.len() <= i < append_unique(acc, page).len() ==> page.contains(
            #[trigger] append_unique(acc, page)[i],
        ),
        forall|p: Seq<char>| #[trigger] page.contains(p) ==> append_unique(acc, page).contains(p),
    decreases page.len(),
{
    if page.len() > 0 {
        let prev = append_unique(acc, page.drop_last());
        lemma_append_unique(acc, page.drop_last());
        assert forall|p: Seq<char>| #[trigger] page.contains(p) implies append_unique(acc, page).contains(p) by {
            let k = choose|k: int| 0 <= k < page.len() && page[k] == p;
            if k < page.len() - 1 {
                assert(page.drop_last()[k] == p);
                assert(page.drop_last().contains(p));
                let m = choose|m: int| 0 <= m < prev.len() && prev[m] == p;
                if !prev.contains(page.last()) {
                    assert(prev.push(page.last())[m] == p);
                }
            } else {
                if !prev.contains(page.last()) {
                    assert(prev.push(page.last())[prev.len() as int] == p);
                }
            }
        }
        assert forall|i: int| acc.len() <= i < append_unique(acc, page).len() implies page.contains(
            #[trigger] append_unique(acc, page)[i],
        ) by {
            if i < prev.len() {
                assert(page.drop_last().contains(prev[i]));
                let k = choose|k: int| 0 <= k < page.drop_last().len() && page.drop_last()[k] == prev[i];
                assert(page[k] == prev[i]);
            } else {
                assert(page[page.len() - 1] == page.last());
            }
        }
        if !prev.contains(page.last()) {
            assert(prev.push(page.last()).subrange(0, acc.len() as int) =~= prev.subrange(0, acc.len() as int));
        }
    } else {
        assert(acc.subrange(0, acc.len() as int) =~= acc);
    }
}

/// Whether `v` holds a string with the characters of `s`.
fn holds_string(v: &Vec<String>, s: &str) -> (r: bool)
    ensures
        r == string_views(v@).contains(s@),
{
    let n = v.len();
    let mut i: usize = 0;
    while i < n
        invariant
            n == v@.len(),
            i <= n,
            forall|k: int| 0 <= k < i ==> v@[k]@ != s@,
        decreases n - i,
    {
        if str_eq(v[i].as_str(), s) {
            assert(string_views(v@)[i as int] == s@);
            return true;
        }
        i = i + 1;
    }
    assert forall|k: int| 0 <= k < string_views(v@).len() implies string_views(v@)[k] != s@ by {
        assert(v@[k]@ != s@);
    }
    false
}

/// The paged file-list queries of one storage. The camera is asked for category 2 and then
/// category 3, a page of 100 paths at a time; a category ends with a page of fewer than 100
/// paths, with a page that adds no new path, or after 100 pages. The paths are gathered once
/// each, in the order they first come.
pub struct FileListQuery {
    selector: u8,
    category_index: u8,
    page: u32,
    paths: Vec<String>,
}

impl FileListQuery {
    /// The storage selector the queries use.
    pub closed spec fn selector_of(&self) -> u8 {
        self.selector
    }

    /// Which category is being read: 0 for category 2, 1 for category 3, 2 once both are done.
    pub closed spec fn category_index_of(&self) -> nat {
        self.category_index as nat
    }

    /// The page being read within the category.
    pub closed spec fn page_of(&self) -> nat {
        self.page as nat
    }

    /// The paths gathered so far.
    pub closed spec fn paths_of(&self) -> Seq<Seq<char>> {
        string_views(self.paths@)
    }

    /// The internal invariant: a category index of at most 2, a page below 100 (0 once done),
    /// and no path gathered twice.
    pub open spec fn wf(&self) -> bool {
        &&& self.category_index_of() <= 2
        &&& self.page_of() < 100
        &&& (self.category_index_of() == 2 ==> self.page_of() == 0)
        &&& no_duplicates(self.paths_of())
    }

    /// Whether both categories have been read.
    pub open spec fn is_done_spec(&self) -> bool {
        self.category_index_of() >= 2
    }

    /// How many more pages can be asked for at most; every answered page lowers it.
    pub open spec fn pages_left(&self) -> nat {
        ((2 - self.category_index_of()) * 100 - self.page_of()) as nat
    }

    /// The category that `category_index` stands for.
    pub open spec fn category_spec(index: nat) -> u8 {
        if index == 0 {
            2
        } else {
            3
        }
    }

    /// How the query moves on after a page of `page_len` paths: to the next category, at its
    /// first page, when the page held fewer than 100 paths, added no new path, or was the
    /// hundredth; else to the next page of the same category.
    pub open spec fn moves_on(before: Self, after: Self, page_len: nat) -> bool {
        let added = after.paths_of().len() - before.paths_of().len();
        if page_len < 100 || added == 0 || before.page_of() + 1 == 100 {
            after.category_index_of() == before.category_index_of() + 1 && after.page_of() == 0
        } else {
            after.category_index_of() == before.category_index_of() && after.page_of()
                == before.page_of() + 1
        }
    }

    /// The queries of `storage`, before the first page.
    pub fn new(storage: MediaStorage) -> (q: Self)
        ensures
            q.wf(),
            q.selector_of() == storage.selector,
            q.category_index_of() == 0,
            q.page_of() == 0,
            q.paths_of() == Seq::<Seq<char>>::empty(),
    {
        let q = FileListQuery { selector: storage.selector, category_index: 0, page: 0, paths: Vec::new() };
        assert(q.paths_of() =~= Seq::<Seq<char>>::empty());
        q
    }

    /// Whether both categories have been read.
    pub fn is_done(&self) -> (r: bool)
        ensures
            r == self.is_done_spec(),
    {
        self.category_index >= 2
    }

    /// The body of the next file-list request, or `None` once both categories have been read.
    pub fn next_request(&self) -> (r: Option<Vec<u8>>)
        requires
            self.wf(),
        ensures
            self.is_done_spec() ==> r is None,
            !self.is_done_spec() ==> (r matches Some(body) && body@ == file_list_body_spec(
                Self::category_spec(self.category_index_of()),
                self.selector_of(),
                (self.page_of() * 100) as u32,
            )),
    {
        if self.category_index >= 2 {
            return None;
        }
        let category: u8 = if self.category_index == 0 {
            2
        } else {
            3
        };
        let offset: u32 = self.page * 100;
        assert(offset == (self.page_of() * 100) as u32);
        Some(build_file_list_body(category, self.selector, offset))
    }

    /// Takes in the paths of the page just asked for: the unseen ones are gathered, and the
    /// query moves to the next page, or to the next category when the page held fewer than 100
    /// paths, added none, or was the hundredth.
    pub fn accept_page(&mut self, page_paths: Vec<String>)
        requires
            old(self).wf(),
            !old(self).is_done_spec(),
        ensures
            final(self).wf(),
            final(self).selector_of() == old(self).selector_of(),
            final(self).paths_of() == append_unique(old(self).paths_of(), string_views(page_paths@)),
            Self::moves_on(*old(self), *final(self), page_paths@.len()),
            final(self).pages_left() < old(self).pages_left(),
    {
        let ghost start = string_views(self.paths@);
        let before = self.paths.len();
        let n = page_paths.len();
        let mut i: usize = 0;
        proof {
            lemma_append_unique(start, Seq::empty());
        }
        while i < n
            invariant
                n == page_paths@.len(),
                i <= n,
                no_duplicates(start),
                string_views(self.paths@) == append_unique(start, string_views(page_paths@).subrange(0, i as int)),
                no_duplicates(string_views(self.paths@)),
                self.selector == old(self).selector,
                self.category_index == old(self).category_index,
                self.page == old(self).page,
                start == old(self).paths_of(),
            decreases n - i,
        {
            let ghost pre = string_views(page_paths@).subrange(0, i as int);
            let ghost next = string_views(page_paths@).subrange(0, i + 1);
            assert(next.drop_last() =~= pre);
            assert(next.last() == page_paths@[i as int]@);
            if !holds_string(&self.paths, page_paths[i].as_str()) {
                let ghost prev = string_views(self.paths@);
                self.paths.push(page_paths[i].clone());
                assert(string_views(self.paths@) =~= prev.push(page_paths@[i as int]@));
            }
            i = i + 1;
            proof {
                lemma_append_unique(start, next);
            }
        }
        assert(string_views(page_paths@).subrange(0, n as int) =~= string_views(page_paths@));
        proof {
            lemma_append_unique(start, string_views(page_paths@));
        }
        let added = self.paths.len() - before;
        if n < 100 || added == 0 || self.page + 1 == 100 {
            self.category_index = self.category_index + 1;
            self.page = 0;
        } else {
            self.page = self.page + 1;
        }
    }

    /// Takes in the body of the response to the page just asked for. A body that does not
    /// parse ends the storage's listing with the parse error.
    pub fn accept_response(&mut self, body: &[u8]) -> (r: Result<(), MediaError>)
        requires
            old(self).wf(),
            !old(self).is_done_spec(),
        ensures
            r matches Err(e) ==> file_list_paths_from(body@, 0) == Err::<Seq<Seq<char>>, MediaError>(e),
            r is Err ==> *final(self) == *old(self),
            r is Ok ==> (file_list_paths_from(body@, 0) matches Ok(page) && final(self).wf()
                && final(self).selector_of() == old(self).selector_of()
                && final(self).paths_of() == append_unique(old(self).paths_of(), page)
                && Self::moves_on(*old(self), *final(self), page.len())
                && final(self).pages_left() < old(self).pages_left()),
    {
        match parse_file_list_paths(body) {
            Err(e) => Err(e),
            Ok(page) => {
                self.accept_page(page);
                Ok(())
            },
        }
    }

    /// The paths gathered.
    pub fn into_paths(self) -> (r: Vec<String>)
        ensures
            string_views(r@) == self.paths_of(),
    {
        self.paths
    }
}

/// The file names and addresses of the media among `paths` of the storage named `storage_id`,
/// in order; `None` when the address of one of them cannot be formed from `base`.
pub open spec fn storage_items_spec(base: Seq<char>, storage_id: Seq<char>, paths: Seq<Seq<char>>) -> Option<Seq<(Seq<char>, Seq<char>)>>
    decreases paths.len(),
{
    if paths.len() == 0 {
        Some(Seq::empty())
    } else {
        match storage_items_spec(base, storage_id, paths.drop_last()) {
            None => None,
            Some(prev) => match media_name_spec(paths.last(), storage_id) {
                None => Some(prev),
                Some(name) => match url_with_path_spec(base, paths.last()) {
                    None => None,
                    Some(url) => Some(prev.push((name, url))),
                },
            },
        }
    }
}

proof fn lemma_items_prefix_none(base: Seq<char>, storage_id: Seq<char>, paths: Seq<Seq<char>>, i: int)
    requires
        0 <= i <= paths.len(),
        storage_items_spec(base, storage_id, paths.subrange(0, i)) is None,
    ensures
        storage_items_spec(base, storage_id, paths) is None,
    decreases paths.len(),
{
    if i == paths.len() {
        assert(paths.subrange(0, i) =~= paths);
    } else {
        assert(paths.drop_last().subrange(0, i) =~= paths.subrange(0, i));
        lemma_items_prefix_none(base, storage_id, paths.drop_last(), i);
    }
}

/// Whether `files` are the media items `items` of `storage`, in order.
pub open spec fn are_media_items(files: Seq<LunaFile>, items: Seq<(Seq<char>, Seq<char>)>, storage: MediaStorage) -> bool {
    files.len() == items.len() && forall|k: int| 0 <= k < files.len() ==> is_media_item(
        #[trigger] files[k],
        items[k].0,
        items[k].1,
        storage,
    )
}

/// The media items of the paths listed for `storage` on the camera at `host`: paths outside
/// the storage's media root or without a media extension are left out.
pub fn storage_files(host: &str, storage: MediaStorage, paths: &[String]) -> (r: Result<Vec<LunaFile>, MediaError>)
    ensures
        match storage_items_spec("http://"@ + host@, storage.id@, string_views(paths@)) {
            None => r == Err::<Vec<LunaFile>, MediaError>(MediaError::InvalidHost),
            Some(items) => (r matches Ok(files) && are_media_items(files@, items, storage)),
        },
{
    let ghost base = "http://"@ + host@;
    let n = paths.len();
    let mut files: Vec<LunaFile> = Vec::new();
    let mut i: usize = 0;
    while i < n
        invariant
            n == paths@.len(),
            i <= n,
            base == "http://"@ + host@,
            storage_items_spec(base, storage.id@, string_views(paths@).subrange(0, i as int)) matches Some(items)
                && are_media_items(files@, items, storage),
        decreases n - i,
    {
        let ghost pre = string_views(paths@).subrange(0, i as int);
        let ghost next = string_views(paths@).subrange(0, i + 1);
        assert(next.drop_last() =~= pre);
        assert(next.last() == paths@[i as int]@);
        let ghost items = storage_items_spec(base, storage.id@, pre).unwrap();
        match camera_file_from_path(host, paths[i].as_str(), storage) {
            Err(e) => {
                proof {
                    lemma_items_prefix_none(base, storage.id@, string_views(paths@), i + 1);
                }
                return Err(e);
            },
            Ok(None) => {},
            Ok(Some(f)) => {
                let ghost old_files = files@;
                files.push(f);
                proof {
                    let name = media_name_spec(next.last(), storage.id@).unwrap();
                    let url = url_with_path_spec(base, next.last()).unwrap();
                    let items2 = items.push((name, url));
                    assert forall|k: int| 0 <= k < files@.len() implies is_media_item(
                        #[trigger] files@[k],
                        items2[k].0,
                        items2[k].1,
                        storage,
                    ) by {
                        if k < old_files.len() {
                            assert(files@[k] == old_files[k]);
                        }
                    }
                }
            },
        }
        i = i + 1;
    }
    assert(string_views(paths@).subrange(0, n as int) =~= string_views(paths@));
    Ok(files)
}

/// The files of the storages that answered, in storage order.
pub open spec fn listed_files(outcomes: Seq<Result<Vec<LunaFile>, String>>) -> Seq<LunaFile>
    decreases outcomes.len(),
{
    if outcomes.len() == 0 {
        Seq::empty()
    } else {
        listed_files(outcomes.drop_last()) + match outcomes.last() {
            Ok(v) => v@,
            Err(_) => Seq::empty(),
        }
    }
}

/// `files` with every file whose address already occurred left out.
pub open spec fn dedup_by_url(files: Seq<LunaFile>) -> Seq<LunaFile>
    decreases files.len(),
{
    if files.len() == 0 {
        Seq::empty()
    } else {
        let prev = dedup_by_url(files.drop_last());
        if exists|k: int| 0 <= k < prev.len() && #[trigger] prev[k].url@ == files.last().url@ {
            prev
        } else {
            prev.push(files.last())
        }
    }
}

/// The failure text of each storage that did not answer: its label, a full-width colon and
/// what went wrong.
pub open spec fn failure_texts(storages: Seq<MediaStorage>, outcomes: Seq<Result<Vec<LunaFile>, String>>) -> Seq<Seq<char>>
    decreases outcomes.len(),
{
    if outcomes.len() == 0 {
        Seq::empty()
    } else {
        let prev = failure_texts(storages.drop_last(), outcomes.drop_last());
        match outcomes.last() {
            Ok(_) => prev,
            Err(e) => prev.push(storages.last().label@ + "："@ + e@),
        }
    }
}

/// The parts joined with `sep` between each two.
pub open spec fn join_spec(parts: Seq<Seq<char>>, sep: Seq<char>) -> Seq<char>
    decreases parts.len(),
{
    if parts.len() == 0 {
        Seq::empty()
    } else if parts.len() == 1 {
        parts[0]
    } else {
        join_spec(parts.drop_last(), sep) + sep + parts.last()
    }
}

/// Whether some storage answered.
pub open spec fn some_answered(outcomes: Seq<Result<Vec<LunaFile>, String>>) -> bool {
    exists|k: int| 0 <= k < outcomes.len() && #[trigger] outcomes[k] is Ok
}

/// What the listing of several storages gives: when none answered and some failed, the failures
/// joined with `；`; otherwise the files of the storages that answered, each address once.
pub open spec fn merged_listing(storages: Seq<MediaStorage>, outcomes: Seq<Result<Vec<LunaFile>, String>>) -> Result<Seq<LunaFile>, Seq<char>> {
    if !some_answered(outcomes) && outcomes.len() > 0 {
        Err(join_spec(failure_texts(storages, outcomes), "；"@))
    } else {
        Ok(dedup_by_url(listed_files(outcomes)))
    }
}

/// The same file, field by field.
fn copy_file(f: &LunaFile) -> (r: LunaFile)
    ensures
        r == *f,
{
    LunaFile {
        name: f.name.clone(),
        url: f.url.clone(),
        date: f.date.clone(),
        time: f.time.clone(),
        size_text: f.size_text.clone(),
        bytes: f.bytes,
        kind: f.kind.clone(),
        storage_id: f.storage_id.clone(),
        storage_label: f.storage_label.clone(),
    }
}

/// Merges the outcomes of the storages' listings, one per storage in the same order.
pub fn merge_storage_listings(storages: &[MediaStorage], outcomes: &[Result<Vec<LunaFile>, String>]) -> (r: Result<Vec<LunaFile>, String>)
    requires
        storages@.len() == outcomes@.len(),
    ensures
        match merged_listing(storages@, outcomes@) {
            Ok(files) => (r matches Ok(v) && v@ == files),
            Err(text) => (r matches Err(t) && t@ == text),
        },
{
    let n = outcomes.len();
    let mut all: Vec<LunaFile> = Vec::new();
    let mut failures: Vec<char> = Vec::new();
    let mut failure_count: usize = 0;
    let mut answered = false;
    let mut i: usize = 0;
    while i < n
        invariant
            n == outcomes@.len(),
            n == storages@.len(),
            i <= n,
            all@ == listed_files(outcomes@.subrange(0, i as int)),
            failure_count == failure_texts(storages@.subrange(0, i as int), outcomes@.subrange(0, i as int)).len(),
            failures@ == join_spec(failure_texts(storages@.subrange(0, i as int), outcomes@.subrange(0, i as int)), "；"@),
            answered == some_answered(outcomes@.subrange(0, i as int)),
            failure_count <= i,
        decreases n - i,
    {
        let ghost pre_o = outcomes@.subrange(0, i as int);
        let ghost next_o = outcomes@.subrange(0, i + 1);
        let ghost pre_s = storages@.subrange(0, i as int);
        let ghost next_s = storages@.subrange(0, i + 1);
        assert(next_o.drop_last() =~= pre_o);
        assert(next_s.drop_last() =~= pre_s);
        assert(next_o.last() == outcomes@[i as int]);
        assert(next_s.last() == storages@[i as int]);
        match &outcomes[i] {
            Ok(files) => {
                let ghost before = all@;
                let m = files.len();
                let mut j: usize = 0;
                while j < m
                    invariant
                        m == files@.len(),
                        j <= m,
                        all@ == before + files@.subrange(0, j as int),
                    decreases m - j,
                {
                    all.push(copy_file(&files[j]));
                    j = j + 1;
                    assert(all@ =~= before + files@.subrange(0, j as int));
                }
                assert(files@.subrange(0, m as int) =~= files@);
                answered = true;
                assert(next_o[i as int] is Ok);
            },
            Err(text) => {
                let ghost prev_texts = failure_texts(pre_s, pre_o);
                let ghost item = storages@[i as int].label@ + "："@ + text@;
                let mut piece: Vec<char> = Vec::new();
                push_str(&mut piece, storages[i].label);
                push_str(&mut piece, "：");
                push_str(&mut piece, text.as_str());
                if failure_count > 0 {
                    push_str(&mut failures, "；");
                }
                push_chars(&mut failures, piece.as_slice());
                failure_count = failure_count + 1;
                proof {
                    let texts = prev_texts.push(item);
                    assert(texts.drop_last() =~= prev_texts);
                    if prev_texts.len() == 0 {
                        assert(failures@ =~= texts[0]);
                    } else {
                        assert(failures@ =~= join_spec(prev_texts, "；"@) + "；"@ + item);
                    }
                    assert(listed_files(next_o) =~= listed_files(pre_o) + Seq::<LunaFile>::empty());
                    if answered {
                        let k = choose|k: int| 0 <= k < pre_o.len() && #[trigger] pre_o[k] is Ok;
                        assert(next_o[k] is Ok);
                    } else {
                        assert forall|k: int| 0 <= k < next_o.len() implies !(#[trigger] next_o[k] is Ok) by {
                            if k < i {
                                assert(next_o[k] == pre_o[k]);
                            }
                        }
                    }
                }
            },
        }
        i = i + 1;
    }
    assert(outcomes@.subrange(0, n as int) =~= outcomes@);
    assert(storages@.subrange(0, n as int) =~= storages@);
    if !answered && n > 0 {
        return Err(string_from_chars(failures.as_slice()));
    }
    let total = all.len();
    let mut kept: Vec<LunaFile> = Vec::new();
    let mut k: usize = 0;
    while k < total
        invariant
            total == all@.len(),
            k <= total,
            kept@ == dedup_by_url(all@.subrange(0, k as int)),
        decreases total - k,
    {
        let ghost pre = all@.subrange(0, k as int);
        let ghost next = all@.subrange(0, k + 1);
        assert(next.drop_last() =~= pre);
        let mut seen = false;
        let mut q: usize = 0;
        while q < kept.len()
            invariant
                q <= kept@.len(),
                kept@ == dedup_by_url(pre),
                k < total,
                total == all@.len(),
                seen ==> exists|x: int| 0 <= x < kept@.len() && #[trigger] kept@[x].url@ == all@[k as int].url@,
                !seen ==> forall|x: int| 0 <= x < q ==> #[trigger] kept@[x].url@ != all@[k as int].url@,
            decreases kept@.len() - q,
        {
            if str_eq(kept[q].url.as_str(), all[k].url.as_str()) {
                seen = true;
            }
            q = q + 1;
        }
        if !seen {
            kept.push(copy_file(&all[k]));
        }
        k = k + 1;
    }
    assert(all@.subrange(0, total as int) =~= all@);
    Ok(kept)
}

/// The camera paths that deleting `urls` asks for: each URL's path, once each, in the order
/// they first come; the first URL that is refused refuses the whole request.
pub open spec fn deletion_paths_spec(host: Seq<char>, urls: Seq<Seq<char>>) -> Result<Seq<Seq<char>>, MediaError>
    decreases urls.len(),
{
    if urls.len() == 0 {
        Ok(Seq::empty())
    } else {
        match deletion_paths_spec(host, urls.drop_last()) {
            Err(e) => Err(e),
            Ok(paths) => match camera_path_spec(host, urls.last()) {
                Err(e) => Err(e),
                Ok(p) => Ok(
                    if paths.contains(p) {
                        paths
                    } else {
                        paths.push(p)
                    },
                ),
            },
        }
    }
}

/// Most paths deleted by one request.
pub const DELETE_BATCH_SIZE: usize = 50;

/// The paths of batch `k` when `n` paths are deleted fifty at a time.
pub open spec fn batch_bounds(k: int, n: int) -> (int, int) {
    (50 * k, if 50 * k + 50 <= n {
        50 * k + 50
    } else {
        n
    })
}

/// Whether `bodies` are the delete requests for `paths`, fifty paths at a time, in order.
pub open spec fn are_delete_batches(bodies: Seq<Vec<u8>>, paths: Seq<String>) -> bool {
    &&& bodies.len() == (paths.len() + 49) / 50
    &&& forall|k: int| 0 <= k < bodies.len() ==> #[trigger] bodies[k]@ == delete_body_spec(
        paths.subrange(batch_bounds(k, paths.len() as int).0, batch_bounds(k, paths.len() as int).1),
    )
}

proof fn lemma_str_path_prefix_none(host: Seq<char>, urls: Seq<Seq<char>>, i: int)
    requires
        0 <= i <= urls.len(),
        deletion_paths_spec(host, urls.subrange(0, i)) is Err,
    ensures
        deletion_paths_spec(host, urls) == deletion_paths_spec(host, urls.subrange(0, i)),
    decreases urls.len(),
{
    if i == urls.len() {
        assert(urls.subrange(0, i) =~= urls);
    } else {
        assert(urls.drop_last().subrange(0, i) =~= urls.subrange(0, i));
        lemma_str_path_prefix_none(host, urls.drop_last(), i);
    }
}

/// Plans the deletion of the media at `urls` from the camera at `host`: the paths to delete,
/// once each, and the delete requests that remove them fifty at a time.
pub fn plan_media_deletion(host: &str, urls: &[String]) -> (r: Result<(Vec<String>, Vec<Vec<u8>>), MediaError>)
    ensures
        match deletion_paths_spec(host@, string_views(urls@)) {
            Err(e) => r == Err::<(Vec<String>, Vec<Vec<u8>>), MediaError>(e),
            Ok(paths) => if paths.len() == 0 {
                r == Err::<(Vec<String>, Vec<Vec<u8>>), MediaError>(MediaError::NothingToDelete)
            } else {
                r matches Ok((ps, bodies)) && string_views(ps@) == paths && are_delete_batches(bodies@, ps@)
            },
        },
{
    let n = urls.len();
    let mut paths: Vec<String> = Vec::new();
    let mut i: usize = 0;
    assert(string_views(paths@) =~= Seq::<Seq<char>>::empty());
    assert(string_views(urls@).subrange(0, 0) =~= Seq::<Seq<char>>::empty());
    while i < n
        invariant
            n == urls@.len(),
            i <= n,
            deletion_paths_spec(host@, string_views(urls@).subrange(0, i as int)) == Ok::<Seq<Seq<char>>, MediaError>(
                string_views(paths@),
            ),
        decreases n - i,
    {
        let ghost pre = string_views(urls@).subrange(0, i as int);
        let ghost next = string_views(urls@).subrange(0, i + 1);
        assert(next.drop_last() =~= pre);
        assert(next.last() == urls@[i as int]@);
        match camera_path_from_url(host, urls[i].as_str()) {
            Err(e) => {
                proof {
                    lemma_str_path_prefix_none(host@, string_views(urls@), i + 1);
                }
                return Err(e);
            },
            Ok(p) => {
                let ghost before = string_views(paths@);
                let mut seen = false;
                let mut q: usize = 0;
                while q < paths.len()
                    invariant
                        q <= paths@.len(),
                        before == string_views(paths@),
                        seen ==> before.contains(p@),
                        !seen ==> forall|x: int| 0 <= x < q ==> before[x] != p@,
                    decreases paths@.len() - q,
                {
                    if str_eq(paths[q].as_str(), p.as_str()) {
                        seen = true;
                        assert(before[q as int] == p@);
                    }
                    q = q + 1;
                }
                if !seen {
                    paths.push(p);
                    assert(string_views(paths@) =~= before.push(p@));
                }
            },
        }
        i = i + 1;
    }
    assert(string_views(urls@).subrange(0, n as int) =~= string_views(urls@));
    let total = paths.len();
    if total == 0 {
        return Err(MediaError::NothingToDelete);
    }
    let mut bodies: Vec<Vec<u8>> = Vec::new();
    let mut start: usize = 0;
    while start < total
        invariant
            total == paths@.len(),
            total > 0,
            start <= total,
            start == 50 * bodies@.len() || start == total,
            start < total ==> start == 50 * bodies@.len(),
            start == total ==> bodies@.len() == (total + 49) / 50,
            forall|k: int| 0 <= k < bodies@.len() ==> #[trigger] bodies@[k]@ == delete_body_spec(
                paths@.subrange(batch_bounds(k, total as int).0, batch_bounds(k, total as int).1),
            ),
        decreases total - start,
    {
        let end = if total - start > 50 {
            start + 50
        } else {
            total
        };
        let batch = slice_strings(paths.as_slice(), start, end);
        let body = match build_delete_files_body(batch.as_slice()) {
            Ok(b) => b,
            Err(e) => return Err(e),
        };
        let ghost k = bodies@.len() as int;
        bodies.push(body);
        assert(batch_bounds(k, total as int) == (start as int, end as int));
        start = end;
        assert(start < total ==> start == 50 * bodies@.len());
        assert(start == total ==> bodies@.len() == (total + 49) / 50);
    }
    Ok((paths, bodies))
}

/// The strings `v[a..b]`, copied.
fn slice_strings(v: &[String], a: usize, b: usize) -> (r: Vec<String>)
    requires
        a <= b <= v@.len(),
    ensures
        r@ == v@.subrange(a as int, b as int),
{
    let mut r: Vec<String> = Vec::new();
    let mut i = a;
    while i < b
        invariant
            a <= i <= b <= v@.len(),
            r@ == v@.subrange(a as int, i as int),
        decreases b - i,
    {
        r.push(v[i].clone());
        i = i + 1;
        assert(r@ =~= v@.subrange(a as int, i as int));
    }
    r
}

} // verus!
