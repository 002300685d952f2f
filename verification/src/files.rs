//! File classification and the catalog listing: paths walked by the
//! ignore-aware enumerator are kept when they are regular files whose
//! extension the compiled matcher accepts, and turned into catalog rows.
//! Each row carries a content fingerprint obtained cache-aside: the store
//! is consulted under the root-relative path, and the file's bytes are
//! hashed only on a miss.

use crate::fingerprint::fingerprint_decision;
use crate::fingerprint::fingerprint_spec;
use crate::fingerprint::fingerprint_value;
use crate::fingerprint::opt_bytes_view;
use crate::fingerprint::opt_string_view;
use crate::fingerprint::MemoryStore;
use crate::matcher::accepts_spec;
use crate::matcher::compile;
use crate::matcher::compile_spec;
use crate::matcher::opt_str_view;
use crate::matcher::CompiledMatcher;
use crate::matcher::MatcherView;
use crate::registry::contains_name;
use crate::registry::strs_view;
use crate::registry::Registry;
use crate::text::last_index_of;
use crate::text::lower_seq;
use crate::text::spec_last_index_of;
use crate::text::str_eq;
use crate::text::to_ascii_lower;
use crate::utils::is_under;
use crate::utils::path_is_under;
use crate::utils::rel_of;
use crate::utils::relative_to;
use vstd::prelude::*;

verus! {

/// The coarse classification of a file by its extension.
#[derive(Clone, Copy, Debug, PartialEq, Eq, Structural)]
pub enum FileType {
    Image,
    Video,
    Audio,
    Other,
}

/// The file name of `p`: everything after the last separator.
pub open spec fn file_name_of(p: Seq<char>) -> Seq<char> {
    p.subrange(spec_last_index_of(p, '/') + 1, p.len() as int)
}

/// The extension of the file named by `p`: what follows the last dot of the
/// file name, unless the name has no dot or only a leading one.
pub open spec fn extension_of(p: Seq<char>) -> Option<Seq<char>> {
    let name = file_name_of(p);
    let d = spec_last_index_of(name, '.');
    if d <= 0 {
        None
    } else {
        Some(name.subrange(d + 1, name.len() as int))
    }
}

/// The extension token used for matching: the extension as written, or the
/// empty sentinel for a file without one.
pub open spec fn raw_token_of(p: Seq<char>) -> Seq<char> {
    match extension_of(p) {
        Some(e) => e,
        None => Seq::empty(),
    }
}

/// The classification of one case-normalized extension token.
pub open spec fn classify(ext: Seq<char>) -> FileType {
    if ext == "jpg"@ || ext == "jpeg"@ || ext == "png"@ || ext == "gif"@ || ext == "webp"@ {
        FileType::Image
    } else if ext == "mp4"@ || ext == "webm"@ {
        FileType::Video
    } else if ext == "mp3"@ || ext == "flac"@ {
        FileType::Audio
    } else {
        FileType::Other
    }
}

/// The classification of a path: its extension is compared after
/// lowercasing; `None` when the path has no extension.
pub open spec fn spec_file_type_of(p: Seq<char>) -> Option<FileType> {
    match extension_of(p) {
        Some(e) => Some(classify(lower_seq(e))),
        None => None,
    }
}

/// The file name of `path`.
pub fn file_name_str(path: &str) -> (r: String)
    ensures
        r@ == file_name_of(path@),
{
    let len = path.unicode_len();
    match last_index_of(path, '/') {
        Some(i) => path.substring_char(i + 1, len).to_owned(),
        None => {
            proof {
                assert(file_name_of(path@) =~= path@.subrange(0, len as int));
            }
            path.substring_char(0, len).to_owned()
        },
    }
}

/// The extension of `path`, as written.
pub fn extension_str(path: &str) -> (r: Option<String>)
    ensures
        match r {
            Some(e) => extension_of(path@) == Some(e@),
            None => extension_of(path@) is None,
        },
{
    let name = file_name_str(path);
    let nlen = name.as_str().unicode_len();
    match last_index_of(name.as_str(), '.') {
        Some(d) => {
            if d == 0 {
                None
            } else {
                Some(name.as_str().substring_char(d + 1, nlen).to_owned())
            }
        },
        None => None,
    }
}

fn classify_token(e: &str) -> (r: FileType)
    ensures
        r == classify(e@),
{
    if str_eq(e, "jpg") || str_eq(e, "jpeg") || str_eq(e, "png") || str_eq(e, "gif") || str_eq(
        e,
        "webp",
    ) {
        FileType::Image
    } else if str_eq(e, "mp4") || str_eq(e, "webm") {
        FileType::Video
    } else if str_eq(e, "mp3") || str_eq(e, "flac") {
        FileType::Audio
    } else {
        FileType::Other
    }
}

impl FileType {
    /// Classify a path by its lowercased extension; `None` when it has
    /// none.
    pub fn from_path(path: &str) -> (r: Option<FileType>)
        ensures
            r == spec_file_type_of(path@),
    {
        match extension_str(path) {
            Some(e) => {
                let low = to_ascii_lower(e.as_str());
                Some(classify_token(low.as_str()))
            },
            None => None,
        }
    }
}

/// One catalog row: where the file is, what it is, and its fingerprint.
#[derive(Clone, Debug)]
pub struct FileInfo {
    pub url: String,
    pub name: String,
    pub path: String,
    pub type_: FileType,
    pub extension: String,
    pub hash: String,
}

/// Spec mirror of `FileInfo`.
pub struct FileInfoView {
    pub url: Seq<char>,
    pub name: Seq<char>,
    pub path: Seq<char>,
    pub type_: FileType,
    pub extension: Seq<char>,
    pub hash: Seq<char>,
}

impl View for FileInfo {
    type V = FileInfoView;

    open spec fn view(&self) -> FileInfoView {
        FileInfoView {
            url: self.url@,
            name: self.name@,
            path: self.path@,
            type_: self.type_,
            extension: self.extension@,
            hash: self.hash@,
        }
    }
}

/// The catalog row for the file at `path` under `base`: the served URL, the
/// file name, the root-relative path, the classification of that relative
/// path (by lowercased extension; a missing extension counts as `Other`),
/// the lowercased extension (empty when there is none), and the content
/// fingerprint decided from the store's answer and the file's content.
pub open spec fn catalog_entry_spec(
    path: Seq<char>,
    base: Seq<char>,
    cached: Option<Seq<char>>,
    content: Option<Seq<u8>>,
) -> FileInfoView {
    let rel = rel_of(path, base);
    FileInfoView {
        url: "/media/"@ + rel,
        name: file_name_of(path),
        path: rel,
        type_: match extension_of(rel) {
            Some(e) => classify(lower_seq(e)),
            None => FileType::Other,
        },
        extension: lower_seq(raw_token_of(path)),
        hash: fingerprint_value(cached, content),
    }
}

/// Build the catalog row for one file, given the store's answer for its
/// root-relative path and, on a miss, the file's content.
pub fn catalog_entry(path: &str, base: &str, cached: Option<String>, content: Option<&[u8]>) -> (r:
    FileInfo)
    requires
        is_under(path@, base@),
    ensures
        r@ == catalog_entry_spec(path@, base@, opt_string_view(cached), opt_bytes_view(content)),
{
    let rel = relative_to(path, base);
    let name = file_name_str(path);
    let url = "/media/".to_owned().concat(rel.as_str());
    let type_ = match FileType::from_path(rel.as_str()) {
        Some(t) => t,
        None => FileType::Other,
    };
    let extension = match extension_str(path) {
        Some(e) => to_ascii_lower(e.as_str()),
        None => {
            proof {
                assert(lower_seq(raw_token_of(path@)) =~= Seq::<char>::empty());
            }
            String::new()
        },
    };
    let (hash, _to_store) = fingerprint_decision(cached, content);
    FileInfo { url, name, path: rel, type_, extension, hash }
}

impl FileInfo {
    /// Build the row for `path` under `base`, with the fingerprint decided
    /// from the store's answer (and the content, on a miss). The path must
    /// carry an extension both as given and relative to `base`: the
    /// original interface treats anything else as a programming error.
    pub fn from_path(path: &str, base: &str, cached: Option<String>, content: Option<&[u8]>) -> (r:
        FileInfo)
        requires
            is_under(path@, base@),
            extension_of(path@) is Some,
            extension_of(rel_of(path@, base@)) is Some,
        ensures
            r@ == catalog_entry_spec(
                path@,
                base@,
                opt_string_view(cached),
                opt_bytes_view(content),
            ),
    {
        catalog_entry(path, base, cached, content)
    }
}

/// Relies on ignore::Walk: walks the tree under `root`, honoring
/// ignore-file exclusion rules; entries that fail to read are skipped, and
/// each entry reports its path and whether it resolves to a regular file
/// (symlinks followed). What comes back depends on the filesystem, so
/// nothing is promised of it.
#[verifier::external_body]
fn walk_dir(root: &str) -> (r: Vec<(String, bool)>) {
    let mut out: Vec<(String, bool)> = Vec::new();
    for entry in ignore::Walk::new(root).flatten() {
        let is_file = entry.path().is_file();
        out.push((entry.path().to_string_lossy().into_owned(), is_file));
    }
    out
}

/// The view of walked entries.
pub open spec fn pairs_view(s: Seq<(String, bool)>) -> Seq<(Seq<char>, bool)> {
    s.map_values(|p: (String, bool)| (p.0@, p.1))
}

/// The paths among `entries` that are regular files, in order.
pub open spec fn spec_file_paths(entries: Seq<(Seq<char>, bool)>) -> Seq<Seq<char>>
    decreases entries.len(),
{
    if entries.len() == 0 {
        Seq::empty()
    } else {
        let rest = spec_file_paths(entries.drop_last());
        if entries.last().1 {
            rest.push(entries.last().0)
        } else {
            rest
        }
    }
}

/// Keep the regular files among walked entries.
pub fn file_paths(entries: &Vec<(String, bool)>) -> (r: Vec<String>)
    ensures
        strs_view(r@) == spec_file_paths(pairs_view(entries@)),
{
    let ghost ev = pairs_view(entries@);
    let mut r: Vec<String> = Vec::new();
    let mut i: usize = 0;
    while i < entries.len()
        invariant
            i <= entries@.len(),
            ev == pairs_view(entries@),
            ev.len() == entries@.len(),
            strs_view(r@) == spec_file_paths(ev.take(i as int)),
        decreases entries@.len() - i,
    {
        let ghost old_r = r@;
        if entries[i].1 {
            r.push(entries[i].0.clone());
        }
        proof {
            assert(ev.take(i + 1).drop_last() =~= ev.take(i as int));
            assert(ev.take(i + 1).last() == ev[i as int]);
            if ev[i as int].1 {
                assert(strs_view(r@) =~= strs_view(old_r).push(ev[i as int].0));
            }
            assert(strs_view(r@) == spec_file_paths(ev.take(i + 1)));
        }
        i += 1;
    }
    proof {
        assert(ev.take(ev.len() as int) =~= ev);
    }
    r
}

/// All regular files under `root`, in traversal order. The contents depend
/// on the filesystem; the selection of regular files is `file_paths`.
pub fn get_files(root: &str) -> (r: Vec<String>) {
    let entries = walk_dir(root);
    file_paths(&entries)
}

/// The paths among `ps` whose extension token the matcher accepts.
pub open spec fn spec_filter_paths(ps: Seq<Seq<char>>, m: MatcherView) -> Seq<Seq<char>>
    decreases ps.len(),
{
    if ps.len() == 0 {
        Seq::empty()
    } else {
        let rest = spec_filter_paths(ps.drop_last(), m);
        if accepts_spec(m, raw_token_of(ps.last())) {
            rest.push(ps.last())
        } else {
            rest
        }
    }
}

/// Every path a filter keeps is accepted by the matcher.
pub proof fn lemma_filter_paths_accepted(ps: Seq<Seq<char>>, m: MatcherView)
    ensures
        forall|i: int|
            0 <= i < spec_filter_paths(ps, m).len() ==> accepts_spec(
                m,
                raw_token_of(#[trigger] spec_filter_paths(ps, m)[i]),
            ),
    decreases ps.len(),
{
    if ps.len() > 0 {
        lemma_filter_paths_accepted(ps.drop_last(), m);
        let rest = spec_filter_paths(ps.drop_last(), m);
        assert forall|i: int| 0 <= i < spec_filter_paths(ps, m).len() implies accepts_spec(
            m,
            raw_token_of(#[trigger] spec_filter_paths(ps, m)[i]),
        ) by {
            if accepts_spec(m, raw_token_of(ps.last())) {
                if i < rest.len() {
                    assert(spec_filter_paths(ps, m)[i] == rest[i]);
                } else {
                    assert(spec_filter_paths(ps, m)[i] == ps.last());
                }
            } else {
                assert(spec_filter_paths(ps, m)[i] == rest[i]);
            }
        }
    }
}

/// Keep the paths the matcher accepts.
pub fn filter_paths(paths: &Vec<String>, m: &CompiledMatcher) -> (r: Vec<String>)
    ensures
        strs_view(r@) == spec_filter_paths(strs_view(paths@), m@),
{
    let ghost pv = strs_view(paths@);
    let mut r: Vec<String> = Vec::new();
    let mut i: usize = 0;
    while i < paths.len()
        invariant
            i <= paths@.len(),
            pv == strs_view(paths@),
            pv.len() == paths@.len(),
            strs_view(r@) == spec_filter_paths(pv.take(i as int), m@),
        decreases paths@.len() - i,
    {
        let ghost old_r = r@;
        let tok = match extension_str(paths[i].as_str()) {
            Some(e) => e,
            None => String::new(),
        };
        proof {
            assert(tok@ == raw_token_of(pv[i as int]));
        }
        if m.accepts(tok.as_str()) {
            r.push(paths[i].clone());
        }
        proof {
            assert(pv.take(i + 1).drop_last() =~= pv.take(i as int));
            assert(pv.take(i + 1).last() == pv[i as int]);
            if accepts_spec(m@, raw_token_of(pv[i as int])) {
                assert(strs_view(r@) =~= strs_view(old_r).push(pv[i as int]));
            }
            assert(strs_view(r@) == spec_filter_paths(pv.take(i + 1), m@));
        }
        i += 1;
    }
    proof {
        assert(pv.take(pv.len() as int) =~= pv);
    }
    r
}

/// All regular files under `root` whose extension the matcher accepts. The
/// traversal depends on the filesystem; the selection is `filter_paths`
/// over some walked path list.
pub fn get_files_with_filter(root: &str, matcher: &CompiledMatcher) -> (r: Vec<String>)
    ensures
        forall|i: int|
            0 <= i < r@.len() ==> accepts_spec(matcher@, raw_token_of(#[trigger] r@[i]@)),
        exists|ps: Seq<Seq<char>>| strs_view(r@) == spec_filter_paths(ps, matcher@),
{
    let files = get_files(root);
    let r = filter_paths(&files, matcher);
    proof {
        assert(strs_view(r@) == spec_filter_paths(strs_view(files@), matcher@));
        lemma_filter_paths_accepted(strs_view(files@), matcher@);
        assert forall|i: int| 0 <= i < r@.len() implies accepts_spec(
            matcher@,
            raw_token_of(#[trigger] r@[i]@),
        ) by {
            assert(strs_view(r@)[i] == r@[i]@);
        }
    }
    r
}

/// All regular files under `root` carrying one of the given extensions,
/// compared case-insensitively.
pub fn get_files_by_extensions(root: &str, extensions: &Vec<String>) -> (r: Vec<String>)
    ensures
        forall|i: int|
            0 <= i < r@.len() ==> crate::matcher::lowered_set(extensions@).contains(
                lower_seq(raw_token_of(#[trigger] r@[i]@)),
            ),
        exists|ps: Seq<Seq<char>>|
            strs_view(r@) == #[trigger] spec_filter_paths(
                ps,
                (MatcherView { all: false, exts: crate::matcher::lowered_set(extensions@) }),
            ),
{
    let m = crate::matcher::matcher_from_extensions(extensions);
    get_files_with_filter(root, &m)
}

/// Errors from assembling a catalog listing.
#[derive(Clone, Copy, Debug, PartialEq, Eq, Structural)]
pub enum ListError {
    /// The enumerator yielded a path outside the catalog root.
    PathNotUnderRoot,
}

/// The views of catalog rows.
pub open spec fn infos_view(s: Seq<FileInfo>) -> Seq<FileInfoView> {
    s.map_values(|f: FileInfo| f@)
}

/// The views of per-path contents; `None` stands for a file that could not
/// be read.
pub open spec fn contents_view(s: Seq<Option<Vec<u8>>>) -> Seq<Option<Seq<u8>>> {
    s.map_values(
        |o: Option<Vec<u8>>|
            match o {
                Some(b) => Some(b@),
                None => None,
            },
    )
}

/// Assembling the accepted files among `ps` into catalog rows, threading
/// the fingerprint store: the rows (or an error at the first path that
/// does not lie under `base`), and the store as each accepted row's
/// cache-aside lookup leaves it.
pub open spec fn collect_spec(
    ps: Seq<Seq<char>>,
    cs: Seq<Option<Seq<u8>>>,
    base: Seq<char>,
    m: MatcherView,
    st0: Map<Seq<char>, Seq<char>>,
) -> (Result<Seq<FileInfoView>, ListError>, Map<Seq<char>, Seq<char>>)
    decreases ps.len(),
{
    if ps.len() == 0 {
        (Ok(Seq::empty()), st0)
    } else {
        let (res, st) = collect_spec(ps.drop_last(), cs.drop_last(), base, m, st0);
        match res {
            Err(e) => (Err(e), st),
            Ok(rows) => {
                if !is_under(ps.last(), base) {
                    (Err(ListError::PathNotUnderRoot), st)
                } else if accepts_spec(m, raw_token_of(ps.last())) {
                    let key = rel_of(ps.last(), base);
                    let (v, st2) = fingerprint_spec(st, key, cs.last());
                    let cached = if st.contains_key(key) {
                        Some(st[key])
                    } else {
                        None
                    };
                    (Ok(rows.push(catalog_entry_spec(ps.last(), base, cached, cs.last()))), st2)
                } else {
                    (Ok(rows), st)
                }
            },
        }
    }
}

proof fn lemma_collect_err_persists(
    ps: Seq<Seq<char>>,
    cs: Seq<Option<Seq<u8>>>,
    base: Seq<char>,
    m: MatcherView,
    st0: Map<Seq<char>, Seq<char>>,
    k: int,
)
    requires
        0 <= k <= ps.len(),
        ps.len() == cs.len(),
        collect_spec(ps.take(k), cs.take(k), base, m, st0).0 is Err,
    ensures
        collect_spec(ps, cs, base, m, st0) == collect_spec(ps.take(k), cs.take(k), base, m, st0),
    decreases ps.len() - k,
{
    if k == ps.len() {
        assert(ps.take(k) =~= ps);
        assert(cs.take(k) =~= cs);
    } else {
        assert(ps.take(k + 1).drop_last() =~= ps.take(k));
        assert(cs.take(k + 1).drop_last() =~= cs.take(k));
        lemma_collect_err_persists(ps, cs, base, m, st0, k + 1);
    }
}

/// With the match-everything matcher, a listing keeps every file: when all
/// paths lie under the root, assembly succeeds and yields one row per path.
pub proof fn lemma_all_matcher_keeps_every_file(
    ps: Seq<Seq<char>>,
    cs: Seq<Option<Seq<u8>>>,
    base: Seq<char>,
    m: MatcherView,
    st0: Map<Seq<char>, Seq<char>>,
)
    requires
        m.all,
        ps.len() == cs.len(),
        forall|i: int| 0 <= i < ps.len() ==> is_under(#[trigger] ps[i], base),
    ensures
        match collect_spec(ps, cs, base, m, st0).0 {
            Ok(rows) => rows.len() == ps.len(),
            Err(_) => false,
        },
    decreases ps.len(),
{
    if ps.len() > 0 {
        lemma_all_matcher_keeps_every_file(ps.drop_last(), cs.drop_last(), base, m, st0);
    }
}

/// Turn accepted files into catalog rows, failing loudly when a path does
/// not lie under `base`. Each accepted row's fingerprint is looked up
/// cache-aside in `store` under its root-relative path; on a miss its
/// content is hashed and stored, and content that could not be read
/// (`None`) leaves the row's fingerprint empty.
pub fn collect_entries(
    paths: &Vec<String>,
    contents: &Vec<Option<Vec<u8>>>,
    base: &str,
    m: &CompiledMatcher,
    store: &mut MemoryStore,
) -> (r: Result<Vec<FileInfo>, ListError>)
    requires
        contents@.len() == paths@.len(),
    ensures
        ({
            let (res, st) = collect_spec(
                strs_view(paths@),
                contents_view(contents@),
                base@,
                m@,
                old(store)@,
            );
            &&& final(store)@ == st
            &&& match r {
                Ok(v) => res == Ok::<Seq<FileInfoView>, ListError>(infos_view(v@)),
                Err(e) => res == Err::<Seq<FileInfoView>, ListError>(e),
            }
        }),
{
    let ghost pv = strs_view(paths@);
    let ghost cv = contents_view(contents@);
    let mut acc: Vec<FileInfo> = Vec::new();
    proof {
        assert(pv.take(0) =~= Seq::<Seq<char>>::empty());
        assert(cv.take(0) =~= Seq::<Option<Seq<u8>>>::empty());
        assert(infos_view(acc@) =~= Seq::<FileInfoView>::empty());
    }
    let mut i: usize = 0;
    while i < paths.len()
        invariant
            i <= paths@.len(),
            pv == strs_view(paths@),
            cv == contents_view(contents@),
            pv.len() == paths@.len(),
            cv.len() == paths@.len(),
            contents@.len() == paths@.len(),
            ({
                let (res, st) = collect_spec(
                    pv.take(i as int),
                    cv.take(i as int),
                    base@,
                    m@,
                    old(store)@,
                );
                res == Ok::<Seq<FileInfoView>, ListError>(infos_view(acc@)) && st == store@
            }),
        decreases paths@.len() - i,
    {
        let ghost old_acc = acc@;
        let ghost old_st = store@;
        proof {
            assert(pv.take(i + 1).drop_last() =~= pv.take(i as int));
            assert(cv.take(i + 1).drop_last() =~= cv.take(i as int));
            assert(pv.take(i + 1).last() == pv[i as int]);
            assert(cv.take(i + 1).last() == cv[i as int]);
        }
        if !path_is_under(paths[i].as_str(), base) {
            proof {
                lemma_collect_err_persists(pv, cv, base@, m@, old(store)@, i + 1);
            }
            return Err(ListError::PathNotUnderRoot);
        }
        let tok = match extension_str(paths[i].as_str()) {
            Some(e) => e,
            None => String::new(),
        };
        proof {
            assert(tok@ == raw_token_of(pv[i as int]));
        }
        if m.accepts(tok.as_str()) {
            let rel = relative_to(paths[i].as_str(), base);
            let cached = store.get(rel.as_str());
            let hit = cached.is_some();
            let content: Option<&[u8]> = match &contents[i] {
                Some(b) => Some(b.as_slice()),
                None => None,
            };
            proof {
                assert(opt_bytes_view(content) == cv[i as int]);
            }
            let row = catalog_entry(paths[i].as_str(), base, cached, content);
            if !hit && content.is_some() {
                store.set(rel.as_str(), row.hash.as_str());
            }
            acc.push(row);
            proof {
                let key = rel_of(pv[i as int], base@);
                let spec_cached = if old_st.contains_key(key) {
                    Some(old_st[key])
                } else {
                    None
                };
                assert(infos_view(acc@) =~= infos_view(old_acc).push(
                    catalog_entry_spec(pv[i as int], base@, spec_cached, cv[i as int]),
                ));
                assert(store@ == fingerprint_spec(old_st, key, cv[i as int]).1);
            }
        }
        proof {
            let (res, st) = collect_spec(pv.take(i + 1), cv.take(i + 1), base@, m@, old(store)@);
            assert(res == Ok::<Seq<FileInfoView>, ListError>(infos_view(acc@)) && st == store@);
        }
        i += 1;
    }
    proof {
        assert(pv.take(pv.len() as int) =~= pv);
        assert(cv.take(cv.len() as int) =~= cv);
    }
    Ok(acc)
}

/// Errors from a catalog query.
#[derive(Clone, Copy, Debug, PartialEq, Eq, Structural)]
pub enum CatalogError {
    /// The requested category name is not in the registry.
    UnknownCategory,
    /// The enumerator yielded a path outside the catalog root.
    PathNotUnderRoot,
}

/// The paths of the files a category query selects: every regular file
/// under `root` whose extension the compiled category accepts, or every
/// regular file when no name is given. An unknown name fails before any
/// traversal, and nothing else reports `UnknownCategory`. Rows are
/// assembled from these paths by `collect_entries` once their contents
/// have been read.
pub fn list_by_category(root: &str, name: Option<&str>, reg: &Registry) -> (r: Result<
    Vec<String>,
    CatalogError,
>)
    requires
        reg.wf(),
    ensures
        (match name {
            Some(n) => !contains_name(reg@, n@),
            None => false,
        }) <==> r == Err::<Vec<String>, CatalogError>(CatalogError::UnknownCategory),
        match r {
            Ok(v) => exists|ps: Seq<Seq<char>>|
                strs_view(v@) == spec_filter_paths(ps, compile_spec(reg@, opt_str_view(name))),
            Err(_) => true,
        },
{
    let m = match compile(reg, name) {
        Ok(m) => m,
        Err(_) => {
            return Err(CatalogError::UnknownCategory);
        },
    };
    let files = get_files(root);
    let r = filter_paths(&files, &m);
    proof {
        assert(strs_view(r@) == spec_filter_paths(
            strs_view(files@),
            compile_spec(reg@, opt_str_view(name)),
        ));
    }
    Ok(r)
}

/// The catalog rows for one category, given the enumerator's paths and
/// each path's content: compile the name (an unknown one fails before the
/// store is touched), then assemble the accepted files with their
/// cache-aside fingerprints.
pub fn list_entries(
    paths: &Vec<String>,
    contents: &Vec<Option<Vec<u8>>>,
    base: &str,
    name: Option<&str>,
    reg: &Registry,
    store: &mut MemoryStore,
) -> (r: Result<Vec<FileInfo>, CatalogError>)
    requires
        reg.wf(),
        contents@.len() == paths@.len(),
    ensures
        (match name {
            Some(n) => !contains_name(reg@, n@),
            None => false,
        }) <==> r == Err::<Vec<FileInfo>, CatalogError>(CatalogError::UnknownCategory),
        r == Err::<Vec<FileInfo>, CatalogError>(CatalogError::UnknownCategory)
            ==> final(store)@ == old(store)@,
        ({
            let (res, st) = collect_spec(
                strs_view(paths@),
                contents_view(contents@),
                base@,
                compile_spec(reg@, opt_str_view(name)),
                old(store)@,
            );
            match r {
                Ok(v) => res == Ok::<Seq<FileInfoView>, ListError>(infos_view(v@))
                    && final(store)@ == st,
                Err(CatalogError::PathNotUnderRoot) => res == Err::<
                    Seq<FileInfoView>,
                    ListError,
                >(ListError::PathNotUnderRoot) && final(store)@ == st,
                Err(CatalogError::UnknownCategory) => true,
            }
        }),
{
    let m = match compile(reg, name) {
        Ok(m) => m,
        Err(_) => {
            return Err(CatalogError::UnknownCategory);
        },
    };
    match collect_entries(paths, contents, base, &m, store) {
        Ok(v) => Ok(v),
        Err(_) => Err(CatalogError::PathNotUnderRoot),
    }
}

} // verus!
