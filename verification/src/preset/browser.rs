//! Preset browser: a catalogue of the built-in presets and of those found in
//! search directories, indexed by category and author.
//!
//! Finding, reading and writing preset files is left to the caller: the
//! browser is handed what a directory scan found, and the outcome of a file
//! removal.

use vstd::prelude::*;
use vstd::string::StringExecFns;
use crate::path::{paths_equal, same_path};
use crate::preset::preset::PresetError;
use crate::text::{
    ascii_lowercase, ascii_uppercase, chars_of, contains, is_ascii_text, lemma_ascii_case_round_trip, lowercase, push_char,
    spec_contains, spec_lowercase, spec_matches_ignoring_case,
};

verus! {

/// Metadata of a preset, without its sound settings.
#[derive(Debug, Clone)]
pub struct PresetInfo {
    pub name: String,
    pub author: Option<String>,
    pub category: Option<String>,
    /// File the preset was found in (`None` for built-in presets).
    pub path: Option<String>,
    pub builtin: bool,
}

/// The text of an optional string.
pub open spec fn text_of(o: Option<String>) -> Option<Seq<char>> {
    match o {
        Some(s) => Some(s@),
        None => None,
    }
}

/// Abstract preset metadata.
pub struct PresetInfoView {
    pub name: Seq<char>,
    pub author: Option<Seq<char>>,
    pub category: Option<Seq<char>>,
    pub path: Option<Seq<char>>,
    pub builtin: bool,
}

impl View for PresetInfo {
    type V = PresetInfoView;

    open spec fn view(&self) -> PresetInfoView {
        PresetInfoView {
            name: self.name@,
            author: text_of(self.author),
            category: text_of(self.category),
            path: text_of(self.path),
            builtin: self.builtin,
        }
    }
}

impl PresetInfo {
    /// Metadata of a preset with the given name, author and category, found at
    /// `path`; a preset without a path is built in.
    pub fn from_preset(name: String, author: Option<String>, category: Option<String>, path: Option<String>) -> (info: Self)
        ensures
            info@ == (PresetInfoView {
                name: name@,
                author: text_of(author),
                category: text_of(category),
                path: text_of(path),
                builtin: path is None,
            }),
    {
        let builtin = path.is_none();
        PresetInfo { name, author, category, path, builtin }
    }
}

/// The views of a sequence of metadata.
pub open spec fn infos_view(s: Seq<PresetInfo>) -> Seq<PresetInfoView> {
    s.map_values(|p: PresetInfo| p@)
}

/// The views of a sequence of references to metadata.
pub open spec fn refs_view(s: Seq<&PresetInfo>) -> Seq<PresetInfoView> {
    s.map_values(|p: &PresetInfo| p@)
}

/// The texts of a sequence of strings.
pub open spec fn texts_view(s: Seq<String>) -> Seq<Seq<char>> {
    s.map_values(|t: String| t@)
}

/// The texts of a sequence of string slices.
pub open spec fn strs_view(s: Seq<&str>) -> Seq<Seq<char>> {
    s.map_values(|t: &str| t@)
}

/// The presets found in one search directory.
pub struct ScannedDir {
    pub path: String,
    pub presets: Vec<PresetInfo>,
}

/// The built-in presets: "Init" without author or category, then five by
/// Katie: "Classic Bass" (Bass), "Soft Pad" (Pad), "FM Bell" (Bell),
/// "Sync Lead" (Lead) and "Pluck" (Pluck).
pub open spec fn builtin_catalog() -> Seq<PresetInfoView> {
    seq![
        builtin_info("Init"@, None, None),
        builtin_info("Classic Bass"@, Some("Katie"@), Some("Bass"@)),
        builtin_info("Soft Pad"@, Some("Katie"@), Some("Pad"@)),
        builtin_info("FM Bell"@, Some("Katie"@), Some("Bell"@)),
        builtin_info("Sync Lead"@, Some("Katie"@), Some("Lead"@)),
        builtin_info("Pluck"@, Some("Katie"@), Some("Pluck"@)),
    ]
}

/// Metadata of a built-in preset.
pub open spec fn builtin_info(name: Seq<char>, author: Option<Seq<char>>, category: Option<Seq<char>>) -> PresetInfoView {
    PresetInfoView { name, author, category, path: None, builtin: true }
}

fn make_builtin(name: &str, author: Option<&str>, category: Option<&str>) -> (info: PresetInfo)
    ensures
        info@ == builtin_info(
            name@,
            match author { Some(a) => Some(a@), None => None },
            match category { Some(c) => Some(c@), None => None },
        ),
{
    let author = match author {
        Some(a) => Some(String::from_str(a)),
        None => None,
    };
    let category = match category {
        Some(c) => Some(String::from_str(c)),
        None => None,
    };
    PresetInfo { name: String::from_str(name), author, category, path: None, builtin: true }
}

/// Metadata of the built-in presets, in catalogue order.
pub fn builtin_preset_infos() -> (infos: Vec<PresetInfo>)
    ensures
        infos_view(infos@) == builtin_catalog(),
{
    let mut infos: Vec<PresetInfo> = Vec::new();
    infos.push(make_builtin("Init", None, None));
    infos.push(make_builtin("Classic Bass", Some("Katie"), Some("Bass")));
    infos.push(make_builtin("Soft Pad", Some("Katie"), Some("Pad")));
    infos.push(make_builtin("FM Bell", Some("Katie"), Some("Bell")));
    infos.push(make_builtin("Sync Lead", Some("Katie"), Some("Lead")));
    infos.push(make_builtin("Pluck", Some("Katie"), Some("Pluck")));
    assert(infos_view(infos@) == builtin_catalog());
    infos
}

/// The two attributes presets are indexed by.
#[derive(Clone, Copy)]
pub enum IndexField {
    Category,
    Author,
}

/// The value of an indexed attribute.
pub open spec fn field_of(p: PresetInfoView, f: IndexField) -> Option<Seq<char>> {
    match f {
        IndexField::Category => p.category,
        IndexField::Author => p.author,
    }
}

/// Selects the presets whose attribute `f` is `key`.
pub open spec fn with_field(f: IndexField, key: Seq<char>) -> spec_fn(PresetInfoView) -> bool {
    |p: PresetInfoView| field_of(p, f) == Some(key)
}

/// The distinct values of attribute `f` among the first `n` presets, in order
/// of first appearance.
pub open spec fn keys_in_order(cache: Seq<PresetInfoView>, n: int, f: IndexField) -> Seq<Seq<char>>
    decreases n,
{
    if n <= 0 {
        Seq::empty()
    } else {
        let ks = keys_in_order(cache, n - 1, f);
        match field_of(cache[n - 1], f) {
            Some(k) => if ks.contains(k) { ks } else { ks.push(k) },
            None => ks,
        }
    }
}

/// The positions among the first `n` presets whose attribute `f` is `key`.
pub open spec fn positions_matching(cache: Seq<PresetInfoView>, n: int, f: IndexField, key: Seq<char>) -> Seq<usize>
    decreases n,
{
    if n <= 0 {
        Seq::empty()
    } else if field_of(cache[n - 1], f) == Some(key) {
        positions_matching(cache, n - 1, f, key).push((n - 1) as usize)
    } else {
        positions_matching(cache, n - 1, f, key)
    }
}

/// The presets at the given positions, in order.
pub open spec fn pick_positions(cache: Seq<PresetInfoView>, ps: Seq<usize>) -> Seq<PresetInfoView> {
    Seq::new(ps.len(), |k: int| cache[ps[k] as int])
}

/// One entry of an index: a value and where it occurs.
struct IndexEntry {
    key: String,
    positions: Vec<usize>,
}

/// `index` lists the values of `f` among the first `n` presets, each with its
/// positions.
spec fn index_reflects(index: Seq<IndexEntry>, cache: Seq<PresetInfoView>, n: int, f: IndexField) -> bool {
    let ks = keys_in_order(cache, n, f);
    &&& index.len() == ks.len()
    &&& forall|j: int| #![trigger index[j]] 0 <= j < index.len() ==> {
        &&& index[j].key@ == ks[j]
        &&& index[j].positions@ == positions_matching(cache, n, f, ks[j])
    }
}

proof fn lemma_prefix_same(c1: Seq<PresetInfoView>, c2: Seq<PresetInfoView>, n: int, f: IndexField, key: Seq<char>)
    requires
        0 <= n <= c1.len(),
        n <= c2.len(),
        forall|i: int| 0 <= i < n ==> c1[i] == c2[i],
    ensures
        keys_in_order(c1, n, f) == keys_in_order(c2, n, f),
        positions_matching(c1, n, f, key) == positions_matching(c2, n, f, key),
    decreases n,
{
    if n > 0 {
        lemma_prefix_same(c1, c2, n - 1, f, key);
    }
}

proof fn lemma_positions_bounded(cache: Seq<PresetInfoView>, n: int, f: IndexField, key: Seq<char>)
    requires
        0 <= n <= usize::MAX,
    ensures
        forall|k: int| 0 <= k < positions_matching(cache, n, f, key).len()
            ==> #[trigger] positions_matching(cache, n, f, key)[k] < n,
    decreases n,
{
    if n > 0 {
        lemma_positions_bounded(cache, n - 1, f, key);
        let ps = positions_matching(cache, n - 1, f, key);
        if field_of(cache[n - 1], f) == Some(key) {
            assert forall|k: int| 0 <= k < ps.push((n - 1) as usize).len()
                implies #[trigger] ps.push((n - 1) as usize)[k] < n by {
                if k < ps.len() {
                    assert(ps.push((n - 1) as usize)[k] == ps[k]);
                }
            }
        }
    }
}

proof fn lemma_absent_key(cache: Seq<PresetInfoView>, n: int, f: IndexField, key: Seq<char>)
    requires
        0 <= n,
        !keys_in_order(cache, n, f).contains(key),
    ensures
        positions_matching(cache, n, f, key) == Seq::<usize>::empty(),
    decreases n,
{
    if n > 0 {
        let ks = keys_in_order(cache, n - 1, f);
        if ks.contains(key) {
            let j = choose|j: int| 0 <= j < ks.len() && ks[j] == key;
            match field_of(cache[n - 1], f) {
                Some(k) => {
                    if !ks.contains(k) {
                        assert(ks.push(k)[j] == key);
                    }
                },
                None => {},
            }
        }
        if field_of(cache[n - 1], f) == Some(key) {
            if !ks.contains(key) {
                assert(ks.push(key)[ks.len() as int] == key);
            }
        }
        lemma_absent_key(cache, n - 1, f, key);
    }
}

/// The values listed are distinct, and a value is listed exactly when some of
/// the first `n` presets has it.
pub proof fn lemma_keys_characterised(cache: Seq<PresetInfoView>, n: int, f: IndexField)
    requires
        0 <= n <= cache.len(),
    ensures
        keys_in_order(cache, n, f).no_duplicates(),
        forall|k: Seq<char>| #[trigger] keys_in_order(cache, n, f).contains(k)
            <==> exists|i: int| 0 <= i < n && field_of(cache[i], f) == Some(k),
    decreases n,
{
    if n > 0 {
        lemma_keys_characterised(cache, n - 1, f);
        let ks = keys_in_order(cache, n - 1, f);
        let ks2 = keys_in_order(cache, n, f);
        assert forall|k: Seq<char>| #[trigger] ks2.contains(k)
            implies exists|i: int| 0 <= i < n && field_of(cache[i], f) == Some(k) by {
            if ks.contains(k) {
                let i = choose|i: int| 0 <= i < n - 1 && field_of(cache[i], f) == Some(k);
            } else {
                let j = choose|j: int| 0 <= j < ks2.len() && ks2[j] == k;
                assert(field_of(cache[n - 1], f) == Some(k));
            }
        }
        assert forall|k: Seq<char>| (exists|i: int| 0 <= i < n && field_of(cache[i], f) == Some(k))
            implies #[trigger] ks2.contains(k) by {
            let i = choose|i: int| 0 <= i < n && field_of(cache[i], f) == Some(k);
            if i < n - 1 {
                assert(ks.contains(k));
                let j = choose|j: int| 0 <= j < ks.len() && ks[j] == k;
                match field_of(cache[n - 1], f) {
                    Some(k2) => {
                        if !ks.contains(k2) {
                            assert(ks2[j] == k);
                        }
                    },
                    None => {},
                }
            } else {
                if !ks.contains(k) {
                    assert(ks2[ks.len() as int] == k);
                }
            }
        }
    }
}

proof fn lemma_positions_are_filter(cache: Seq<PresetInfoView>, n: int, f: IndexField, key: Seq<char>)
    requires
        0 <= n <= cache.len(),
        n <= usize::MAX,
    ensures
        pick_positions(cache, positions_matching(cache, n, f, key)) == cache.take(n).filter(with_field(f, key)),
    decreases n,
{
    reveal(Seq::filter);
    if n > 0 {
        lemma_positions_bounded(cache, n - 1, f, key);
        lemma_positions_are_filter(cache, n - 1, f, key);
        assert(cache.take(n).drop_last() == cache.take(n - 1));
        let ps = positions_matching(cache, n - 1, f, key);
        if field_of(cache[n - 1], f) == Some(key) {
            assert(pick_positions(cache, ps.push((n - 1) as usize)) =~= pick_positions(cache, ps).push(cache[n - 1]));
        }
    } else {
        assert(cache.take(0) == Seq::<PresetInfoView>::empty());
    }
}

/// The entry of `index` for `key`, if there is one.
fn find_entry(index: &Vec<IndexEntry>, key: &String) -> (r: Option<usize>)
    ensures
        r matches Some(j) ==> j < index@.len() && index@[j as int].key@ == key@,
        r is None ==> forall|k: int| 0 <= k < index@.len() ==> index@[k].key@ != key@,
{
    let mut j: usize = 0;
    while j < index.len()
        invariant
            j <= index@.len(),
            forall|k: int| 0 <= k < j ==> index@[k].key@ != key@,
        decreases index.len() - j,
    {
        if index[j].key == *key {
            return Some(j);
        }
        j = j + 1;
    }
    None
}

/// Records that preset `pos` has value `key` for attribute `f`.
fn index_insert(
    index: &mut Vec<IndexEntry>,
    key: &String,
    pos: usize,
    Ghost(cache): Ghost<Seq<PresetInfoView>>,
    Ghost(f): Ghost<IndexField>,
)
    requires
        index_reflects(old(index)@, cache, pos as int, f),
        pos < cache.len(),
        field_of(cache[pos as int], f) == Some(key@),
    ensures
        index_reflects(final(index)@, cache, pos + 1, f),
{
    let ghost ks = keys_in_order(cache, pos as int, f);
    proof {
        lemma_keys_characterised(cache, pos as int, f);
    }
    let found = find_entry(index, key);
    if let Some(j) = found {
        let ghost before = index@;
        let mut entry = IndexEntry { key: String::new(), positions: Vec::new() };
        index.set_and_swap(j, &mut entry);
        entry.positions.push(pos);
        index.set_and_swap(j, &mut entry);
        proof {
            assert(ks.contains(key@)) by {
                assert(ks[j as int] == key@);
            }
            assert(keys_in_order(cache, pos + 1, f) == ks);
            assert forall|k: int| #![trigger index@[k]] 0 <= k < index@.len() implies {
                &&& index@[k].key@ == ks[k]
                &&& index@[k].positions@ == positions_matching(cache, pos + 1, f, ks[k])
            } by {
                if k != j {
                    assert(before[k] == index@[k]);
                    assert(ks[k] != ks[j as int]);
                }
            }
        }
    } else {
        let ghost before = index@;
        let mut positions: Vec<usize> = Vec::new();
        positions.push(pos);
        proof {
            if ks.contains(key@) {
                let m = choose|m: int| 0 <= m < ks.len() && ks[m] == key@;
                assert(index@[m].key@ == ks[m]);
            }
            lemma_absent_key(cache, pos as int, f, key@);
        }
        index.push(IndexEntry { key: key.clone(), positions });
        proof {
            assert(keys_in_order(cache, pos + 1, f) == ks.push(key@));
            assert forall|k: int| #![trigger index@[k]] 0 <= k < index@.len() implies {
                &&& index@[k].key@ == ks.push(key@)[k]
                &&& index@[k].positions@ == positions_matching(cache, pos + 1, f, ks.push(key@)[k])
            } by {
                if k < before.len() {
                    assert(before[k] == index@[k]);
                    assert(ks[k] != key@);
                }
            }
        }
    }
}

/// The presets among `infos` that `sel` picks, by reference and in order.
fn pick<'a>(infos: &'a Vec<PresetInfo>, sel: &Selector, Ghost(pred): Ghost<spec_fn(PresetInfoView) -> bool>) -> (picked: Vec<&'a PresetInfo>)
    requires
        forall|p: PresetInfo| #[trigger] selector_holds(*sel, p) == pred(p@),
    ensures
        refs_view(picked@) == infos_view(infos@).filter(pred),
{
    let ghost all = infos_view(infos@);
    let mut picked: Vec<&PresetInfo> = Vec::new();
    let mut i: usize = 0;
    while i < infos.len()
        invariant
            all == infos_view(infos@),
            i <= infos@.len(),
            forall|p: PresetInfo| #[trigger] selector_holds(*sel, p) == pred(p@),
            refs_view(picked@) == all.take(i as int).filter(pred),
        decreases infos.len() - i,
    {
        proof {
            reveal(Seq::filter);
            assert(all.take(i + 1).drop_last() == all.take(i as int));
        }
        let p = &infos[i];
        let keep = selects(sel, p);
        if keep {
            picked.push(p);
            assert(refs_view(picked@) == refs_view(picked@.drop_last()).push(p@));
        }
        i = i + 1;
    }
    assert(all.take(infos@.len() as int) == all);
    picked
}

/// Ways of picking presets out of the catalogue.
enum Selector {
    BuiltIn,
    User,
    /// Presets whose lower-cased name holds this (lower-cased) text.
    NameHolds(String),
}

spec fn selector_holds(sel: Selector, p: PresetInfo) -> bool {
    match sel {
        Selector::BuiltIn => p.builtin,
        Selector::User => !p.builtin,
        Selector::NameHolds(q) => spec_contains(spec_lowercase(p.name@), q@),
    }
}

fn selects(sel: &Selector, p: &PresetInfo) -> (r: bool)
    ensures
        r == selector_holds(*sel, *p),
{
    match sel {
        Selector::BuiltIn => p.builtin,
        Selector::User => !p.builtin,
        Selector::NameHolds(q) => {
            let name = lowercase(p.name.as_str());
            contains(name.as_str(), q.as_str())
        },
    }
}

/// Selects the presets whose name holds `query`, ignoring case.
pub open spec fn name_matches(query: Seq<char>) -> spec_fn(PresetInfoView) -> bool {
    |p: PresetInfoView| spec_matches_ignoring_case(p.name, query)
}

/// Selects the presets whose lower-cased name holds the text `lower`.
pub open spec fn name_holds(lower: Seq<char>) -> spec_fn(PresetInfoView) -> bool {
    |p: PresetInfoView| spec_contains(spec_lowercase(p.name), lower)
}

/// Whether a preset was found at `path` (a path naming the same place).
pub open spec fn found_at(p: PresetInfoView, path: Seq<char>) -> bool {
    match p.path {
        Some(q) => same_path(q, path),
        None => false,
    }
}

/// Selects the presets not found at `path`.
pub open spec fn not_at(path: Seq<char>) -> spec_fn(PresetInfoView) -> bool {
    |p: PresetInfoView| !found_at(p, path)
}

/// Whether one of `paths` names the same directory as `dir`.
pub open spec fn searches(paths: Seq<Seq<char>>, dir: Seq<char>) -> bool {
    exists|j: int| 0 <= j < paths.len() && same_path(#[trigger] paths[j], dir)
}

/// Selects the built-in presets.
pub open spec fn is_builtin() -> spec_fn(PresetInfoView) -> bool {
    |p: PresetInfoView| p.builtin
}

/// Selects the presets from files.
pub open spec fn is_user() -> spec_fn(PresetInfoView) -> bool {
    |p: PresetInfoView| !p.builtin
}

/// The abstract state of the browser: where it looks, and what it found.
pub struct BrowserView {
    pub search_paths: Seq<Seq<char>>,
    /// The built-in presets first, then those found, in the order found.
    pub cache: Seq<PresetInfoView>,
}

/// The abstract contents of a scanned directory.
pub struct ScannedDirView {
    pub path: Seq<char>,
    pub presets: Seq<PresetInfoView>,
}

impl View for ScannedDir {
    type V = ScannedDirView;

    open spec fn view(&self) -> ScannedDirView {
        ScannedDirView { path: self.path@, presets: infos_view(self.presets@) }
    }
}

/// The browser after adding a search directory: a directory already searched
/// (under any spelling) changes nothing; a new one is remembered and its
/// presets are catalogued.
pub open spec fn with_dir(b: BrowserView, d: ScannedDirView) -> BrowserView {
    if searches(b.search_paths, d.path) {
        b
    } else {
        BrowserView { search_paths: b.search_paths.push(d.path), cache: b.cache + d.presets }
    }
}

/// The browser after adding several search directories in order.
pub open spec fn with_dirs(b: BrowserView, ds: Seq<ScannedDirView>) -> BrowserView
    decreases ds.len(),
{
    if ds.len() == 0 {
        b
    } else {
        with_dir(with_dirs(b, ds.drop_last()), ds.last())
    }
}

/// A preset read from a file: not built in, and found at a path.
pub open spec fn is_user_entry(p: PresetInfoView) -> bool {
    !p.builtin && p.path is Some
}

/// All of `ps` are presets read from files.
pub open spec fn all_user_entries(ps: Seq<PresetInfoView>) -> bool {
    forall|i: int| 0 <= i < ps.len() ==> is_user_entry(#[trigger] ps[i])
}

/// The catalogue is the built-in presets, in order, followed by presets read
/// from files.
pub open spec fn catalogue_shaped(cache: Seq<PresetInfoView>) -> bool {
    let k = builtin_catalog().len() as int;
    &&& cache.len() >= k
    &&& cache.take(k) == builtin_catalog()
    &&& all_user_entries(cache.skip(k))
}

proof fn lemma_builtins_shaped()
    ensures
        catalogue_shaped(builtin_catalog()),
{
    let c = builtin_catalog();
    assert(c.take(c.len() as int) =~= c);
    assert(c.skip(c.len() as int).len() == 0);
}

proof fn lemma_shaped_append(cache: Seq<PresetInfoView>, more: Seq<PresetInfoView>)
    requires
        catalogue_shaped(cache),
        all_user_entries(more),
    ensures
        catalogue_shaped(cache + more),
{
    let k = builtin_catalog().len() as int;
    let c = cache + more;
    assert(c.take(k) =~= cache.take(k));
    assert forall|i: int| 0 <= i < c.skip(k).len() implies is_user_entry(#[trigger] c.skip(k)[i]) by {
        if i < cache.len() - k {
            assert(c.skip(k)[i] == cache.skip(k)[i]);
        } else {
            assert(c.skip(k)[i] == more[i - (cache.len() - k)]);
        }
    }
}

proof fn lemma_shaped_forget(cache: Seq<PresetInfoView>, path: Seq<char>)
    requires
        catalogue_shaped(cache),
    ensures
        catalogue_shaped(cache.filter(not_at(path))),
{
    let k = builtin_catalog().len() as int;
    let b = cache.take(k);
    let u = cache.skip(k);
    assert(cache =~= b + u);
    Seq::filter_distributes_over_add(b, u, not_at(path));
    assert(b.filter(not_at(path)) =~= b) by {
        reveal_with_fuel(Seq::filter, 7);
    }
    let fu = u.filter(not_at(path));
    assert forall|i: int| 0 <= i < fu.len() implies is_user_entry(#[trigger] fu[i]) by {
        assert(fu.contains(fu[i]));
        u.lemma_filter_contains_rev(not_at(path), fu[i]);
        let j = choose|j: int| 0 <= j < u.len() && u[j] == fu[i];
        assert(is_user_entry(u[j]));
    }
    let c = cache.filter(not_at(path));
    assert(c.take(k) =~= b);
    assert(c.skip(k) =~= fu);
}

/// A browser that knows only the built-in presets.
pub open spec fn initial_browser() -> BrowserView {
    BrowserView { search_paths: Seq::empty(), cache: builtin_catalog() }
}

/// Catalogue of presets.
pub struct PresetBrowser {
    search_paths: Vec<String>,
    cache: Vec<PresetInfo>,
    by_category: Vec<IndexEntry>,
    by_author: Vec<IndexEntry>,
}

impl View for PresetBrowser {
    type V = BrowserView;

    closed spec fn view(&self) -> BrowserView {
        BrowserView { search_paths: texts_view(self.search_paths@), cache: infos_view(self.cache@) }
    }
}

impl PresetBrowser {
    /// An index, as the values it lists, each with its positions.
    pub closed spec fn index(&self, f: IndexField) -> Seq<(Seq<char>, Seq<usize>)> {
        let entries = match f {
            IndexField::Category => self.by_category@,
            IndexField::Author => self.by_author@,
        };
        entries.map_values(|e: IndexEntry| (e.key@, e.positions@))
    }

    /// Both indices list what the catalogue holds.
    spec fn indexed(&self) -> bool {
        &&& index_reflects(self.by_category@, infos_view(self.cache@), self.cache@.len() as int, IndexField::Category)
        &&& index_reflects(self.by_author@, infos_view(self.cache@), self.cache@.len() as int, IndexField::Author)
    }

    /// The browser's invariant: both indices list what the catalogue holds,
    /// and the catalogue is the built-in presets followed by presets from files.
    pub closed spec fn wf(&self) -> bool {
        &&& self.indexed()
        &&& catalogue_shaped(self@.cache)
    }

    /// Adds a preset at the end of the catalogue and indexes it.
    fn add_to_cache(&mut self, info: PresetInfo)
        requires
            old(self).indexed(),
        ensures
            final(self).indexed(),
            final(self).index(IndexField::Category) == expected_index(old(self)@.cache.push(info@), IndexField::Category),
            final(self).index(IndexField::Author) == expected_index(old(self)@.cache.push(info@), IndexField::Author),
            final(self)@ == (BrowserView { cache: old(self)@.cache.push(info@), ..old(self)@ }),
    {
        let pos = self.cache.len();
        let ghost old_cache = infos_view(self.cache@);
        let ghost new_cache = old_cache.push(info@);
        proof {
            assert forall|i: int| 0 <= i < pos implies old_cache[i] == new_cache[i] by {}
            lemma_prefix_same(old_cache, new_cache, pos as int, IndexField::Category, Seq::empty());
            lemma_prefix_same(old_cache, new_cache, pos as int, IndexField::Author, Seq::empty());
            assert forall|k: Seq<char>| positions_matching(old_cache, pos as int, IndexField::Category, k)
                == #[trigger] positions_matching(new_cache, pos as int, IndexField::Category, k) by {
                lemma_prefix_same(old_cache, new_cache, pos as int, IndexField::Category, k);
            }
            assert forall|k: Seq<char>| positions_matching(old_cache, pos as int, IndexField::Author, k)
                == #[trigger] positions_matching(new_cache, pos as int, IndexField::Author, k) by {
                lemma_prefix_same(old_cache, new_cache, pos as int, IndexField::Author, k);
            }
            assert(index_reflects(self.by_category@, new_cache, pos as int, IndexField::Category));
            assert(index_reflects(self.by_author@, new_cache, pos as int, IndexField::Author));
        }
        match &info.category {
            Some(c) => index_insert(&mut self.by_category, c, pos, Ghost(new_cache), Ghost(IndexField::Category)),
            None => {
                assert(keys_in_order(new_cache, pos + 1, IndexField::Category)
                    == keys_in_order(new_cache, pos as int, IndexField::Category));
            },
        }
        match &info.author {
            Some(a) => index_insert(&mut self.by_author, a, pos, Ghost(new_cache), Ghost(IndexField::Author)),
            None => {
                assert(keys_in_order(new_cache, pos + 1, IndexField::Author)
                    == keys_in_order(new_cache, pos as int, IndexField::Author));
            },
        }
        self.cache.push(info);
        assert(infos_view(self.cache@) == new_cache);
        proof {
            lemma_index_view(self, IndexField::Category);
            lemma_index_view(self, IndexField::Author);
        }
    }

    /// Catalogues presets in order.
    fn add_all(&mut self, infos: Vec<PresetInfo>)
        requires
            old(self).indexed(),
        ensures
            final(self).indexed(),
            final(self)@ == (BrowserView { cache: old(self)@.cache + infos_view(infos@), ..old(self)@ }),
    {
        let mut rest = infos;
        let ghost all = infos_view(rest@);
        let ghost start = self@;
        let total = rest.len();
        let mut done: usize = 0;
        while rest.len() > 0
            invariant
                self.indexed(),
                all.len() == total,
                done <= all.len(),
                infos_view(rest@) == all.skip(done as int),
                self@ == (BrowserView { cache: start.cache + all.take(done as int), ..start }),
            decreases rest.len(),
        {
            let ghost before = rest@;
            assert(infos_view(before).len() == before.len());
            assert(all.skip(done as int).len() == all.len() - done);
            let info = rest.remove(0);
            proof {
                assert(infos_view(before)[0] == before[0]@);
                assert(info@ == all[done as int]);
                assert(all.take(done + 1) == all.take(done as int).push(all[done as int]));
                assert(infos_view(rest@) =~= infos_view(before).skip(1));
                assert(all.skip(done as int).skip(1) =~= all.skip(done + 1));
            }
            self.add_to_cache(info);
            done = done + 1;
        }
        assert(all.take(done as int) == all);
    }

    /// A browser that knows the built-in presets and no search directory.
    pub fn new() -> (b: Self)
        ensures
            b.wf(),
            b@ == initial_browser(),
    {
        let mut b = PresetBrowser {
            search_paths: Vec::new(),
            cache: Vec::new(),
            by_category: Vec::new(),
            by_author: Vec::new(),
        };
        assert(infos_view(b.cache@) == Seq::<PresetInfoView>::empty());
        assert(texts_view(b.search_paths@) == Seq::<Seq<char>>::empty());
        b.load_builtins();
        assert(Seq::<PresetInfoView>::empty() + builtin_catalog() == builtin_catalog());
        proof {
            lemma_builtins_shaped();
        }
        b
    }

    /// Catalogues the built-in presets.
    fn load_builtins(&mut self)
        requires
            old(self).indexed(),
        ensures
            final(self).indexed(),
            final(self)@ == (BrowserView { cache: old(self)@.cache + builtin_catalog(), ..old(self)@ }),
    {
        self.add_all(builtin_preset_infos());
    }

    /// A browser that knows the built-in presets and searches the given
    /// directories, in order.
    pub fn with_paths(dirs: Vec<ScannedDir>) -> (b: Self)
        requires
            forall|i: int| 0 <= i < dirs@.len() ==> all_user_entries(#[trigger] dirs@[i]@.presets),
        ensures
            b.wf(),
            b@ == with_dirs(initial_browser(), dirs@.map_values(|d: ScannedDir| d@)),
    {
        let mut b = PresetBrowser::new();
        let mut rest = dirs;
        let ghost all = rest@.map_values(|d: ScannedDir| d@);
        assert forall|i: int| 0 <= i < all.len() implies all_user_entries(#[trigger] all[i].presets) by {
            assert(all[i] == dirs@[i]@);
        }
        let total = rest.len();
        let mut done: usize = 0;
        while rest.len() > 0
            invariant
                b.wf(),
                forall|i: int| 0 <= i < all.len() ==> all_user_entries(#[trigger] all[i].presets),
                all.len() == total,
                done <= all.len(),
                rest@.map_values(|d: ScannedDir| d@) == all.skip(done as int),
                b@ == with_dirs(initial_browser(), all.take(done as int)),
            decreases rest.len(),
        {
            let ghost before = rest@;
            assert(before.map_values(|d: ScannedDir| d@).len() == before.len());
            assert(all.skip(done as int).len() == all.len() - done);
            let d = rest.remove(0);
            proof {
                assert(before.map_values(|d: ScannedDir| d@)[0] == before[0]@);
                assert(d@ == all[done as int]);
                assert(all.take(done + 1).drop_last() == all.take(done as int));
                assert(rest@.map_values(|d: ScannedDir| d@) =~= before.map_values(|d: ScannedDir| d@).skip(1));
                assert(all.skip(done as int).skip(1) =~= all.skip(done + 1));
            }
            b.add_search_path(d);
            done = done + 1;
        }
        assert(all.take(done as int) == all);
        b
    }

    /// Adds a search directory with the presets found in it; a directory
    /// already searched is ignored.
    pub fn add_search_path(&mut self, dir: ScannedDir)
        requires
            old(self).wf(),
            all_user_entries(dir@.presets),
        ensures
            final(self).wf(),
            final(self)@ == with_dir(old(self)@, dir@),
    {
        let ScannedDir { path, presets } = dir;
        if !self.has_search_path(path.as_str()) {
            self.search_paths.push(path);
            proof {
                assert(texts_view(self.search_paths@) == texts_view(old(self).search_paths@).push(dir@.path));
            }
            self.add_all(presets);
            proof {
                lemma_shaped_append(old(self)@.cache, dir@.presets);
            }
        }
    }

    /// Whether a directory is searched, under any spelling.
    pub fn has_search_path(&self, path: &str) -> (r: bool)
        ensures
            r == searches(self@.search_paths, path@),
    {
        let mut i: usize = 0;
        while i < self.search_paths.len()
            invariant
                i <= self.search_paths@.len(),
                forall|j: int| 0 <= j < i ==> !same_path(self.search_paths@[j]@, path@),
            decreases self.search_paths.len() - i,
        {
            if paths_equal(self.search_paths[i].as_str(), path) {
                assert(self@.search_paths[i as int] == self.search_paths@[i as int]@);
                return true;
            }
            i = i + 1;
        }
        assert(!searches(self@.search_paths, path@)) by {
            if searches(self@.search_paths, path@) {
                let j = choose|j: int| 0 <= j < self@.search_paths.len() && same_path(self@.search_paths[j], path@);
                assert(self@.search_paths[j] == self.search_paths@[j]@);
            }
        }
        false
    }

    /// The directories searched, in the order they were added.
    pub fn search_paths(&self) -> (paths: &[String])
        ensures
            texts_view(paths@) == self@.search_paths,
    {
        self.search_paths.as_slice()
    }

    /// Rebuilds the catalogue from the built-in presets and those found by a
    /// fresh scan of the search directories (in the order of the directories).
    pub fn refresh(&mut self, found: Vec<PresetInfo>)
        requires
            old(self).wf(),
            all_user_entries(infos_view(found@)),
        ensures
            final(self).wf(),
            final(self)@ == (BrowserView { cache: builtin_catalog() + infos_view(found@), ..old(self)@ }),
    {
        self.cache = Vec::new();
        self.by_category = Vec::new();
        self.by_author = Vec::new();
        assert(infos_view(self.cache@) == Seq::<PresetInfoView>::empty());
        self.load_builtins();
        let ghost found_view = infos_view(found@);
        self.add_all(found);
        assert(Seq::<PresetInfoView>::empty() + builtin_catalog() == builtin_catalog());
        proof {
            lemma_builtins_shaped();
            lemma_shaped_append(builtin_catalog(), found_view);
        }
    }

    /// Every catalogued preset.
    pub fn all(&self) -> (infos: &[PresetInfo])
        ensures
            infos_view(infos@) == self@.cache,
    {
        self.cache.as_slice()
    }

    /// Number of catalogued presets.
    pub fn count(&self) -> (n: usize)
        ensures
            n == self@.cache.len(),
    {
        self.cache.len()
    }

    /// The presets indexed under `key` in `index`, in catalogue order.
    fn lookup<'a>(&'a self, index: &Vec<IndexEntry>, key: &str, Ghost(f): Ghost<IndexField>) -> (found: Vec<&'a PresetInfo>)
        requires
            index_reflects(index@, infos_view(self.cache@), self.cache@.len() as int, f),
        ensures
            refs_view(found@) == self@.cache.filter(with_field(f, key@)),
    {
        let ghost cache = infos_view(self.cache@);
        let len = self.cache.len();
        let ghost n = len as int;
        let key_text = String::from_str(key);
        let entry = find_entry(index, &key_text);
        proof {
            lemma_positions_are_filter(cache, n, f, key@);
            lemma_positions_bounded(cache, n, f, key@);
            assert(cache.take(n) == cache);
        }
        let mut found: Vec<&PresetInfo> = Vec::new();
        if let Some(j) = entry {
            let positions = &index[j].positions;
            let ghost ps = positions_matching(cache, n, f, key@);
            assert(positions@ == ps);
            let mut k: usize = 0;
            while k < positions.len()
                invariant
                    positions@ == ps,
                    ps == positions_matching(cache, n, f, key@),
                    cache == infos_view(self.cache@),
                    n == self.cache@.len(),
                    forall|m: int| 0 <= m < ps.len() ==> #[trigger] ps[m] < n,
                    k <= ps.len(),
                    refs_view(found@) == pick_positions(cache, ps.take(k as int)),
                decreases positions.len() - k,
            {
                let i = positions[k];
                let ghost before = found@;
                found.push(&self.cache[i]);
                proof {
                    assert(ps.take(k + 1) == ps.take(k as int).push(i));
                    assert(pick_positions(cache, ps.take(k + 1)) =~= pick_positions(cache, ps.take(k as int)).push(cache[i as int]));
                    assert(refs_view(found@) =~= refs_view(before).push(cache[i as int]));
                }
                k = k + 1;
            }
            assert(ps.take(ps.len() as int) == ps);
        } else {
            proof {
                lemma_keys_characterised(cache, n, f);
                if keys_in_order(cache, n, f).contains(key@) {
                    let m = choose|m: int| 0 <= m < keys_in_order(cache, n, f).len()
                        && keys_in_order(cache, n, f)[m] == key@;
                    assert(index@[m].key@ == key@);
                }
                lemma_absent_key(cache, n, f, key@);
            }
            assert(refs_view(found@) == Seq::<PresetInfoView>::empty());
        }
        found
    }

    /// The presets of a category, in catalogue order.
    pub fn by_category(&self, category: &str) -> (found: Vec<&PresetInfo>)
        requires
            self.wf(),
        ensures
            refs_view(found@) == self@.cache.filter(with_field(IndexField::Category, category@)),
    {
        self.lookup(&self.by_category, category, Ghost(IndexField::Category))
    }

    /// The presets of an author, in catalogue order.
    pub fn by_author(&self, author: &str) -> (found: Vec<&PresetInfo>)
        requires
            self.wf(),
        ensures
            refs_view(found@) == self@.cache.filter(with_field(IndexField::Author, author@)),
    {
        self.lookup(&self.by_author, author, Ghost(IndexField::Author))
    }

    /// The keys of an index, in order.
    fn keys<'a>(index: &'a Vec<IndexEntry>) -> (ks: Vec<&'a str>)
        ensures
            ks@.len() == index@.len(),
            forall|j: int| 0 <= j < ks@.len() ==> #[trigger] ks@[j]@ == index@[j].key@,
    {
        let mut ks: Vec<&str> = Vec::new();
        let mut j: usize = 0;
        while j < index.len()
            invariant
                j <= index@.len(),
                ks@.len() == j,
                forall|m: int| 0 <= m < j ==> #[trigger] ks@[m]@ == index@[m].key@,
            decreases index.len() - j,
        {
            ks.push(index[j].key.as_str());
            j = j + 1;
        }
        ks
    }

    /// The categories that presets have, each once, in order of first appearance.
    pub fn categories(&self) -> (cats: Vec<&str>)
        requires
            self.wf(),
        ensures
            strs_view(cats@) == keys_in_order(self@.cache, self@.cache.len() as int, IndexField::Category),
    {
        let ks = Self::keys(&self.by_category);
        assert(strs_view(ks@) == keys_in_order(self@.cache, self@.cache.len() as int, IndexField::Category));
        ks
    }

    /// The authors of presets, each once, in order of first appearance.
    pub fn authors(&self) -> (authors: Vec<&str>)
        requires
            self.wf(),
        ensures
            strs_view(authors@) == keys_in_order(self@.cache, self@.cache.len() as int, IndexField::Author),
    {
        let ks = Self::keys(&self.by_author);
        assert(strs_view(ks@) == keys_in_order(self@.cache, self@.cache.len() as int, IndexField::Author));
        ks
    }

    /// The presets whose name holds `query`, ignoring case, in catalogue order.
    pub fn search(&self, query: &str) -> (found: Vec<&PresetInfo>)
        ensures
            refs_view(found@) == self@.cache.filter(name_matches(query@)),
            is_ascii_text(query@) ==> refs_view(found@) == self@.cache.filter(name_holds(ascii_lowercase(query@))),
    {
        let q = lowercase(query);
        proof {
            if is_ascii_text(query@) {
                assert(name_matches(query@) =~= name_holds(ascii_lowercase(query@)));
            }
        }
        let sel = Selector::NameHolds(q);
        self.pick_by(&sel, Ghost(name_matches(query@)))
    }

    fn pick_by(&self, sel: &Selector, Ghost(pred): Ghost<spec_fn(PresetInfoView) -> bool>) -> (found: Vec<&PresetInfo>)
        requires
            forall|p: PresetInfo| #[trigger] selector_holds(*sel, p) == pred(p@),
        ensures
            refs_view(found@) == self@.cache.filter(pred),
    {
        pick(&self.cache, sel, Ghost(pred))
    }

    /// The built-in presets, in catalogue order.
    pub fn builtins(&self) -> (found: Vec<&PresetInfo>)
        ensures
            refs_view(found@) == self@.cache.filter(is_builtin()),
    {
        self.pick_by(&Selector::BuiltIn, Ghost(is_builtin()))
    }

    /// The presets from files, in catalogue order.
    pub fn user_presets(&self) -> (found: Vec<&PresetInfo>)
        ensures
            refs_view(found@) == self@.cache.filter(is_user()),
    {
        self.pick_by(&Selector::User, Ghost(is_user()))
    }

    /// The first catalogued preset with the given name.
    pub fn find_by_name(&self, name: &str) -> (found: Option<&PresetInfo>)
        ensures
            found is None <==> forall|j: int| 0 <= j < self@.cache.len() ==> self@.cache[j].name != name@,
            found matches Some(p) ==> exists|i: int| {
                &&& 0 <= i < self@.cache.len()
                &&& #[trigger] self@.cache[i] == p@
                &&& p@.name == name@
                &&& forall|j: int| 0 <= j < i ==> self@.cache[j].name != name@
            },
    {
        let wanted = String::from_str(name);
        let mut i: usize = 0;
        while i < self.cache.len()
            invariant
                wanted@ == name@,
                i <= self.cache@.len(),
                forall|j: int| 0 <= j < i ==> self@.cache[j].name != name@,
            decreases self.cache.len() - i,
        {
            if self.cache[i].name == wanted {
                assert(self@.cache[i as int] == self.cache@[i as int]@);
                return Some(&self.cache[i]);
            }
            i = i + 1;
        }
        None
    }

    /// Catalogues a preset just saved into `directory`, if that directory is
    /// searched (under any spelling); returns whether it was catalogued.
    pub fn record_saved(&mut self, directory: &str, info: PresetInfo) -> (added: bool)
        requires
            old(self).wf(),
            is_user_entry(info@),
        ensures
            final(self).wf(),
            added == searches(old(self)@.search_paths, directory@),
            final(self)@ == if added {
                BrowserView { cache: old(self)@.cache.push(info@), ..old(self)@ }
            } else {
                old(self)@
            },
    {
        if self.has_search_path(directory) {
            let ghost v = info@;
            self.add_to_cache(info);
            proof {
                lemma_shaped_append(old(self)@.cache, seq![v]);
                assert(old(self)@.cache + seq![v] == old(self)@.cache.push(v));
            }
            true
        } else {
            false
        }
    }

    /// Rebuilds both indices from the catalogue.
    fn rebuild_indices(&mut self)
        ensures
            final(self).indexed(),
            final(self)@ == old(self)@,
    {
        self.by_category = Vec::new();
        self.by_author = Vec::new();
        let ghost cache = infos_view(self.cache@);
        let mut i: usize = 0;
        while i < self.cache.len()
            invariant
                cache == infos_view(self.cache@),
                self@ == old(self)@,
                i <= self.cache@.len(),
                index_reflects(self.by_category@, cache, i as int, IndexField::Category),
                index_reflects(self.by_author@, cache, i as int, IndexField::Author),
            decreases self.cache.len() - i,
        {
            assert(cache[i as int] == self.cache@[i as int]@);
            match &self.cache[i].category {
                Some(c) => index_insert(&mut self.by_category, c, i, Ghost(cache), Ghost(IndexField::Category)),
                None => {
                    assert(keys_in_order(cache, i + 1, IndexField::Category)
                        == keys_in_order(cache, i as int, IndexField::Category));
                },
            }
            match &self.cache[i].author {
                Some(a) => index_insert(&mut self.by_author, a, i, Ghost(cache), Ghost(IndexField::Author)),
                None => {
                    assert(keys_in_order(cache, i + 1, IndexField::Author)
                        == keys_in_order(cache, i as int, IndexField::Author));
                },
            }
            i = i + 1;
        }
    }

    /// Removes from the catalogue the presets found at `path`, under any spelling.
    fn forget_path(&mut self, path: &String)
        ensures
            final(self).indexed(),
            final(self)@ == (BrowserView { cache: old(self)@.cache.filter(not_at(path@)), ..old(self)@ }),
    {
        let mut rest: Vec<PresetInfo> = Vec::new();
        std::mem::swap(&mut rest, &mut self.cache);
        let ghost all = infos_view(rest@);
        let total = rest.len();
        let mut done: usize = 0;
        while rest.len() > 0
            invariant
                all.len() == total,
                done <= all.len(),
                infos_view(rest@) == all.skip(done as int),
                infos_view(self.cache@) == all.take(done as int).filter(not_at(path@)),
                texts_view(self.search_paths@) == old(self)@.search_paths,
            decreases rest.len(),
        {
            let ghost before = rest@;
            assert(infos_view(before).len() == before.len());
            assert(all.skip(done as int).len() == all.len() - done);
            let info = rest.remove(0);
            proof {
                reveal(Seq::filter);
                assert(infos_view(before)[0] == before[0]@);
                assert(info@ == all[done as int]);
                assert(all.take(done + 1).drop_last() == all.take(done as int));
                assert(infos_view(rest@) =~= infos_view(before).skip(1));
                assert(all.skip(done as int).skip(1) =~= all.skip(done + 1));
            }
            let at_path = match &info.path {
                Some(p) => paths_equal(p.as_str(), path.as_str()),
                None => false,
            };
            if !at_path {
                let ghost kept = self.cache@;
                self.cache.push(info);
                assert(infos_view(self.cache@) =~= infos_view(kept).push(all[done as int]));
            }
            done = done + 1;
        }
        assert(all.take(done as int) == all);
        self.rebuild_indices();
    }

    /// Deletes a preset from files: built-in presets cannot be deleted; for a
    /// preset with a file, `removal` is the outcome of removing that file,
    /// and on success every preset found at that path leaves the catalogue.
    pub fn delete(&mut self, info: &PresetInfo, removal: Result<(), String>) -> (r: Result<(), PresetError>)
        requires
            old(self).wf(),
        ensures
            final(self).wf(),
            info.builtin ==> (r matches Err(PresetError::Io(m)) && m@ == "Cannot delete builtin preset"@)
                && final(self)@ == old(self)@,
            !info.builtin && info.path is None ==> r is Ok && final(self)@ == old(self)@,
            !info.builtin && info.path is Some ==> match removal {
                Err(e) => (r matches Err(PresetError::Io(m)) && m@ == e@) && final(self)@ == old(self)@,
                Ok(()) => r is Ok && final(self)@ == (BrowserView {
                    cache: old(self)@.cache.filter(not_at(info.path->0@)),
                    ..old(self)@
                }),
            },
    {
        if info.builtin {
            return Err(PresetError::Io(String::from_str("Cannot delete builtin preset")));
        }
        match &info.path {
            None => Ok(()),
            Some(path) => match removal {
                Err(e) => Err(PresetError::Io(e)),
                Ok(()) => {
                    self.forget_path(path);
                    proof {
                        lemma_shaped_forget(old(self)@.cache, path@);
                    }
                    Ok(())
                },
            },
        }
    }
}

} // verus!

verus! {

impl Default for PresetBrowser {
    /// The same as `new`.
    fn default() -> (b: Self)
        ensures
            b.wf(),
            b@ == initial_browser(),
    {
        PresetBrowser::new()
    }
}

/// Whether a character is kept as it is in a file name: ASCII letters and
/// digits, '-' and '_'.
pub open spec fn filename_safe(c: char) -> bool {
    ('a' <= c && c <= 'z') || ('A' <= c && c <= 'Z') || ('0' <= c && c <= '9') || c == '-' || c == '_'
}

/// The character a file name holds in place of `c`.
pub open spec fn sanitized(c: char) -> char {
    if filename_safe(c) { c } else { '_' }
}

/// The file name made from a preset name.
pub open spec fn spec_sanitize(name: Seq<char>) -> Seq<char> {
    name.map_values(|c: char| sanitized(c))
}

/// A file name made from a preset name: every character other than an ASCII
/// letter or digit, '-' or '_' becomes '_'.
pub fn sanitize_filename(name: &str) -> (file: String)
    ensures
        file@ == spec_sanitize(name@),
{
    let cs = chars_of(name);
    let mut file = String::new();
    let mut i: usize = 0;
    while i < cs.len()
        invariant
            cs@ == name@,
            i <= cs@.len(),
            file@ == cs@.take(i as int).map_values(|c: char| sanitized(c)),
        decreases cs.len() - i,
    {
        let c = cs[i];
        let safe = ('a' <= c && c <= 'z') || ('A' <= c && c <= 'Z') || ('0' <= c && c <= '9') || c == '-' || c == '_';
        let out = if safe { c } else { '_' };
        let ghost before = file@;
        push_char(&mut file, out);
        assert(cs@.take(i + 1).map_values(|c: char| sanitized(c)) =~= before.push(sanitized(c)));
        i = i + 1;
    }
    assert(cs@.take(cs@.len() as int) == cs@);
    file
}

} // verus!

verus! {

/// Cataloguing one more preset updates the indices as the catalogue grows:
/// its position joins the positions of its category (and of its author), a
/// value seen for the first time is listed last, and nothing else changes.
pub proof fn lemma_index_after_append(cache: Seq<PresetInfoView>, info: PresetInfoView, f: IndexField, key: Seq<char>)
    ensures
        ({
            let n = cache.len() as int;
            let grown = cache.push(info);
            let ks = keys_in_order(cache, n, f);
            &&& positions_matching(grown, n + 1, f, key) == if field_of(info, f) == Some(key) {
                positions_matching(cache, n, f, key).push(n as usize)
            } else {
                positions_matching(cache, n, f, key)
            }
            &&& keys_in_order(grown, n + 1, f) == match field_of(info, f) {
                Some(k) => if ks.contains(k) { ks } else { ks.push(k) },
                None => ks,
            }
        }),
{
    let n = cache.len() as int;
    let grown = cache.push(info);
    lemma_prefix_same(cache, grown, n, f, key);
    assert(grown[n] == info);
}

/// The built-in presets have distinct names, so looking one up by name finds
/// that very preset; all are built in and without a path, and after "Init"
/// each is by Katie and has a category.
pub proof fn lemma_builtin_catalog_facts()
    ensures
        forall|i: int, j: int| 0 <= i < j < builtin_catalog().len()
            ==> #[trigger] builtin_catalog()[i].name != #[trigger] builtin_catalog()[j].name,
        forall|i: int| 0 <= i < builtin_catalog().len()
            ==> (#[trigger] builtin_catalog()[i]).builtin && builtin_catalog()[i].path is None,
        forall|i: int| 1 <= i < builtin_catalog().len()
            ==> (#[trigger] builtin_catalog()[i]).author == Some("Katie"@) && builtin_catalog()[i].category is Some,
{
    reveal_strlit("Init");
    reveal_strlit("Classic Bass");
    reveal_strlit("Soft Pad");
    reveal_strlit("FM Bell");
    reveal_strlit("Sync Lead");
    reveal_strlit("Pluck");
    let c = builtin_catalog();
    assert forall|i: int, j: int| 0 <= i < j < c.len() implies #[trigger] c[i].name != #[trigger] c[j].name by {
        if c[i].name == c[j].name {
            assert(c[i].name.len() == c[j].name.len());
            assert(c[i].name[0] == c[j].name[0]);
            assert(c[i].name[1] == c[j].name[1]);
        }
    }
}

/// What an index holds when it reflects the catalogue: each value of the
/// attribute, in order of first appearance, with the ascending positions of
/// the presets that have it.
pub open spec fn expected_index(cache: Seq<PresetInfoView>, f: IndexField) -> Seq<(Seq<char>, Seq<usize>)> {
    let n = cache.len() as int;
    let ks = keys_in_order(cache, n, f);
    Seq::new(ks.len(), |j: int| (ks[j], positions_matching(cache, n, f, ks[j])))
}

proof fn lemma_index_view(b: &PresetBrowser, f: IndexField)
    requires
        b.indexed(),
    ensures
        b.index(f) == expected_index(b@.cache, f),
{
    let e = match f {
        IndexField::Category => b.by_category@,
        IndexField::Author => b.by_author@,
    };
    assert(index_reflects(e, b@.cache, b@.cache.len() as int, f));
    assert(b.index(f) =~= expected_index(b@.cache, f));
}

/// In every state a browser reaches, its category and author indices list
/// each value once, in order of first appearance, with the ascending positions
/// of the presets that have it; cataloguing a preset updates them as
/// `lemma_index_after_append` describes.
pub proof fn lemma_indices_reflect_catalogue(b: &PresetBrowser, f: IndexField)
    requires
        b.wf(),
    ensures
        b.index(f) == expected_index(b@.cache, f),
{
    lemma_index_view(b, f);
}

proof fn lemma_user_entries_filter(u: Seq<PresetInfoView>)
    requires
        all_user_entries(u),
    ensures
        u.filter(is_builtin()) == Seq::<PresetInfoView>::empty(),
        u.filter(is_user()) == u,
    decreases u.len(),
{
    reveal(Seq::filter);
    if u.len() > 0 {
        let d = u.drop_last();
        assert forall|i: int| 0 <= i < d.len() implies is_user_entry(#[trigger] d[i]) by {
            assert(d[i] == u[i]);
        }
        lemma_user_entries_filter(d);
        assert(is_user_entry(u[u.len() - 1]));
        assert(d.push(u.last()) =~= u);
    }
}

/// In every state a browser reaches, the catalogue is the built-in presets,
/// in order, followed by presets read from files: the built-in listing is
/// always exactly the built-in presets, and every user preset has a path.
pub proof fn lemma_catalogue_shape(b: &PresetBrowser)
    requires
        b.wf(),
    ensures
        catalogue_shaped(b@.cache),
        b@.cache.filter(is_builtin()) == builtin_catalog(),
        all_user_entries(b@.cache.filter(is_user())),
        b@.cache.filter(is_user()).len() == b@.cache.len() - builtin_catalog().len(),
{
    let c = b@.cache;
    let k = builtin_catalog().len() as int;
    let bs = c.take(k);
    let us = c.skip(k);
    assert(c =~= bs + us);
    Seq::filter_distributes_over_add(bs, us, is_builtin());
    Seq::filter_distributes_over_add(bs, us, is_user());
    lemma_user_entries_filter(us);
    assert(bs.filter(is_builtin()) =~= bs) by {
        reveal_with_fuel(Seq::filter, 7);
    }
    assert(bs.filter(is_user()) =~= Seq::<PresetInfoView>::empty()) by {
        reveal_with_fuel(Seq::filter, 7);
    }
    assert(bs + Seq::<PresetInfoView>::empty() =~= bs);
    assert(Seq::<PresetInfoView>::empty() + us =~= us);
}

/// The categories (and the authors) a browser lists are distinct, and a value
/// is listed exactly when some catalogued preset has it.
pub proof fn lemma_listing_complete(b: BrowserView, f: IndexField, k: Seq<char>)
    ensures
        keys_in_order(b.cache, b.cache.len() as int, f).no_duplicates(),
        keys_in_order(b.cache, b.cache.len() as int, f).contains(k)
            <==> exists|i: int| 0 <= i < b.cache.len() && #[trigger] field_of(b.cache[i], f) == Some(k),
{
    lemma_keys_characterised(b.cache, b.cache.len() as int, f);
}

/// Searching is blind to case: two queries with the same lower-case form
/// find the same presets.
pub proof fn lemma_search_ignores_case(cache: Seq<PresetInfoView>, q1: Seq<char>, q2: Seq<char>)
    requires
        spec_lowercase(q1) == spec_lowercase(q2),
    ensures
        cache.filter(name_matches(q1)) == cache.filter(name_matches(q2)),
{
    assert(name_matches(q1) =~= name_matches(q2));
}

/// Searching with ASCII text is blind to its case: a query, its upper-case
/// form and its lower-case form find the same presets.
pub proof fn lemma_ascii_search_ignores_case(cache: Seq<PresetInfoView>, query: Seq<char>)
    requires
        is_ascii_text(query),
    ensures
        is_ascii_text(ascii_uppercase(query)),
        is_ascii_text(ascii_lowercase(query)),
        cache.filter(name_holds(ascii_lowercase(ascii_uppercase(query)))) == cache.filter(name_holds(ascii_lowercase(query))),
        cache.filter(name_holds(ascii_lowercase(ascii_lowercase(query)))) == cache.filter(name_holds(ascii_lowercase(query))),
{
    lemma_ascii_case_round_trip(query);
    let l = ascii_lowercase(query);
    assert forall|i: int| 0 <= i < l.len() implies (#[trigger] l[i] as u32) < 128 by {
        assert((query[i] as u32) < 128);
    }
}

/// The empty query finds every preset.
pub proof fn lemma_empty_query_finds_all(cache: Seq<PresetInfoView>)
    ensures
        is_ascii_text(Seq::<char>::empty()),
        cache.filter(name_holds(ascii_lowercase(Seq::<char>::empty()))) == cache,
    decreases cache.len(),
{
    reveal(Seq::filter);
    let e = ascii_lowercase(Seq::<char>::empty());
    assert(e =~= Seq::<char>::empty());
    if cache.len() > 0 {
        lemma_empty_query_finds_all(cache.drop_last());
        let name = spec_lowercase(cache.last().name);
        assert(name.subrange(0int, 0int + e.len()) =~= e);
        assert(spec_contains(name, e));
        assert(name_holds(e)(cache.last()));
        assert(cache.drop_last().push(cache.last()) =~= cache);
    }
}

/// Every catalogued preset is either built in or from a file: the two
/// listings together are as long as the catalogue.
pub proof fn lemma_builtins_and_user_presets_partition(cache: Seq<PresetInfoView>)
    ensures
        cache.filter(is_builtin()).len() + cache.filter(is_user()).len() == cache.len(),
    decreases cache.len(),
{
    reveal(Seq::filter);
    if cache.len() > 0 {
        lemma_builtins_and_user_presets_partition(cache.drop_last());
    }
}

/// Adding a directory that is already searched changes nothing, whichever
/// spelling names it the second time.
pub proof fn lemma_search_path_added_once(b: BrowserView, d: ScannedDirView, again: ScannedDirView)
    requires
        same_path(again.path, d.path),
    ensures
        with_dir(with_dir(b, d), again) == with_dir(b, d),
{
    if !searches(b.search_paths, d.path) {
        assert(same_path(b.search_paths.push(d.path)[b.search_paths.len() as int], again.path));
    }
}

/// After a preset file is deleted, no catalogued preset is at its path,
/// under any spelling.
pub proof fn lemma_deleted_path_gone(cache: Seq<PresetInfoView>, path: Seq<char>)
    ensures
        forall|i: int| 0 <= i < cache.filter(not_at(path)).len()
            ==> !found_at(#[trigger] cache.filter(not_at(path))[i], path),
{
    assert forall|i: int| 0 <= i < cache.filter(not_at(path)).len()
        implies !found_at(#[trigger] cache.filter(not_at(path))[i], path) by {
        cache.lemma_filter_pred(not_at(path), i);
    }
}

/// Sanitising keeps the length, yields only safe characters, and leaves a
/// sanitised name as it is.
pub proof fn lemma_sanitize_idempotent(name: Seq<char>)
    ensures
        spec_sanitize(name).len() == name.len(),
        forall|i: int| 0 <= i < name.len() ==> filename_safe(#[trigger] spec_sanitize(name)[i]),
        spec_sanitize(spec_sanitize(name)) == spec_sanitize(name),
{
    let once = spec_sanitize(name);
    assert(spec_sanitize(once) =~= once);
}

} // verus!
