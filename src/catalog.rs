//! The item catalog: documented entities of one crate, keyed by full path,
//! and the normalizer that builds it from a raw documentation tree.
use vstd::prelude::*;
use vstd::string::*;

verus! {

/// One documented entity (function, struct, module, ...) of a crate.
#[derive(Debug, Clone)]
pub struct DocItem {
    /// The raw identifier that the documentation tree gave the item.
    pub id: String,
    pub crate_name: String,
    /// The item's own local name.
    pub name: String,
    /// The module path from the crate root, without the item's own name.
    pub path: Vec<String>,
    pub description: Option<String>,
    /// The kind tag: "function", "struct", "module", ...
    pub item_type: String,
    /// Crate name, module path and name joined by `::`; unique in a catalog.
    pub full_path_str: String,
}

pub struct DocItemView {
    pub id: Seq<char>,
    pub crate_name: Seq<char>,
    pub name: Seq<char>,
    pub path: Seq<Seq<char>>,
    pub description: Option<Seq<char>>,
    pub item_type: Seq<char>,
    pub full_path_str: Seq<char>,
}

pub open spec fn strings_view(v: Seq<String>) -> Seq<Seq<char>> {
    v.map_values(|s: String| s@)
}

pub open spec fn opt_string_view(o: Option<String>) -> Option<Seq<char>> {
    match o {
        Some(s) => Some(s@),
        None => None,
    }
}

impl View for DocItem {
    type V = DocItemView;

    open spec fn view(&self) -> DocItemView {
        DocItemView {
            id: self.id@,
            crate_name: self.crate_name@,
            name: self.name@,
            path: strings_view(self.path@),
            description: opt_string_view(self.description),
            item_type: self.item_type@,
            full_path_str: self.full_path_str@,
        }
    }
}

pub open spec fn path_separator() -> Seq<char> {
    seq![':', ':']
}

pub open spec fn module_kind() -> Seq<char> {
    seq!['m', 'o', 'd', 'u', 'l', 'e']
}

/// The segments joined by `::`.
pub open spec fn joined(parts: Seq<Seq<char>>) -> Seq<char>
    decreases parts.len(),
{
    if parts.len() == 0 {
        Seq::empty()
    } else if parts.len() == 1 {
        parts[0]
    } else {
        joined(parts.drop_last()) + path_separator() + parts.last()
    }
}

/// The segments of an item's full path: the crate, the module path, then the
/// item's name, except for a module whose module path already ends in its name.
pub open spec fn full_path_parts(
    crate_name: Seq<char>,
    mod_path: Seq<Seq<char>>,
    name: Seq<char>,
    kind: Seq<char>,
) -> Seq<Seq<char>> {
    if kind == module_kind() && mod_path.len() > 0 && mod_path.last() == name {
        seq![crate_name] + mod_path
    } else {
        seq![crate_name] + mod_path + seq![name]
    }
}

pub proof fn lemma_strings_view_push(s: Seq<String>, x: String)
    ensures
        strings_view(s.push(x)) == strings_view(s).push(x@),
{
    assert(strings_view(s.push(x)) =~= strings_view(s).push(x@));
}

/// Joins path segments with `::`.
pub fn join_path(parts: &Vec<String>) -> (r: String)
    ensures
        r@ == joined(strings_view(parts@)),
{
    let mut r = String::new();
    let mut i: usize = 0;
    while i < parts.len()
        invariant
            i <= parts@.len(),
            r@ == joined(strings_view(parts@.subrange(0, i as int))),
        decreases parts@.len() - i,
    {
        let ghost before = strings_view(parts@.subrange(0, i as int));
        let ghost after = strings_view(parts@.subrange(0, i + 1));
        assert(after.drop_last() =~= before);
        if i > 0 {
            proof {
                reveal_strlit("::");
            }
            r.append("::");
        }
        r.append(parts[i].as_str());
        assert(after.last() == parts@[i as int]@);
        if i == 0 {
            assert(r@ =~= after[0]);
        } else {
            assert(r@ =~= joined(before) + path_separator() + after.last());
        }
        i = i + 1;
    }
    assert(parts@.subrange(0, parts@.len() as int) =~= parts@);
    r
}

/// Whether a kind tag names a module.
pub fn is_module_kind(kind: &String) -> (r: bool)
    ensures
        r == (kind@ == module_kind()),
{
    let module = String::from_str("module");
    proof {
        reveal_strlit("module");
    }
    assert(module@ =~= module_kind());
    *kind == module
}

/// The segments of an item's full path (see `full_path_parts`).
pub fn item_full_path_parts(
    crate_name: &String,
    mod_path: &Vec<String>,
    name: &String,
    kind: &String,
) -> (r: Vec<String>)
    ensures
        strings_view(r@) == full_path_parts(crate_name@, strings_view(mod_path@), name@, kind@),
{
    let mut r: Vec<String> = Vec::new();
    r.push(crate_name.clone());
    let mut i: usize = 0;
    while i < mod_path.len()
        invariant
            i <= mod_path@.len(),
            strings_view(r@) == seq![crate_name@] + strings_view(mod_path@.subrange(0, i as int)),
        decreases mod_path@.len() - i,
    {
        let ghost old_r = r@;
        r.push(mod_path[i].clone());
        assert(mod_path@.subrange(0, i + 1) =~= mod_path@.subrange(0, i as int).push(
            mod_path@[i as int],
        ));
        proof {
            lemma_strings_view_push(old_r, mod_path@[i as int]);
            lemma_strings_view_push(mod_path@.subrange(0, i as int), mod_path@[i as int]);
        }
        assert(strings_view(r@) =~= seq![crate_name@] + strings_view(
            mod_path@.subrange(0, i + 1),
        ));
        i = i + 1;
    }
    assert(mod_path@.subrange(0, mod_path@.len() as int) =~= mod_path@);
    let n = mod_path.len();
    let duplicated = is_module_kind(kind) && n > 0 && mod_path[n - 1] == *name;
    if !duplicated {
        let ghost old_r = r@;
        r.push(name.clone());
        proof {
            lemma_strings_view_push(old_r, *name);
        }
        assert(strings_view(r@) =~= seq![crate_name@] + strings_view(mod_path@) + seq![name@]);
    }
    r
}

/// The full path of an item: crate name, module path and name joined by `::`,
/// where a module whose module path already ends in its own name is not
/// named twice.
pub fn item_full_path(
    crate_name: &String,
    mod_path: &Vec<String>,
    name: &String,
    kind: &String,
) -> (r: String)
    ensures
        r@ == joined(full_path_parts(crate_name@, strings_view(mod_path@), name@, kind@)),
        kind@ != module_kind() ==> r@ == joined(
            seq![crate_name@] + strings_view(mod_path@) + seq![name@],
        ),
        kind@ == module_kind() && mod_path@.len() > 0 && mod_path@.last()@ == name@ ==> r@
            == joined(seq![crate_name@] + strings_view(mod_path@)),
{
    let parts = item_full_path_parts(crate_name, mod_path, name, kind);
    join_path(&parts)
}

/// One record of the raw documentation tree's item index, with the fields
/// that the catalog reads. A field that was absent or not a string is `None`.
pub struct RawItem {
    pub id: String,
    pub name: Option<String>,
    pub docs: Option<String>,
    pub kind: Option<String>,
    /// The record's "stripped" marker: present but not fully documented.
    pub is_stripped: bool,
}

/// One entry of the raw tree's path table: the module path of the item `id`.
/// A segment that was not a string is `None`.
pub struct RawPath {
    pub id: String,
    pub path: Vec<Option<String>>,
}

/// The raw documentation tree: its three sections, each `None` where it was
/// absent or malformed.
pub struct RawDocTree {
    pub root: Option<String>,
    pub index: Option<Vec<RawItem>>,
    pub paths: Option<Vec<RawPath>>,
}

/// Why a raw documentation tree could not be normalized.
#[derive(Debug, Clone, Copy, PartialEq, Eq, Structural)]
pub enum SchemaError {
    MissingIndex,
    MissingPaths,
    MissingRoot,
    /// The root identifier names no record of the item index.
    RootItemNotFound,
}

/// A crate's catalog: its items, each under a distinct full path.
pub struct CrateDocs {
    pub crate_name: String,
    pub items: Vec<DocItem>,
}

pub struct CrateDocsView {
    pub crate_name: Seq<char>,
    pub items: Seq<DocItemView>,
}

pub open spec fn items_view(v: Seq<DocItem>) -> Seq<DocItemView> {
    v.map_values(|d: DocItem| d@)
}

impl View for CrateDocs {
    type V = CrateDocsView;

    open spec fn view(&self) -> CrateDocsView {
        CrateDocsView { crate_name: self.crate_name@, items: items_view(self.items@) }
    }
}

/// The last position in `items` whose full path is `key`, or -1.
pub open spec fn key_position(items: Seq<DocItemView>, key: Seq<char>) -> int
    decreases items.len(),
{
    if items.len() == 0 {
        -1
    } else if items.last().full_path_str == key {
        items.len() - 1
    } else {
        key_position(items.drop_last(), key)
    }
}

/// `items` with `item` put in place of the entry under the same full path,
/// or appended where there is none.
pub open spec fn catalog_insert(items: Seq<DocItemView>, item: DocItemView) -> Seq<DocItemView> {
    let p = key_position(items, item.full_path_str);
    if p >= 0 {
        items.update(p, item)
    } else {
        items.push(item)
    }
}

/// No two items share a full path.
pub open spec fn keys_distinct(items: Seq<DocItemView>) -> bool {
    forall|i: int, j: int|
        0 <= i < j < items.len() ==> items[i].full_path_str != items[j].full_path_str
}

pub proof fn lemma_key_position(items: Seq<DocItemView>, key: Seq<char>)
    ensures
        -1 <= key_position(items, key) < items.len(),
        key_position(items, key) >= 0 ==> items[key_position(items, key)].full_path_str == key,
        forall|j: int|
            key_position(items, key) < j < items.len() ==> items[j].full_path_str != key,
    decreases items.len(),
{
    if items.len() > 0 && items.last().full_path_str != key {
        let d = items.drop_last();
        lemma_key_position(d, key);
        assert forall|j: int| key_position(items, key) < j < items.len() implies items[j].full_path_str
            != key by {
            if j < items.len() - 1 {
                assert(items[j] == d[j]);
            }
        }
    }
}

pub proof fn lemma_catalog_insert_distinct(items: Seq<DocItemView>, item: DocItemView)
    requires
        keys_distinct(items),
    ensures
        keys_distinct(catalog_insert(items, item)),
{
    lemma_key_position(items, item.full_path_str);
}

/// The last entry of the path table for `id`.
pub open spec fn path_entry(paths: Seq<RawPath>, id: Seq<char>) -> Option<RawPath>
    decreases paths.len(),
{
    if paths.len() == 0 {
        None
    } else if paths.last().id@ == id {
        Some(paths.last())
    } else {
        path_entry(paths.drop_last(), id)
    }
}

/// The string segments of a raw path, in order.
pub open spec fn present_segments(segs: Seq<Option<String>>) -> Seq<Seq<char>>
    decreases segs.len(),
{
    if segs.len() == 0 {
        Seq::empty()
    } else {
        let before = present_segments(segs.drop_last());
        match segs.last() {
            Some(s) => before.push(s@),
            None => before,
        }
    }
}

/// The module path of the item `id`: empty where the path table has no entry.
pub open spec fn mod_path_of(paths: Seq<RawPath>, id: Seq<char>) -> Seq<Seq<char>> {
    match path_entry(paths, id) {
        Some(e) => present_segments(e.path@),
        None => Seq::empty(),
    }
}

/// The last record of the item index with identifier `id`.
pub open spec fn index_entry(index: Seq<RawItem>, id: Seq<char>) -> Option<RawItem>
    decreases index.len(),
{
    if index.len() == 0 {
        None
    } else if index.last().id@ == id {
        Some(index.last())
    } else {
        index_entry(index.drop_last(), id)
    }
}

pub open spec fn unknown_kind() -> Seq<char> {
    seq!['u', 'n', 'k', 'n', 'o', 'w', 'n']
}

pub open spec fn unknown_crate() -> Seq<char> {
    seq!['u', 'n', 'k', 'n', 'o', 'w', 'n', '_', 'c', 'r', 'a', 't', 'e']
}

pub open spec fn kind_of(kind: Option<String>) -> Seq<char> {
    match kind {
        Some(k) => k@,
        None => unknown_kind(),
    }
}

/// The catalog entry for a raw record, or `None` for a record without a name.
pub open spec fn doc_item_of(crate_name: Seq<char>, raw: RawItem, paths: Seq<RawPath>) -> Option<
    DocItemView,
> {
    match raw.name {
        None => None,
        Some(n) => {
            let mp = mod_path_of(paths, raw.id@);
            let kind = kind_of(raw.kind);
            Some(
                DocItemView {
                    id: raw.id@,
                    crate_name,
                    name: n@,
                    path: mp,
                    description: opt_string_view(raw.docs),
                    item_type: kind,
                    full_path_str: joined(full_path_parts(crate_name, mp, n@, kind)),
                },
            )
        },
    }
}

/// The catalog of the records of `index`, taken in order, a later record
/// replacing an earlier one under the same full path.
pub open spec fn catalog_of(
    crate_name: Seq<char>,
    index: Seq<RawItem>,
    paths: Seq<RawPath>,
    skip_stripped: bool,
) -> Seq<DocItemView>
    decreases index.len(),
{
    if index.len() == 0 {
        Seq::empty()
    } else {
        let before = catalog_of(crate_name, index.drop_last(), paths, skip_stripped);
        let raw = index.last();
        if skip_stripped && raw.is_stripped {
            before
        } else {
            match doc_item_of(crate_name, raw, paths) {
                Some(d) => catalog_insert(before, d),
                None => before,
            }
        }
    }
}

/// The name of the crate whose root record is `root`.
pub open spec fn crate_name_of(root: RawItem) -> Seq<char> {
    match root.name {
        Some(n) => n@,
        None => unknown_crate(),
    }
}

/// What normalizing a raw tree gives.
pub open spec fn normalized(tree: RawDocTree, skip_stripped: bool) -> Result<
    CrateDocsView,
    SchemaError,
> {
    match (tree.index, tree.paths, tree.root) {
        (None, _, _) => Err(SchemaError::MissingIndex),
        (Some(_), None, _) => Err(SchemaError::MissingPaths),
        (Some(_), Some(_), None) => Err(SchemaError::MissingRoot),
        (Some(index), Some(paths), Some(root)) => match index_entry(index@, root@) {
            None => Err(SchemaError::RootItemNotFound),
            Some(root_item) => {
                let crate_name = crate_name_of(root_item);
                Ok(
                    CrateDocsView {
                        crate_name,
                        items: catalog_of(crate_name, index@, paths@, skip_stripped),
                    },
                )
            },
        },
    }
}

fn copy_opt_string(o: &Option<String>) -> (r: Option<String>)
    ensures
        opt_string_view(r) == opt_string_view(*o),
{
    match o {
        Some(x) => Some(x.clone()),
        None => None,
    }
}

/// The string segments of a raw path, in order.
pub fn string_segments(segs: &Vec<Option<String>>) -> (r: Vec<String>)
    ensures
        strings_view(r@) == present_segments(segs@),
{
    let mut r: Vec<String> = Vec::new();
    let mut i: usize = 0;
    while i < segs.len()
        invariant
            i <= segs@.len(),
            strings_view(r@) == present_segments(segs@.subrange(0, i as int)),
        decreases segs@.len() - i,
    {
        assert(segs@.subrange(0, i + 1).drop_last() =~= segs@.subrange(0, i as int));
        match &segs[i] {
            Some(x) => {
                let ghost old_r = r@;
                r.push(x.clone());
                proof {
                    lemma_strings_view_push(old_r, *x);
                }
            },
            None => {},
        }
        i = i + 1;
    }
    assert(segs@.subrange(0, segs@.len() as int) =~= segs@);
    r
}

/// The module path that the path table gives the item `id`; empty where it
/// has no entry for it.
pub fn lookup_mod_path(paths: &Vec<RawPath>, id: &String) -> (r: Vec<String>)
    ensures
        strings_view(r@) == mod_path_of(paths@, id@),
{
    let mut found: Option<usize> = None;
    let mut i: usize = 0;
    while i < paths.len()
        invariant
            i <= paths@.len(),
            match found {
                Some(j) => j < i && path_entry(paths@.subrange(0, i as int), id@) == Some(
                    paths@[j as int],
                ),
                None => path_entry(paths@.subrange(0, i as int), id@) is None,
            },
        decreases paths@.len() - i,
    {
        assert(paths@.subrange(0, i + 1).drop_last() =~= paths@.subrange(0, i as int));
        if paths[i].id == *id {
            found = Some(i);
        }
        i = i + 1;
    }
    assert(paths@.subrange(0, paths@.len() as int) =~= paths@);
    match found {
        Some(j) => string_segments(&paths[j].path),
        None => Vec::new(),
    }
}

/// The last record of the item index with identifier `id`.
pub fn lookup_index_entry<'a>(index: &'a Vec<RawItem>, id: &String) -> (r: Option<&'a RawItem>)
    ensures
        match r {
            Some(x) => index_entry(index@, id@) == Some(*x),
            None => index_entry(index@, id@) is None,
        },
{
    let mut found: Option<usize> = None;
    let mut i: usize = 0;
    while i < index.len()
        invariant
            i <= index@.len(),
            match found {
                Some(j) => j < i && index_entry(index@.subrange(0, i as int), id@) == Some(
                    index@[j as int],
                ),
                None => index_entry(index@.subrange(0, i as int), id@) is None,
            },
        decreases index@.len() - i,
    {
        assert(index@.subrange(0, i + 1).drop_last() =~= index@.subrange(0, i as int));
        if index[i].id == *id {
            found = Some(i);
        }
        i = i + 1;
    }
    assert(index@.subrange(0, index@.len() as int) =~= index@);
    match found {
        Some(j) => Some(&index[j]),
        None => None,
    }
}

impl CrateDocs {
    /// The item under full path `key`.
    pub fn get(&self, key: &String) -> (r: Option<&DocItem>)
        ensures
            key_position(self@.items, key@) >= 0 ==> r is Some && r->Some_0@ == self@.items[key_position(
                self@.items,
                key@,
            )],
            key_position(self@.items, key@) < 0 ==> r is None,
    {
        let pos = self.position_of(key);
        match pos {
            Some(p) => Some(&self.items[p]),
            None => None,
        }
    }

    /// The position of the item under full path `key`.
    pub fn position_of(&self, key: &String) -> (r: Option<usize>)
        ensures
            match r {
                Some(p) => p == key_position(self@.items, key@) && p < self.items@.len(),
                None => key_position(self@.items, key@) == -1,
            },
    {
        let mut found: Option<usize> = None;
        let mut i: usize = 0;
        while i < self.items.len()
            invariant
                i <= self.items@.len(),
                match found {
                    Some(j) => j < i && j == key_position(
                        self@.items.subrange(0, i as int),
                        key@,
                    ),
                    None => key_position(self@.items.subrange(0, i as int), key@) == -1,
                },
            decreases self.items@.len() - i,
        {
            assert(self@.items.subrange(0, i + 1).drop_last() =~= self@.items.subrange(0, i as int));
            if self.items[i].full_path_str == *key {
                found = Some(i);
            }
            i = i + 1;
        }
        assert(self@.items.subrange(0, self.items@.len() as int) =~= self@.items);
        found
    }

    /// Puts `item` in place of the item under the same full path, or adds it.
    pub fn insert(&mut self, item: DocItem)
        ensures
            final(self)@.crate_name == old(self)@.crate_name,
            final(self)@.items == catalog_insert(old(self)@.items, item@),
    {
        let pos = self.position_of(&item.full_path_str);
        let ghost it = item@;
        match pos {
            Some(p) => {
                self.items.set(p, item);
                assert(self@.items =~= old(self)@.items.update(p as int, it));
            },
            None => {
                self.items.push(item);
                assert(self@.items =~= old(self)@.items.push(it));
            },
        }
    }
}

/// The catalog entry for one raw record; `None` for a record without a name.
pub fn doc_item_from_raw(crate_name: &String, raw: &RawItem, paths: &Vec<RawPath>) -> (r: Option<
    DocItem,
>)
    ensures
        match r {
            Some(d) => doc_item_of(crate_name@, *raw, paths@) == Some(d@),
            None => doc_item_of(crate_name@, *raw, paths@) is None,
        },
{
    match &raw.name {
        None => None,
        Some(n) => {
            let mp = lookup_mod_path(paths, &raw.id);
            let kind = match &raw.kind {
                Some(k) => k.clone(),
                None => {
                    proof {
                        reveal_strlit("unknown");
                    }
                    let u = String::from_str("unknown");
                    assert(u@ =~= unknown_kind());
                    u
                },
            };
            let full = item_full_path(crate_name, &mp, n, &kind);
            let d = DocItem {
                id: raw.id.clone(),
                crate_name: crate_name.clone(),
                name: n.clone(),
                path: mp,
                description: copy_opt_string(&raw.docs),
                item_type: kind,
                full_path_str: full,
            };
            Some(d)
        },
    }
}

/// Normalizes a raw documentation tree into the crate's catalog.
///
/// Fails where the item index, the path table or the root identifier is
/// absent, or where the root identifier names no record. Otherwise every
/// record with a name becomes an item under its full path (a later record
/// replacing an earlier one under the same path); records without a name are
/// dropped. Records marked stripped are kept unless `skip_stripped` is set.
pub fn normalize_rustdoc_tree(tree: &RawDocTree, skip_stripped: bool) -> (r: Result<
    CrateDocs,
    SchemaError,
>)
    ensures
        match r {
            Ok(docs) => normalized(*tree, skip_stripped) == Ok::<CrateDocsView, SchemaError>(docs@),
            Err(e) => normalized(*tree, skip_stripped) == Err::<CrateDocsView, SchemaError>(e),
        },
        r is Ok ==> keys_distinct(r->Ok_0@.items),
{
    let index = match &tree.index {
        Some(x) => x,
        None => {
            return Err(SchemaError::MissingIndex);
        },
    };
    let paths = match &tree.paths {
        Some(x) => x,
        None => {
            return Err(SchemaError::MissingPaths);
        },
    };
    let root = match &tree.root {
        Some(x) => x,
        None => {
            return Err(SchemaError::MissingRoot);
        },
    };
    let root_item = match lookup_index_entry(index, root) {
        Some(x) => x,
        None => {
            return Err(SchemaError::RootItemNotFound);
        },
    };
    let crate_name = match &root_item.name {
        Some(n) => n.clone(),
        None => {
            proof {
                reveal_strlit("unknown_crate");
            }
            let u = String::from_str("unknown_crate");
            assert(u@ =~= unknown_crate());
            u
        },
    };
    let mut docs = CrateDocs { crate_name, items: Vec::new() };
    assert(docs@.items =~= Seq::<DocItemView>::empty());
    let mut i: usize = 0;
    while i < index.len()
        invariant
            i <= index@.len(),
            docs@.crate_name == crate_name_of(*root_item),
            docs@.items == catalog_of(
                docs@.crate_name,
                index@.subrange(0, i as int),
                paths@,
                skip_stripped,
            ),
            keys_distinct(docs@.items),
        decreases index@.len() - i,
    {
        assert(index@.subrange(0, i + 1).drop_last() =~= index@.subrange(0, i as int));
        let raw = &index[i];
        if !(skip_stripped && raw.is_stripped) {
            match doc_item_from_raw(&docs.crate_name, raw, paths) {
                Some(d) => {
                    proof {
                        lemma_catalog_insert_distinct(docs@.items, d@);
                    }
                    docs.insert(d);
                },
                None => {},
            }
        }
        i = i + 1;
    }
    assert(index@.subrange(0, index@.len() as int) =~= index@);
    Ok(docs)
}

} // verus!
