//! The index of one project: its catalog, the items chosen for embedding,
//! and their vectors. A vector is of any type `E`: the index keeps it and
//! hands it out, and does no arithmetic on it.
use vstd::prelude::*;
use vstd::string::*;
use crate::catalog::{
    CrateDocs,
    CrateDocsView,
    DocItem,
    DocItemView,
    key_position,
    lemma_key_position,
    lemma_strings_view_push,
    strings_view,
};
use crate::embedding::{embed_batch, batch_follows};

verus! {

/// Unicode's White_Space property.
pub open spec fn unicode_white_space(c: char) -> bool {
    ('\u{9}' <= c && c <= '\u{d}') || c == ' ' || c == '\u{85}' || c == '\u{a0}' || c == '\u{1680}'
        || ('\u{2000}' <= c && c <= '\u{200a}') || c == '\u{2028}' || c == '\u{2029}' || c
        == '\u{202f}' || c == '\u{205f}' || c == '\u{3000}'
}

/// Every character is whitespace.
pub open spec fn is_blank(s: Seq<char>) -> bool {
    forall|i: int| 0 <= i < s.len() ==> unicode_white_space(#[trigger] s[i])
}

/// Relies on str::trim: it removes leading and trailing characters with
/// Unicode's White_Space property, so what is left is empty exactly when every
/// character is whitespace.
#[verifier::external_body]
fn trimmed<'a>(s: &'a str) -> (r: &'a str)
    ensures
        r@.len() == 0 <==> is_blank(s@),
{
    s.trim()
}

/// Whether a description holds something other than whitespace.
pub fn has_content(description: &Option<String>) -> (r: bool)
    ensures
        r == (description matches Some(t) && !is_blank(t@)),
{
    match description {
        Some(t) => !trimmed(t.as_str()).is_empty(),
        None => false,
    }
}

/// An item is embedded when its description has content.
pub open spec fn embeddable(d: DocItemView) -> bool {
    d.description matches Some(t) && !is_blank(t)
}

/// The items to embed, in catalog order.
pub open spec fn selected(items: Seq<DocItemView>) -> Seq<DocItemView>
    decreases items.len(),
{
    if items.len() == 0 {
        Seq::empty()
    } else {
        let before = selected(items.drop_last());
        if embeddable(items.last()) {
            before.push(items.last())
        } else {
            before
        }
    }
}

/// The text that stands for an item when it is embedded: its crate, name,
/// kind and description.
pub open spec fn embedding_text_of(d: DocItemView) -> Seq<char> {
    "Crate: "@ + d.crate_name + ", Item: "@ + d.name + ", Type: "@ + d.item_type + ", Docs: "@
        + d.description->Some_0
}

pub open spec fn texts_of(items: Seq<DocItemView>) -> Seq<Seq<char>> {
    items.map_values(|d: DocItemView| embedding_text_of(d))
}

pub open spec fn keys_of(items: Seq<DocItemView>) -> Seq<Seq<char>> {
    items.map_values(|d: DocItemView| d.full_path_str)
}

pub proof fn lemma_selected_from(items: Seq<DocItemView>)
    ensures
        forall|i: int|
            0 <= i < selected(items).len() ==> exists|j: int|
                0 <= j < items.len() && items[j] == #[trigger] selected(items)[i],
        forall|i: int| 0 <= i < selected(items).len() ==> embeddable(#[trigger] selected(items)[i]),
    decreases items.len(),
{
    if items.len() > 0 {
        let d = items.drop_last();
        lemma_selected_from(d);
        assert forall|i: int| 0 <= i < selected(items).len() implies exists|j: int|
            0 <= j < items.len() && items[j] == #[trigger] selected(items)[i] by {
            if i < selected(d).len() {
                let j = choose|j: int| 0 <= j < d.len() && d[j] == selected(d)[i];
                assert(items[j] == d[j]);
            } else {
                assert(items[items.len() - 1] == selected(items)[i]);
            }
        }
    }
}

/// The text that stands for an item when it is embedded.
pub fn embedding_text(item: &DocItem, description: &String) -> (r: String)
    ensures
        r@ == "Crate: "@ + item.crate_name@ + ", Item: "@ + item.name@ + ", Type: "@
            + item.item_type@ + ", Docs: "@ + description@,
{
    let mut r = String::from_str("Crate: ");
    r.append(item.crate_name.as_str());
    r.append(", Item: ");
    r.append(item.name.as_str());
    r.append(", Type: ");
    r.append(item.item_type.as_str());
    r.append(", Docs: ");
    r.append(description.as_str());
    r
}

/// The texts to embed for a catalog and the full paths they belong to.
pub struct EmbeddingRequest {
    pub texts: Vec<String>,
    pub keys: Vec<String>,
}

/// One text per item whose description has content, in catalog order, with
/// that item's full path.
pub fn embedding_request(docs: &CrateDocs) -> (r: EmbeddingRequest)
    ensures
        strings_view(r.texts@) == texts_of(selected(docs@.items)),
        strings_view(r.keys@) == keys_of(selected(docs@.items)),
{
    let mut texts: Vec<String> = Vec::new();
    let mut keys: Vec<String> = Vec::new();
    let mut i: usize = 0;
    while i < docs.items.len()
        invariant
            i <= docs.items@.len(),
            strings_view(texts@) == texts_of(selected(docs@.items.subrange(0, i as int))),
            strings_view(keys@) == keys_of(selected(docs@.items.subrange(0, i as int))),
        decreases docs.items@.len() - i,
    {
        let ghost before = docs@.items.subrange(0, i as int);
        let ghost after = docs@.items.subrange(0, i + 1);
        assert(after.drop_last() =~= before);
        assert(after.last() == docs.items@[i as int]@);
        let item = &docs.items[i];
        let content = has_content(&item.description);
        if !content {
            assert(!embeddable(after.last()));
        }
        if content {
            match &item.description {
                Some(t) => {
                    let ghost (ot, ok) = (texts@, keys@);
                    let text = embedding_text(item, t);
                    let key = item.full_path_str.clone();
                    assert(embeddable(after.last()));
                    assert(selected(after) == selected(before).push(after.last()));
                    assert(texts_of(selected(after)) =~= texts_of(selected(before)).push(text@));
                    assert(keys_of(selected(after)) =~= keys_of(selected(before)).push(key@));
                    texts.push(text);
                    keys.push(key);
                    proof {
                        lemma_strings_view_push(ot, text);
                        lemma_strings_view_push(ok, key);
                    }
                },
                None => {},
            }
        }
        i = i + 1;
    }
    assert(docs@.items.subrange(0, docs.items@.len() as int) =~= docs@.items);
    EmbeddingRequest { texts, keys }
}

/// One embedded item of a project: its full path and its vector.
pub struct EmbeddedItem<E> {
    pub full_path: String,
    pub vector: E,
}

pub struct ProjectDataView<E> {
    pub crate_docs: CrateDocsView,
    pub embeddings: Seq<(Seq<char>, E)>,
}

/// The index of one project: its catalog and the vectors of its embedded
/// items. Every embedded item is an item of the catalog.
pub struct ProjectData<E> {
    crate_docs: CrateDocs,
    embeddings: Vec<EmbeddedItem<E>>,
}

pub open spec fn embeddings_view<E>(v: Seq<EmbeddedItem<E>>) -> Seq<(Seq<char>, E)> {
    v.map_values(|e: EmbeddedItem<E>| (e.full_path@, e.vector))
}

impl<E> View for ProjectData<E> {
    type V = ProjectDataView<E>;

    closed spec fn view(&self) -> ProjectDataView<E> {
        ProjectDataView {
            crate_docs: self.crate_docs@,
            embeddings: embeddings_view(self.embeddings@),
        }
    }
}

/// Every embedded item is an item of the catalog.
pub open spec fn project_wf<E>(d: ProjectDataView<E>) -> bool {
    forall|i: int|
        0 <= i < d.embeddings.len() ==> key_position(d.crate_docs.items, #[trigger] d.embeddings[i].0)
            >= 0
}

/// How a project's embeddings follow from the model's answer for the keys
/// `keys`: one per key where the model gave one vector per text, else none.
pub open spec fn embeddings_follow<E>(
    keys: Seq<Seq<char>>,
    outcome: Result<Vec<E>, String>,
    embeddings: Seq<(Seq<char>, E)>,
) -> bool {
    match outcome {
        Ok(v) => if v@.len() == keys.len() {
            embeddings.len() == keys.len() && forall|i: int|
                0 <= i < keys.len() ==> #[trigger] embeddings[i] == (keys[i], v@[i])
        } else {
            embeddings.len() == 0
        },
        Err(_) => embeddings.len() == 0,
    }
}

impl<E> ProjectData<E> {
    #[verifier::type_invariant]
    spec fn inv(&self) -> bool {
        project_wf(self@)
    }

    pub fn crate_docs(&self) -> (r: &CrateDocs)
        ensures
            r@ == self@.crate_docs,
            project_wf(self@),
    {
        proof {
            use_type_invariant(self);
        }
        &self.crate_docs
    }

    pub fn embeddings(&self) -> (r: &Vec<EmbeddedItem<E>>)
        ensures
            embeddings_view(r@) == self@.embeddings,
            project_wf(self@),
    {
        proof {
            use_type_invariant(self);
        }
        &self.embeddings
    }
}

/// Builds a project's index from its catalog. The texts of all the items
/// whose description has content go to `model` in one batch; where that
/// fails, or gives a vector count other than the text count, the index holds
/// the catalog with no embeddings.
pub fn build_project_data<E, F: FnOnce(&Vec<String>) -> Result<Vec<E>, String>>(
    crate_docs: CrateDocs,
    model: F,
) -> (r: ProjectData<E>)
    requires
        forall|b: &Vec<String>| #[trigger] model.requires((b,)),
    ensures
        r@.crate_docs == crate_docs@,
        selected(crate_docs@.items).len() == 0 ==> r@.embeddings.len() == 0,
        selected(crate_docs@.items).len() > 0 ==> exists|b: Vec<String>, o: Result<Vec<E>, String>|
            strings_view(b@) == texts_of(selected(crate_docs@.items)) && model.ensures((&b,), o)
                && embeddings_follow(keys_of(selected(crate_docs@.items)), o, r@.embeddings),
{
    let request = embedding_request(&crate_docs);
    let ghost items = crate_docs@.items;
    let ghost keys = keys_of(selected(items));
    proof {
        lemma_selected_from(items);
        assert forall|i: int| 0 <= i < keys.len() implies key_position(items, #[trigger] keys[i])
            >= 0 by {
            let j = choose|j: int| 0 <= j < items.len() && items[j] == selected(items)[i];
            lemma_key_position(items, keys[i]);
        }
    }
    assert(strings_view(request.texts@).len() == request.texts@.len());
    assert(strings_view(request.keys@).len() == request.keys@.len());
    let outcome = embed_batch(&request.texts, model);
    let ghost out_g = outcome;
    let mut embeddings: Vec<EmbeddedItem<E>> = Vec::new();
    match outcome {
        Ok(vectors) => {
            let n = vectors.len();
            let ghost all = vectors@;
            let mut rest = vectors;
            let mut i: usize = 0;
            while i < n
                invariant
                    n == all.len() == request.keys@.len(),
                    strings_view(request.keys@) == keys,
                    i <= n,
                    rest@ == all.subrange(i as int, n as int),
                    embeddings@.len() == i,
                    forall|j: int|
                        0 <= j < i ==> #[trigger] embeddings_view(embeddings@)[j] == (keys[j], all[j]),
                decreases n - i,
            {
                assert(rest@[0] == all[i as int]);
                let v = rest.remove(0);
                let key = request.keys[i].clone();
                assert(key@ == keys[i as int]);
                assert(v == all[i as int]);
                let ghost old_e = embeddings@;
                embeddings.push(EmbeddedItem { full_path: key, vector: v });
                assert forall|j: int| 0 <= j < i + 1 implies #[trigger] embeddings_view(
                    embeddings@,
                )[j] == (keys[j], all[j]) by {
                    assert(embeddings_view(embeddings@)[j] == (
                        embeddings@[j].full_path@,
                        embeddings@[j].vector,
                    ));
                    if j < i {
                        assert(embeddings@[j] == old_e[j]);
                        assert(embeddings_view(old_e)[j] == (old_e[j].full_path@, old_e[j].vector));
                    } else {
                        assert(embeddings@[j].vector == v);
                    }
                }
                assert(rest@ =~= all.subrange(i + 1, n as int));
                i = i + 1;
            }
        },
        Err(_) => {},
    }
    let r = ProjectData { crate_docs, embeddings };
    assert(embeddings_view(r.embeddings@).len() == r.embeddings@.len());
    proof {
        if selected(items).len() > 0 {
            let o = choose|o: Result<Vec<E>, String>|
                model.ensures((&request.texts,), o) && batch_follows(
                    request.texts@.len(),
                    o,
                    out_g,
                );
            assert(embeddings_follow(keys, o, r@.embeddings));
        }
    }
    r
}

impl<E> ProjectData<E> {
    /// The number of embedded items.
    pub fn embedded_count(&self) -> (r: usize)
        ensures
            r == self@.embeddings.len(),
    {
        self.embeddings.len()
    }
}

} // verus!
