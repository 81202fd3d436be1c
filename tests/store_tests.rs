use rustdoc_index::catalog::{CrateDocs, DocItem};
use rustdoc_index::embedding::{embed_batch, embed_one, init_global_embedder, EmbedError, EmbedderSlot};
use rustdoc_index::ranking::{score_rank_of, top_k};
use rustdoc_index::project::{
    build_project_data, embedding_request, embedding_text, has_content, ProjectData,
};
use rustdoc_index::store::{snippet, IndexStore, LookupError, SNIPPET_CHARS};

fn s(x: &str) -> String {
    x.to_string()
}

fn item(crate_name: &str, name: &str, kind: &str, desc: Option<&str>) -> DocItem {
    DocItem {
        id: s(name),
        crate_name: s(crate_name),
        name: s(name),
        path: vec![],
        description: desc.map(s),
        item_type: s(kind),
        full_path_str: format!("{}::{}", crate_name, name),
    }
}

fn docs(crate_name: &str, items: Vec<DocItem>) -> CrateDocs {
    CrateDocs { crate_name: s(crate_name), items }
}

fn cosine(v1: &[f32], v2: &[f32]) -> f32 {
    if v1.is_empty() || v2.is_empty() || v1.len() != v2.len() {
        return 0.0;
    }
    let dot: f32 = v1.iter().zip(v2.iter()).map(|(a, b)| a * b).sum();
    let n1: f32 = v1.iter().map(|x| x * x).sum::<f32>().sqrt();
    let n2: f32 = v2.iter().map(|x| x * x).sum::<f32>().sqrt();
    if n1 == 0.0 || n2 == 0.0 {
        0.0
    } else {
        dot / (n1 * n2)
    }
}

/// A model stub: a vector that depends on the text's length.
fn stub_model(texts: &Vec<String>) -> Result<Vec<Vec<f32>>, String> {
    Ok(texts.iter().map(|t| vec![1.0, t.len() as f32, 0.5]).collect())
}

fn ingest(store: &mut IndexStore<Vec<f32>>, id: &str, d: CrateDocs) {
    let data = build_project_data(d, stub_model);
    store.upsert(s(id), data);
}

fn query(
    store: &IndexStore<Vec<f32>>,
    filter: Option<&str>,
    q: &[f32],
    k: usize,
) -> Vec<rustdoc_index::store::QueryDocResultItem> {
    let filter = filter.map(s);
    let vectors = store.embeddings_in_scope(&filter);
    let scores: Vec<u32> = vectors.iter().map(|v| cosine(q, v).to_bits()).collect();
    store.query_results(&filter, &scores, k)
}

#[test]
fn test_embedder_init_and_embed() {
    let mut slot: EmbedderSlot<usize> = EmbedderSlot::new();
    assert!(matches!(slot.ready(), Err(EmbedError::Unavailable)));
    init_global_embedder(&mut slot, || Ok(1536)).expect("init");
    let dim = *slot.ready().expect("Embedder not initialized after init_global_embedder call");
    let model = |texts: &Vec<String>| -> Result<Vec<Vec<f32>>, String> {
        Ok(texts.iter().map(|_| vec![0.1; dim]).collect())
    };
    let embedding = embed_one(&s("This is a test sentence for the BGE code embedder."), model)
        .expect("Failed to embed single sentence");
    assert!(!embedding.is_empty(), "Embedding should not be empty");
    assert_eq!(embedding.len(), 1536);
    let sentences = vec![
        s("fn main() { println!(\"Hello, world!\"); }"),
        s("struct MyStruct { field: i32 }"),
    ];
    let batch = embed_batch(&sentences, model).expect("Failed to embed batch of sentences");
    assert_eq!(batch.len(), sentences.len());
    for emb in &batch {
        assert_eq!(emb.len(), 1536);
    }
    let empty = embed_batch(&vec![], model).expect("Failed to process empty batch");
    assert!(empty.is_empty());
}

#[test]
fn empty_batch_never_reaches_the_model() {
    let r: Result<Vec<Vec<f32>>, EmbedError> =
        embed_batch(&vec![], |_t: &Vec<String>| Err(s("model must not be called")));
    assert_eq!(r, Ok(vec![]));
}

#[test]
fn batch_is_all_or_nothing() {
    let texts = vec![s("a"), s("b")];
    let short = embed_batch(&texts, |_t: &Vec<String>| Ok(vec![vec![1.0f32]]));
    assert!(matches!(short, Err(EmbedError::Failure(_))));
    let failed: Result<Vec<Vec<f32>>, EmbedError> =
        embed_batch(&texts, |_t: &Vec<String>| Err(s("device lost")));
    assert_eq!(failed, Err(EmbedError::Failure(s("device lost"))));
}

#[test]
fn init_failure_is_kept_and_distinct() {
    let mut slot: EmbedderSlot<u8> = EmbedderSlot::new();
    let r = init_global_embedder(&mut slot, || Err(s("no weights")));
    assert_eq!(r, Err(EmbedError::InitFailure(s("no weights"))));
    assert!(matches!(slot.ready(), Err(EmbedError::InitFailure(m)) if m == "no weights"));
    let again = init_global_embedder(&mut slot, || Ok(7));
    assert_eq!(again, Err(EmbedError::InitFailure(s("no weights"))));
    let mut ready: EmbedderSlot<u8> = EmbedderSlot::new();
    init_global_embedder(&mut ready, || Ok(3)).unwrap();
    init_global_embedder(&mut ready, || Ok(9)).unwrap();
    assert_eq!(*ready.ready().unwrap(), 3);
}

#[test]
fn whitespace_descriptions_are_not_embedded() {
    assert!(!has_content(&Some(s(" \t\n\u{3000}"))));
    assert!(!has_content(&None));
    assert!(has_content(&Some(s("  x "))));
    let d = docs(
        "k",
        vec![
            item("k", "a", "function", Some("does a")),
            item("k", "b", "function", Some("   ")),
            item("k", "c", "struct", None),
            item("k", "d", "struct", Some("a d")),
        ],
    );
    let req = embedding_request(&d);
    assert_eq!(req.keys, vec![s("k::a"), s("k::d")]);
    assert_eq!(req.texts[0], "Crate: k, Item: a, Type: function, Docs: does a");
}

#[test]
fn embedding_text_has_all_four_fields() {
    let it = item("kc", "f", "function", Some("x"));
    assert_eq!(embedding_text(&it, &s("desc")), "Crate: kc, Item: f, Type: function, Docs: desc");
}

#[test]
fn failed_embedding_keeps_catalog() {
    let d = docs("k", vec![item("k", "a", "function", Some("does a"))]);
    let data: ProjectData<Vec<f32>> = build_project_data(d, |_t: &Vec<String>| Err(s("boom")));
    assert_eq!(data.embedded_count(), 0);
    assert_eq!(data.crate_docs().items.len(), 1);
    let d = docs("k", vec![item("k", "a", "function", Some("does a"))]);
    let short: ProjectData<Vec<f32>> = build_project_data(d, |_t: &Vec<String>| Ok(vec![]));
    assert_eq!(short.embedded_count(), 0);
}

#[test]
fn scenario_single_item_query() {
    let mut store: IndexStore<Vec<f32>> = IndexStore::new();
    ingest(&mut store, "k", docs("k", vec![item("k", "hello", "function", Some("A test function"))]));
    let stored = stub_model(&vec![s("Crate: k, Item: hello, Type: function, Docs: A test function")])
        .unwrap()
        .remove(0);
    let q = vec![0.3f32, 2.0, -1.0];
    let results = query(&store, Some("k"), &q, 5);
    assert_eq!(results.len(), 1);
    assert_eq!(results[0].item_full_path, "k::hello");
    assert_eq!(results[0].project_path, "k");
    assert_eq!(results[0].item_type, "function");
    assert_eq!(results[0].description_snippet.as_deref(), Some("A test function"));
    assert_eq!(f32::from_bits(results[0].score_bits), cosine(&q, &stored));
}

#[test]
fn list_projects_before_and_after_ingestion() {
    let mut store: IndexStore<Vec<f32>> = IndexStore::new();
    assert!(store.list_projects().is_empty());
    ingest(&mut store, "p1", docs("p", vec![item("p", "x", "function", Some("doc"))]));
    assert_eq!(store.list_projects(), vec![s("p1")]);
    assert_eq!(store.len(), 1);
}

#[test]
fn query_on_unknown_project_is_empty() {
    let mut store: IndexStore<Vec<f32>> = IndexStore::new();
    ingest(&mut store, "p1", docs("p", vec![item("p", "x", "function", Some("doc"))]));
    let results = query(&store, Some("never"), &[1.0, 1.0, 1.0], 5);
    assert!(results.is_empty());
    assert_eq!(store.get(&s("never")).is_none(), true);
}

#[test]
fn upsert_last_write_wins() {
    let mut store: IndexStore<Vec<f32>> = IndexStore::new();
    ingest(&mut store, "p", docs("k", vec![item("k", "old", "function", Some("old doc"))]));
    ingest(&mut store, "p", docs("k", vec![item("k", "new", "function", Some("new doc"))]));
    assert_eq!(store.list_projects(), vec![s("p")]);
    let results = query(&store, None, &[1.0, 1.0, 1.0], 10);
    assert_eq!(results.len(), 1);
    assert_eq!(results[0].item_full_path, "k::new");
    let data = store.get(&s("p")).unwrap();
    assert!(data.crate_docs().get(&s("k::old")).is_none());
}

#[test]
fn k_truncation_and_order() {
    let mut store: IndexStore<Vec<f32>> = IndexStore::new();
    let items: Vec<DocItem> = (0..10)
        .map(|i| item("k", &format!("f{}", i), "function", Some(&"d".repeat(i + 1))))
        .collect();
    ingest(&mut store, "p", docs("k", items));
    assert_eq!(store.get(&s("p")).unwrap().embedded_count(), 10);
    let results = query(&store, Some("p"), &[0.0, 1.0, 0.0], 2);
    assert_eq!(results.len(), 2);
    let all = query(&store, None, &[0.0, 1.0, 0.0], 100);
    assert_eq!(all.len(), 10);
    for w in all.windows(2) {
        assert!(f32::from_bits(w[0].score_bits) >= f32::from_bits(w[1].score_bits));
    }
    assert_eq!(results[0].item_full_path, all[0].item_full_path);
    assert_eq!(query(&store, None, &[0.0, 1.0, 0.0], 0).len(), 0);
}

#[test]
fn queries_span_projects_in_store_order() {
    let mut store: IndexStore<Vec<f32>> = IndexStore::new();
    ingest(&mut store, "a", docs("ka", vec![item("ka", "x", "function", Some("same"))]));
    ingest(&mut store, "b", docs("kb", vec![item("kb", "x", "function", Some("same"))]));
    // Equal texts up to the crate name give equal stub vectors: the tie keeps store order.
    let results = query(&store, None, &[1.0, 0.0, 0.0], 5);
    assert_eq!(results.len(), 2);
    assert_eq!(results[0].project_path, "a");
    assert_eq!(results[1].project_path, "b");
}

#[test]
fn raw_documentation_lookup() {
    let mut store: IndexStore<Vec<f32>> = IndexStore::new();
    ingest(&mut store, "p", docs("k", vec![item("k", "f", "function", None)]));
    let found = store.raw_documentation(&s("p"), &s("k::f")).unwrap();
    assert_eq!(found.name, "f");
    assert!(matches!(
        store.raw_documentation(&s("q"), &s("k::f")),
        Err(LookupError::ProjectNotFound)
    ));
    assert!(matches!(
        store.raw_documentation(&s("p"), &s("k::g")),
        Err(LookupError::ItemNotFound)
    ));
}

#[test]
fn snippet_is_capped() {
    let long = "é".repeat(SNIPPET_CHARS + 20);
    let sn = snippet(&Some(long)).unwrap();
    assert_eq!(sn.chars().count(), SNIPPET_CHARS);
    assert_eq!(snippet(&Some(s("short"))), Some(s("short")));
    assert_eq!(snippet(&None), None);
}

#[test]
fn score_rank_follows_float_order() {
    let vals = [-1.0f32, -0.5, -0.0, 0.0, 0.25, 1.0];
    for w in vals.windows(2) {
        assert!(score_rank_of(w[0].to_bits()) <= score_rank_of(w[1].to_bits()));
    }
    assert_eq!(score_rank_of((-0.0f32).to_bits()), score_rank_of(0.0f32.to_bits()));
    assert!(score_rank_of((-0.5f32).to_bits()) < score_rank_of(0.1f32.to_bits()));
}

#[test]
fn top_k_is_stable_on_ties() {
    let scores: Vec<u32> = [0.5f32, 0.9, 0.5, 0.9, -0.2].iter().map(|x| x.to_bits()).collect();
    assert_eq!(top_k(&scores, 3), vec![1, 3, 0]);
    assert_eq!(top_k(&scores, 10), vec![1, 3, 0, 2, 4]);
    assert_eq!(top_k(&scores, 0), Vec::<usize>::new());
}
