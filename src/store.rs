//! The store that holds the current index of each project, and the queries
//! over it.
use vstd::prelude::*;
use vstd::string::*;
use crate::catalog::{
    DocItem,
    DocItemView,
    key_position,
    lemma_strings_view_push,
    opt_string_view,
    strings_view,
};
use crate::project::{ProjectData, ProjectDataView};
use crate::ranking::{is_top_k, score_rank, top_k};

verus! {

/// The index of each project, by project identifier.
pub struct ProjectEntry<E> {
    id: String,
    data: ProjectData<E>,
}

/// The current index of each project, in the order in which the projects
/// were first added. An upsert replaces an entry in place, so no identifier
/// occurs twice (`ids_distinct`).
pub struct IndexStore<E> {
    projects: Vec<ProjectEntry<E>>,
}

impl<E> View for IndexStore<E> {
    type V = Seq<(Seq<char>, ProjectDataView<E>)>;

    closed spec fn view(&self) -> Seq<(Seq<char>, ProjectDataView<E>)> {
        self.projects@.map_values(|e: ProjectEntry<E>| (e.id@, e.data@))
    }
}

/// The position of project `id` in a store, or -1.
pub open spec fn id_position<E>(s: Seq<(Seq<char>, ProjectDataView<E>)>, id: Seq<char>) -> int
    decreases s.len(),
{
    if s.len() == 0 {
        -1
    } else if s.last().0 == id {
        s.len() - 1
    } else {
        id_position(s.drop_last(), id)
    }
}

/// The store with `data` as the index of project `id`: in place of its
/// earlier index, or added at the end.
pub open spec fn upserted<E>(
    s: Seq<(Seq<char>, ProjectDataView<E>)>,
    id: Seq<char>,
    data: ProjectDataView<E>,
) -> Seq<(Seq<char>, ProjectDataView<E>)> {
    let p = id_position(s, id);
    if p >= 0 {
        s.update(p, (id, data))
    } else {
        s.push((id, data))
    }
}

/// No identifier occurs twice.
pub open spec fn ids_distinct<E>(s: Seq<(Seq<char>, ProjectDataView<E>)>) -> bool {
    forall|i: int, j: int| 0 <= i < j < s.len() ==> s[i].0 != s[j].0
}

pub proof fn lemma_id_position<E>(s: Seq<(Seq<char>, ProjectDataView<E>)>, id: Seq<char>)
    ensures
        -1 <= id_position(s, id) < s.len(),
        id_position(s, id) >= 0 ==> s[id_position(s, id)].0 == id,
        forall|j: int| id_position(s, id) < j < s.len() ==> s[j].0 != id,
    decreases s.len(),
{
    if s.len() > 0 && s.last().0 != id {
        let d = s.drop_last();
        lemma_id_position(d, id);
        assert forall|j: int| id_position(s, id) < j < s.len() implies s[j].0 != id by {
            if j < s.len() - 1 {
                assert(s[j] == d[j]);
            }
        }
    }
}

/// The last position that holds `id` is the one that `id_position` gives.
pub proof fn lemma_id_position_at<E>(s: Seq<(Seq<char>, ProjectDataView<E>)>, id: Seq<char>, q: int)
    requires
        0 <= q < s.len(),
        s[q].0 == id,
        forall|j: int| q < j < s.len() ==> s[j].0 != id,
    ensures
        id_position(s, id) == q,
{
    lemma_id_position(s, id);
}

/// Upserting twice under one identifier leaves the store as upserting only
/// the second index would: the last write wins, and nothing of the first
/// remains.
pub proof fn lemma_upsert_last_write_wins<E>(
    s: Seq<(Seq<char>, ProjectDataView<E>)>,
    id: Seq<char>,
    first: ProjectDataView<E>,
    second: ProjectDataView<E>,
)
    ensures
        upserted(upserted(s, id, first), id, second) == upserted(s, id, second),
{
    lemma_id_position(s, id);
    let p = id_position(s, id);
    let s1 = upserted(s, id, first);
    if p >= 0 {
        lemma_id_position_at(s1, id, p);
        assert(s1.update(p, (id, second)) =~= s.update(p, (id, second)));
    } else {
        lemma_id_position_at(s1, id, s.len() as int);
        assert(s1.update(s.len() as int, (id, second)) =~= s.push((id, second)));
    }
}

/// Upserting keeps identifiers distinct.
pub proof fn lemma_upserted_distinct<E>(
    s: Seq<(Seq<char>, ProjectDataView<E>)>,
    id: Seq<char>,
    data: ProjectDataView<E>,
)
    requires
        ids_distinct(s),
    ensures
        ids_distinct(upserted(s, id, data)),
{
    lemma_id_position(s, id);
}

impl<E> IndexStore<E> {
    /// An empty store.
    pub fn new() -> (r: Self)
        ensures
            r@ == Seq::<(Seq<char>, ProjectDataView<E>)>::empty(),
            ids_distinct(r@),
    {
        let r = IndexStore { projects: Vec::new() };
        assert(r@ =~= Seq::<(Seq<char>, ProjectDataView<E>)>::empty());
        r
    }

    /// The number of projects.
    pub fn len(&self) -> (r: usize)
        ensures
            r == self@.len(),
    {
        self.projects.len()
    }

    /// The position of project `id`.
    fn position_of(&self, id: &String) -> (r: Option<usize>)
        ensures
            match r {
                Some(p) => p == id_position(self@, id@) && p < self@.len(),
                None => id_position(self@, id@) == -1,
            },
    {
        let mut found: Option<usize> = None;
        let mut i: usize = 0;
        while i < self.projects.len()
            invariant
                i <= self@.len(),
                self@.len() == self.projects@.len(),
                match found {
                    Some(j) => j < i && j == id_position(self@.subrange(0, i as int), id@),
                    None => id_position(self@.subrange(0, i as int), id@) == -1,
                },
            decreases self@.len() - i,
        {
            assert(self@.subrange(0, i + 1).drop_last() =~= self@.subrange(0, i as int));
            assert(self@[i as int].0 == self.projects@[i as int].id@);
            if self.projects[i].id == *id {
                found = Some(i);
            }
            i = i + 1;
        }
        assert(self@.subrange(0, self@.len() as int) =~= self@);
        found
    }

    /// Makes `data` the index of project `id`, replacing any earlier one
    /// wholesale.
    pub fn upsert(&mut self, id: String, data: ProjectData<E>)
        ensures
            final(self)@ == upserted(old(self)@, id@, data@),
            ids_distinct(old(self)@) ==> ids_distinct(final(self)@),
    {
        proof {
            if ids_distinct(self@) {
                lemma_upserted_distinct(self@, id@, data@);
            }
        }
        let pos = self.position_of(&id);
        let ghost entry = (id@, data@);
        match pos {
            Some(p) => {
                self.projects.set(p, ProjectEntry { id, data });
                assert(self@ =~= old(self)@.update(p as int, entry));
            },
            None => {
                self.projects.push(ProjectEntry { id, data });
                assert(self@ =~= old(self)@.push(entry));
            },
        }
    }

    /// The index of project `id`.
    pub fn get(&self, id: &String) -> (r: Option<&ProjectData<E>>)
        ensures
            match r {
                Some(d) => id_position(self@, id@) >= 0 && d@ == self@[id_position(self@, id@)].1,
                None => id_position(self@, id@) == -1,
            },
    {
        match self.position_of(id) {
            Some(p) => Some(&self.projects[p].data),
            None => None,
        }
    }

    /// The identifiers of the projects, in store order.
    pub fn list_projects(&self) -> (r: Vec<String>)
        ensures
            strings_view(r@) == self@.map_values(|e: (Seq<char>, ProjectDataView<E>)| e.0),
    {
        let mut r: Vec<String> = Vec::new();
        let mut i: usize = 0;
        while i < self.projects.len()
            invariant
                i <= self@.len(),
                self@.len() == self.projects@.len(),
                strings_view(r@) == self@.subrange(0, i as int).map_values(
                    |e: (Seq<char>, ProjectDataView<E>)| e.0,
                ),
            decreases self@.len() - i,
        {
            let ghost old_r = r@;
            let id = self.projects[i].id.clone();
            assert(self@[i as int].0 == id@);
            r.push(id);
            proof {
                lemma_strings_view_push(old_r, id);
            }
            assert(strings_view(r@) =~= self@.subrange(0, i + 1).map_values(
                |e: (Seq<char>, ProjectDataView<E>)| e.0,
            ));
            i = i + 1;
        }
        assert(self@.subrange(0, self@.len() as int) =~= self@);
        r
    }
}

/// The most characters of a description that a query result carries.
pub const SNIPPET_CHARS: usize = 300;

/// A candidate of a query: an embedded item of a project in scope.
pub struct CandidateView<E> {
    pub project: Seq<char>,
    pub full_path: Seq<char>,
    pub vector: E,
    pub item: DocItemView,
}

/// Whether a project is in a query's scope: every project where no filter is
/// given, else the one it names.
pub open spec fn in_scope(filter: Option<Seq<char>>, id: Seq<char>) -> bool {
    match filter {
        None => true,
        Some(f) => f == id,
    }
}

pub open spec fn project_candidates<E>(id: Seq<char>, d: ProjectDataView<E>) -> Seq<
    CandidateView<E>,
> {
    d.embeddings.map_values(
        |e: (Seq<char>, E)|
            CandidateView {
                project: id,
                full_path: e.0,
                vector: e.1,
                item: d.crate_docs.items[key_position(d.crate_docs.items, e.0)],
            },
    )
}

/// The candidates of a query, project by project in store order, each
/// project's in the order of its embeddings.
pub open spec fn candidates<E>(
    s: Seq<(Seq<char>, ProjectDataView<E>)>,
    filter: Option<Seq<char>>,
) -> Seq<CandidateView<E>>
    decreases s.len(),
{
    if s.len() == 0 {
        Seq::empty()
    } else {
        let before = candidates(s.drop_last(), filter);
        if in_scope(filter, s.last().0) {
            before + project_candidates(s.last().0, s.last().1)
        } else {
            before
        }
    }
}

/// A query filtered on a project that the store does not hold has no
/// candidates.
pub proof fn lemma_unknown_project_no_candidates<E>(
    s: Seq<(Seq<char>, ProjectDataView<E>)>,
    id: Seq<char>,
)
    requires
        id_position(s, id) == -1,
    ensures
        candidates(s, Some(id)).len() == 0,
    decreases s.len(),
{
    if s.len() > 0 {
        lemma_unknown_project_no_candidates(s.drop_last(), id);
    }
}

pub open spec fn snippet_of(description: Option<Seq<char>>) -> Option<Seq<char>> {
    match description {
        Some(t) => Some(
            t.subrange(0, if t.len() < SNIPPET_CHARS { t.len() as int } else { SNIPPET_CHARS as int }),
        ),
        None => None,
    }
}

/// The first characters of a description, at most `SNIPPET_CHARS` of them.
pub fn snippet(description: &Option<String>) -> (r: Option<String>)
    ensures
        opt_string_view(r) == snippet_of(opt_string_view(*description)),
{
    match description {
        Some(t) => {
            let len = t.as_str().unicode_len();
            let end = if len < SNIPPET_CHARS {
                len
            } else {
                SNIPPET_CHARS
            };
            Some(String::from_str(t.as_str().substring_char(0, end)))
        },
        None => None,
    }
}

/// One result of a query. The score is a single-precision number, given as
/// its bits.
pub struct QueryDocResultItem {
    pub project_path: String,
    pub item_full_path: String,
    pub item_type: String,
    pub description_snippet: Option<String>,
    pub score_bits: u32,
}

/// A result stands for a candidate with the given score.
pub open spec fn result_of<E>(r: QueryDocResultItem, c: CandidateView<E>, score: u32) -> bool {
    &&& r.project_path@ == c.project
    &&& r.item_full_path@ == c.full_path
    &&& r.item_type@ == c.item.item_type
    &&& opt_string_view(r.description_snippet) == snippet_of(c.item.description)
    &&& r.score_bits == score
}

/// Why a lookup in the store failed.
#[derive(Debug, Clone, Copy, PartialEq, Eq, Structural)]
pub enum LookupError {
    ProjectNotFound,
    ItemNotFound,
}

/// The candidate at a (project, embedding) position of a store.
pub open spec fn candidate_at<E>(s: Seq<(Seq<char>, ProjectDataView<E>)>, pos: (usize, usize)) -> CandidateView<E> {
    project_candidates(s[pos.0 as int].0, s[pos.0 as int].1)[pos.1 as int]
}

pub open spec fn position_valid<E>(s: Seq<(Seq<char>, ProjectDataView<E>)>, pos: (usize, usize)) -> bool {
    pos.0 < s.len() && pos.1 < s[pos.0 as int].1.embeddings.len()
}

impl<E> IndexStore<E> {
    proof fn lemma_entry_view(&self, p: int)
        requires
            0 <= p < self.projects@.len(),
        ensures
            self@[p] == (self.projects@[p].id@, self.projects@[p].data@),
            self@.len() == self.projects@.len(),
    {
    }

    /// The (project, embedding) position of each candidate of a query, in
    /// candidate order.
    fn candidate_positions(&self, filter: &Option<String>) -> (r: Vec<(usize, usize)>)
        ensures
            r@.len() == candidates(self@, opt_string_view(*filter)).len(),
            forall|i: int|
                0 <= i < r@.len() ==> position_valid(self@, #[trigger] r@[i]) && candidates(
                    self@,
                    opt_string_view(*filter),
                )[i] == candidate_at(self@, r@[i]),
    {
        let ghost fv = opt_string_view(*filter);
        let mut r: Vec<(usize, usize)> = Vec::new();
        let mut p: usize = 0;
        while p < self.projects.len()
            invariant
                self@.len() == self.projects@.len(),
                p <= self@.len(),
                fv == opt_string_view(*filter),
                r@.len() == candidates(self@.subrange(0, p as int), fv).len(),
                forall|i: int|
                    0 <= i < r@.len() ==> position_valid(self@, #[trigger] r@[i]) && candidates(
                        self@.subrange(0, p as int),
                        fv,
                    )[i] == candidate_at(self@, r@[i]),
            decreases self@.len() - p,
        {
            let ghost sub = self@.subrange(0, p + 1);
            let ghost before = candidates(self@.subrange(0, p as int), fv);
            assert(sub.drop_last() =~= self@.subrange(0, p as int));
            proof {
                self.lemma_entry_view(p as int);
            }
            let entry = &self.projects[p];
            let inside = match filter {
                None => true,
                Some(f) => *f == entry.id,
            };
            if inside {
                let ghost pcs = project_candidates(self@[p as int].0, self@[p as int].1);
                assert(candidates(sub, fv) == before + pcs);
                let n = entry.data.embeddings().len();
                let mut e: usize = 0;
                while e < n
                    invariant
                        self@.len() == self.projects@.len(),
                        p < self@.len(),
                        n == self@[p as int].1.embeddings.len(),
                        pcs == project_candidates(self@[p as int].0, self@[p as int].1),
                        pcs.len() == n,
                        e <= n,
                        r@.len() == before.len() + e,
                        forall|i: int|
                            0 <= i < r@.len() ==> position_valid(self@, #[trigger] r@[i]) && (before
                                + pcs)[i] == candidate_at(self@, r@[i]),
                    decreases n - e,
                {
                    let ghost old_r = r@;
                    r.push((p, e));
                    assert forall|i: int| 0 <= i < r@.len() implies position_valid(
                        self@,
                        #[trigger] r@[i],
                    ) && (before + pcs)[i] == candidate_at(self@, r@[i]) by {
                        if i < old_r.len() {
                            assert(r@[i] == old_r[i]);
                        } else {
                            assert(r@[i] == (p, e));
                            assert((before + pcs)[i] == pcs[e as int]);
                        }
                    }
                    e = e + 1;
                }
            } else {
                assert(candidates(sub, fv) == before);
            }
            p = p + 1;
        }
        assert(self@.subrange(0, self@.len() as int) =~= self@);
        r
    }

    /// The vector of each candidate of a query, in candidate order: every
    /// embedded item of the projects in scope.
    pub fn embeddings_in_scope(&self, filter: &Option<String>) -> (r: Vec<&E>)
        ensures
            r@.len() == candidates(self@, opt_string_view(*filter)).len(),
            forall|i: int|
                0 <= i < r@.len() ==> *r@[i] == candidates(
                    self@,
                    opt_string_view(*filter),
                )[i].vector,
    {
        let positions = self.candidate_positions(filter);
        let mut r: Vec<&E> = Vec::new();
        let mut i: usize = 0;
        while i < positions.len()
            invariant
                i <= positions@.len(),
                r@.len() == i,
                forall|j: int|
                    0 <= j < positions@.len() ==> position_valid(self@, #[trigger] positions@[j])
                        && candidates(self@, opt_string_view(*filter))[j]
                        == candidate_at(self@, positions@[j]),
                forall|j: int|
                    0 <= j < i ==> *r@[j] == candidates(
                        self@,
                        opt_string_view(*filter),
                    )[j].vector,
            decreases positions@.len() - i,
        {
            let (p, e) = positions[i];
            assert(position_valid(self@, positions@[i as int]));
            proof {
                self.lemma_entry_view(p as int);
            }
            let item = &self.projects[p].data.embeddings()[e];
            r.push(&item.vector);
            i = i + 1;
        }
        r
    }

    /// The results of a query whose candidates (see `embeddings_in_scope`)
    /// got the scores `scores`, in that order: the `k` best, best first,
    /// equal scores in candidate order.
    pub fn query_results(&self, filter: &Option<String>, scores: &Vec<u32>, k: usize) -> (r: Vec<
        QueryDocResultItem,
    >)
        requires
            scores@.len() == candidates(self@, opt_string_view(*filter)).len(),
        ensures
            exists|sel: Seq<usize>|
                is_top_k(scores@, k as nat, sel) && r@.len() == sel.len() && forall|i: int|
                    0 <= i < sel.len() ==> result_of(
                        #[trigger] r@[i],
                        candidates(self@, opt_string_view(*filter))[sel[i] as int],
                        scores@[sel[i] as int],
                    ),
            forall|i: int, j: int|
                0 <= i < j < r@.len() ==> score_rank(r@[i].score_bits) >= score_rank(
                    r@[j].score_bits,
                ),
            r@.len() <= k,
            (filter matches Some(f) && id_position(self@, f@) == -1) ==> r@.len() == 0,
    {
        let ghost fv = opt_string_view(*filter);
        let ghost cands = candidates(self@, fv);
        let positions = self.candidate_positions(filter);
        let sel = top_k(scores, k);
        let mut r: Vec<QueryDocResultItem> = Vec::new();
        let mut i: usize = 0;
        while i < sel.len()
            invariant
                fv == opt_string_view(*filter),
                cands == candidates(self@, fv),
                is_top_k(scores@, k as nat, sel@),
                positions@.len() == cands.len() == scores@.len(),
                forall|j: int|
                    0 <= j < positions@.len() ==> position_valid(self@, #[trigger] positions@[j])
                        && cands[j] == candidate_at(self@, positions@[j]),
                i <= sel@.len(),
                r@.len() == i,
                forall|j: int|
                    0 <= j < i ==> result_of(
                        #[trigger] r@[j],
                        cands[sel@[j] as int],
                        scores@[sel@[j] as int],
                    ),
            decreases sel@.len() - i,
        {
            let c = sel[i];
            let (p, e) = positions[c];
            assert(position_valid(self@, positions@[c as int]));
            proof {
                self.lemma_entry_view(p as int);
            }
            let entry = &self.projects[p];
            let docs = entry.data.crate_docs();
            let embedded = &entry.data.embeddings()[e];
            let ghost d = self@[p as int].1;
            assert(d.embeddings[e as int] == (embedded.full_path@, embedded.vector));
            assert(key_position(d.crate_docs.items, d.embeddings[e as int].0) >= 0);
            let found = docs.get(&embedded.full_path);
            match found {
                Some(item) => {
                    let result = QueryDocResultItem {
                        project_path: entry.id.clone(),
                        item_full_path: embedded.full_path.clone(),
                        item_type: item.item_type.clone(),
                        description_snippet: snippet(&item.description),
                        score_bits: scores[c],
                    };
                    r.push(result);
                },
                None => {
                    assert(false);
                },
            }
            i = i + 1;
        }
        proof {
            assert forall|a: int, b: int| 0 <= a < b < r@.len() implies score_rank(
                r@[a].score_bits,
            ) >= score_rank(r@[b].score_bits) by {
                assert(result_of(r@[a], cands[sel@[a] as int], scores@[sel@[a] as int]));
                assert(result_of(r@[b], cands[sel@[b] as int], scores@[sel@[b] as int]));
                assert(crate::ranking::beats(scores@, sel@[a] as int, sel@[b] as int));
            }
            if filter is Some && id_position(self@, filter->Some_0@) == -1 {
                lemma_unknown_project_no_candidates(self@, filter->Some_0@);
            }
        }
        r
    }

    /// The catalog item under full path `item_path` in project `project`.
    pub fn raw_documentation(&self, project: &String, item_path: &String) -> (r: Result<
        &DocItem,
        LookupError,
    >)
        ensures
            id_position(self@, project@) == -1 ==> r == Err::<&DocItem, LookupError>(
                LookupError::ProjectNotFound,
            ),
            id_position(self@, project@) >= 0 ==> {
                let items = self@[id_position(self@, project@)].1.crate_docs.items;
                &&& key_position(items, item_path@) == -1 ==> r == Err::<&DocItem, LookupError>(
                    LookupError::ItemNotFound,
                )
                &&& key_position(items, item_path@) >= 0 ==> r is Ok && r->Ok_0@
                    == items[key_position(items, item_path@)]
            },
    {
        match self.get(project) {
            None => Err(LookupError::ProjectNotFound),
            Some(data) => match data.crate_docs().get(item_path) {
                Some(item) => Ok(item),
                None => Err(LookupError::ItemNotFound),
            },
        }
    }
}

} // verus!
