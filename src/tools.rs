//! The parameters of the three operations that the index offers its callers,
//! and the small rules that go with them.
use vstd::prelude::*;

verus! {

/// Ingest the project at `path`.
pub struct ProcessRustProjectTool {
    /// Path of the project directory, the one that holds its manifest.
    pub path: String,
}

/// Query the ingested documentation in natural language.
pub struct QueryDocumentationTool {
    pub natural_language_query: String,
    /// The one project to search; all of them where absent.
    pub project_path: Option<String>,
    /// How many results to return; `default_num_results` where absent.
    pub num_results: Option<usize>,
}

/// Fetch the catalog entry of one item of an ingested project.
pub struct GetRawDocumentationTool {
    /// The item's full path, e.g. `my_crate::module::MyStruct`.
    pub item_path: String,
    pub project_path: String,
}

/// The number of results that a query returns where it names none.
pub fn default_num_results() -> (r: Option<usize>)
    ensures
        r == Some(5usize),
{
    Some(5)
}

impl QueryDocumentationTool {
    /// The number of results asked for: the one given, else the default.
    pub fn result_count(&self) -> (r: usize)
        ensures
            r == match self.num_results {
                Some(n) => n,
                None => 5,
            },
    {
        match self.num_results {
            Some(n) => n,
            None => match default_num_results() {
                Some(d) => d,
                None => 5,
            },
        }
    }
}

/// A name with each `-` turned into `_`.
pub open spec fn underscored(s: Seq<char>) -> Seq<char> {
    s.map_values(|c: char| if c == '-' { '_' } else { c })
}

/// Relies on str::replace: every `-` is replaced by `_`, and nothing else
/// changes.
#[verifier::external_body]
fn replace_hyphens(s: &str) -> (r: String)
    ensures
        r@ == underscored(s@),
{
    s.replace('-', "_")
}

/// The name under which the documentation tool writes a crate's output: the
/// package name from the manifest where it has one, else the name of the
/// project directory, with each `-` turned into `_`.
pub fn rustdoc_crate_name(package_name: &Option<String>, dir_name: &String) -> (r: String)
    ensures
        r@ == underscored(
            match package_name {
                Some(n) => n@,
                None => dir_name@,
            },
        ),
{
    match package_name {
        Some(n) => replace_hyphens(n.as_str()),
        None => replace_hyphens(dir_name.as_str()),
    }
}

} // verus!
