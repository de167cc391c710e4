//! What the search panel shows for a query: a prompt, a "no results" notice
//! or the list of result snippets.

use crate::search::SearchResult;
use crate::text::is_blank;
use crate::text::is_blank_str;
use vstd::prelude::*;

verus! {

/// The content of the search panel after a search.
#[derive(Debug)]
pub enum SearchPanelContent {
    /// The query is blank: the panel asks the user to start typing.
    Prompt,
    /// The query found nothing.
    NoResults,
    /// One row per result, titled with the result's text, in order.
    Results(Vec<String>),
    /// There is no document to search: the result list is emptied and the
    /// rest of the panel is left as it was.
    Unchanged,
}

/// The texts of the results, in order.
pub open spec fn result_texts(results: Seq<SearchResult>) -> Seq<Seq<char>> {
    results.map_values(|r: SearchResult| r.text@)
}

/// The views of a list of strings.
pub open spec fn string_views(titles: Seq<String>) -> Seq<Seq<char>> {
    titles.map_values(|t: String| t@)
}

/// What the panel shows for `query`, given the results of searching the
/// active document (`None` when no document is open).
pub fn search_panel_content(query: &str, results: Option<&Vec<SearchResult>>) -> (c:
    SearchPanelContent)
    ensures
        is_blank(query@) ==> c is Prompt,
        !is_blank(query@) ==> match results {
            None => c is Unchanged,
            Some(rs) => if rs@.len() == 0 {
                c is NoResults
            } else {
                c matches SearchPanelContent::Results(titles) && string_views(titles@)
                    == result_texts(rs@)
            },
        },
{
    if is_blank_str(query) {
        return SearchPanelContent::Prompt;
    }
    match results {
        None => SearchPanelContent::Unchanged,
        Some(rs) => {
            if rs.len() == 0 {
                SearchPanelContent::NoResults
            } else {
                let mut titles: Vec<String> = Vec::new();
                let n = rs.len();
                let mut i: usize = 0;
                while i < n
                    invariant
                        n == rs@.len(),
                        i <= n,
                        string_views(titles@) == result_texts(rs@.take(i as int)),
                    decreases n - i,
                {
                    let ghost before = titles@;
                    titles.push(rs[i].text.clone());
                    assert(string_views(titles@) =~= string_views(before).push(rs@[i as int].text@));
                    assert(result_texts(rs@.take(i + 1)) =~= result_texts(rs@.take(i as int)).push(
                        rs@[i as int].text@,
                    ));
                    i = i + 1;
                }
                assert(rs@.take(n as int) =~= rs@);
                SearchPanelContent::Results(titles)
            }
        },
    }
}

} // verus!
