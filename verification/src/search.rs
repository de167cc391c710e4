//! Document-wide search over typed text strokes and recognized handwriting.

use crate::page::Stroke;
use crate::text::all_ascii;
use crate::text::ascii_lower;
use crate::text::contains_seq;
use crate::text::is_blank;
use crate::text::is_blank_str;
use crate::text::lowercase;
use crate::text::lowercase_chars;
use crate::text::text_matches_lowered;
use crate::text_line::StrokeKey;
use crate::text_line::TextLine;
use parry2d_f64::bounding_volume::Aabb;
use vstd::prelude::*;

verus! {

/// One hit of a document search: the matching text, where it is and the
/// strokes it belongs to.
#[derive(Debug)]
pub struct SearchResult {
    pub text: String,
    pub bounds: Aabb,
    pub stroke_keys: Vec<StrokeKey>,
}

impl View for SearchResult {
    type V = (Seq<char>, Aabb, Seq<StrokeKey>);

    open spec fn view(&self) -> (Seq<char>, Aabb, Seq<StrokeKey>) {
        (self.text@, self.bounds, self.stroke_keys@)
    }
}

impl Clone for SearchResult {
    fn clone(&self) -> (r: Self)
        ensures
            r@ == self@,
    {
        let keys = self.stroke_keys.clone();
        assert(keys@ =~= self.stroke_keys@);
        SearchResult { text: self.text.clone(), bounds: self.bounds, stroke_keys: keys }
    }
}

/// A stroke of the store, with its key and whether it is in the trash
/// (`None` when the store keeps no trash state for it).
#[derive(Debug)]
pub struct StoreEntry {
    pub key: StrokeKey,
    pub stroke: Stroke,
    pub trashed: Option<bool>,
}

/// The strokes of a document, in the store's order, and the handwriting
/// recognized in it.
#[derive(Debug)]
pub struct StrokeStore {
    pub stroke_components: Vec<StoreEntry>,
    pub recognized_text: Vec<TextLine>,
}

/// The views of a sequence of search results.
pub open spec fn result_views(results: Seq<SearchResult>) -> Seq<(Seq<char>, Aabb, Seq<StrokeKey>)> {
    results.map_values(|r: SearchResult| r@)
}

/// Whether a stroke of the store is typed text, not in the trash, whose text
/// matches the lowercased query.
pub open spec fn typed_text_hit(e: StoreEntry, query_lower: Seq<char>) -> bool {
    &&& e.trashed != Some(true)
    &&& e.stroke matches Stroke::TextStroke(t)
    &&& contains_seq(lowercase(t.text@), query_lower)
}

/// The hits among the store's typed text strokes, in the store's order.
pub open spec fn typed_text_hits(entries: Seq<StoreEntry>, query_lower: Seq<char>) -> Seq<
    (Seq<char>, Aabb, Seq<StrokeKey>),
>
    decreases entries.len(),
{
    if entries.len() == 0 {
        Seq::empty()
    } else {
        let prev = typed_text_hits(entries.drop_last(), query_lower);
        let e = entries.last();
        if typed_text_hit(e, query_lower) {
            match e.stroke {
                Stroke::TextStroke(t) => prev.push((t.text@, t.bounds, seq![e.key])),
                Stroke::Drawing(_) => prev,
            }
        } else {
            prev
        }
    }
}

/// The hits among the recognized lines, in their order.
pub open spec fn handwriting_hits(lines: Seq<TextLine>, query_lower: Seq<char>) -> Seq<
    (Seq<char>, Aabb, Seq<StrokeKey>),
>
    decreases lines.len(),
{
    if lines.len() == 0 {
        Seq::empty()
    } else {
        let prev = handwriting_hits(lines.drop_last(), query_lower);
        let l = lines.last();
        if contains_seq(lowercase(l.text@), query_lower) {
            prev.push((l.text@, l.bounds, l.stroke_keys@))
        } else {
            prev
        }
    }
}

/// What a search for `query`, lowercased to `query_lower`, finds: nothing
/// for a blank query, else the typed text hits followed by the handwriting
/// hits.
pub open spec fn search_hits_with(
    entries: Seq<StoreEntry>,
    lines: Seq<TextLine>,
    query: Seq<char>,
    query_lower: Seq<char>,
) -> Seq<(Seq<char>, Aabb, Seq<StrokeKey>)> {
    if is_blank(query) {
        Seq::empty()
    } else {
        typed_text_hits(entries, query_lower) + handwriting_hits(lines, query_lower)
    }
}

/// What a search for `query` finds.
pub open spec fn search_hits(
    entries: Seq<StoreEntry>,
    lines: Seq<TextLine>,
    query: Seq<char>,
) -> Seq<(Seq<char>, Aabb, Seq<StrokeKey>)> {
    search_hits_with(entries, lines, query, lowercase(query))
}

impl StrokeStore {
    /// Searches the typed text strokes that are not trashed, then the
    /// recognized handwriting, for `query`, ignoring case. A blank query
    /// finds nothing.
    pub fn search(&self, query: &str) -> (r: Vec<SearchResult>)
        ensures
            result_views(r@) == search_hits(
                self.stroke_components@,
                self.recognized_text@,
                query@,
            ),
            all_ascii(query@) ==> result_views(r@) == search_hits_with(
                self.stroke_components@,
                self.recognized_text@,
                query@,
                ascii_lower(query@),
            ),
    {
        let query_lower = lowercase_chars(query);
        let mut results: Vec<SearchResult> = Vec::new();
        if is_blank_str(query) {
            assert(result_views(results@) =~= Seq::empty());
            return results;
        }
        let n = self.stroke_components.len();
        let mut i: usize = 0;
        while i < n
            invariant
                n == self.stroke_components@.len(),
                i <= n,
                query_lower@ == lowercase(query@),
                result_views(results@) == typed_text_hits(
                    self.stroke_components@.take(i as int),
                    query_lower@,
                ),
            decreases n - i,
        {
            assert(self.stroke_components@.take(i + 1).drop_last()
                =~= self.stroke_components@.take(i as int));
            let entry = &self.stroke_components[i];
            assert(self.stroke_components@.take(i + 1).last() == *entry);
            let trashed = match entry.trashed {
                Some(t) => t,
                None => false,
            };
            if !trashed {
                if let Stroke::TextStroke(text_stroke) = &entry.stroke {
                    if text_matches_lowered(text_stroke.text.as_str(), &query_lower) {
                        let ghost before = results@;
                        let keys = vec![entry.key];
                        assert(keys@ =~= seq![entry.key]);
                        results.push(
                            SearchResult {
                                text: text_stroke.text.clone(),
                                bounds: entry.stroke.bounds(),
                                stroke_keys: keys,
                            },
                        );
                        assert(result_views(results@) =~= result_views(before).push(
                            results@.last()@,
                        ));
                    }
                }
            }
            i = i + 1;
        }
        assert(self.stroke_components@.take(n as int) =~= self.stroke_components@);
        let ghost typed = results@;
        let m = self.recognized_text.len();
        let mut j: usize = 0;
        while j < m
            invariant
                m == self.recognized_text@.len(),
                j <= m,
                query_lower@ == lowercase(query@),
                typed.len() <= results@.len(),
                results@.subrange(0, typed.len() as int) == typed,
                result_views(typed) == typed_text_hits(self.stroke_components@, query_lower@),
                result_views(results@.subrange(typed.len() as int, results@.len() as int))
                    == handwriting_hits(self.recognized_text@.take(j as int), query_lower@),
            decreases m - j,
        {
            assert(self.recognized_text@.take(j + 1).drop_last() =~= self.recognized_text@.take(
                j as int,
            ));
            let line = &self.recognized_text[j];
            if text_matches_lowered(line.text.as_str(), &query_lower) {
                let ghost before = results@;
                let keys = line.stroke_keys.clone();
                assert(keys@ =~= line.stroke_keys@);
                results.push(
                    SearchResult { text: line.text.clone(), bounds: line.bounds, stroke_keys: keys },
                );
                assert(results@.subrange(0, typed.len() as int) =~= before.subrange(
                    0,
                    typed.len() as int,
                ));
                assert(result_views(results@.subrange(typed.len() as int, results@.len() as int))
                    =~= result_views(before.subrange(typed.len() as int, before.len() as int)).push(
                    results@.last()@,
                ));
            }
            j = j + 1;
        }
        assert(self.recognized_text@.take(m as int) =~= self.recognized_text@);
        assert(results@ =~= results@.subrange(0, typed.len() as int) + results@.subrange(
            typed.len() as int,
            results@.len() as int,
        ));
        assert(result_views(results@) =~= result_views(results@.subrange(0, typed.len() as int))
            + result_views(results@.subrange(typed.len() as int, results@.len() as int)));
        results
    }
}

} // verus!
