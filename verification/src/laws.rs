//! Properties of the library that span several functions or all inputs.

use crate::page::combined_bounds;
use crate::page::first_line_at;
use crate::page::matching_bounds;
use crate::page::Stroke;
use crate::recognition::first_same_line;
use crate::recognition::greedy_decode;
use crate::recognition::key_leq;
use crate::recognition::lemma_same_strokes_iff_sorted_equal;
use crate::recognition::lemma_sorted_keys_sorted;
use crate::recognition::same_strokes;
use crate::recognition::sorted_keys;
use crate::recognition::vocabulary;
use crate::search::handwriting_hits;
use crate::search::search_hits;
use crate::search::search_hits_with;
use crate::search::typed_text_hits;
use crate::search::StoreEntry;
use crate::geometry::aabb_holds_point;
use crate::geometry::fold_merged;
use crate::geometry::merged_aabb;
use crate::text::all_ascii;
use crate::text::ascii_lower;
use crate::text::ascii_upper;
use crate::text::lemma_ascii_case_variants;
use crate::text::contains_seq;
use crate::text::is_blank;
use crate::text::lowercase;
use crate::text::matches_query;
use crate::text_line::StrokeKey;
use crate::text_line::TextLine;
use parry2d_f64::bounding_volume::Aabb;
use parry2d_f64::math::Vector2;
use vstd::prelude::*;

verus! {

// ----- Search -----

/// Searching recognized lines ignores case: two queries with the same
/// lowercase form find the same boxes.
pub proof fn law_search_text_ignores_case(lines: Seq<TextLine>, q1: Seq<char>, q2: Seq<char>)
    requires
        lowercase(q1) == lowercase(q2),
    ensures
        matching_bounds(lines, lowercase(q1)) == matching_bounds(lines, lowercase(q2)),
{
}

/// For an ASCII query, the store search, which goes by the query's
/// lowercase form and blankness, finds the same hits for the query, its
/// upper-case form and its lower-case form (each hit keeps its own text).
pub proof fn law_ascii_case_variants_search_alike(
    entries: Seq<StoreEntry>,
    lines: Seq<TextLine>,
    query: Seq<char>,
)
    requires
        all_ascii(query),
    ensures
        all_ascii(ascii_upper(query)),
        all_ascii(ascii_lower(query)),
        search_hits_with(entries, lines, ascii_upper(query), ascii_lower(ascii_upper(query)))
            == search_hits_with(entries, lines, query, ascii_lower(query)),
        search_hits_with(entries, lines, ascii_lower(query), ascii_lower(ascii_lower(query)))
            == search_hits_with(entries, lines, query, ascii_lower(query)),
        matching_bounds(lines, ascii_lower(ascii_upper(query))) == matching_bounds(
            lines,
            ascii_lower(query),
        ),
        matching_bounds(lines, ascii_lower(ascii_lower(query))) == matching_bounds(
            lines,
            ascii_lower(query),
        ),
{
    lemma_ascii_case_variants(query);
}

/// A blank query finds nothing in the store.
pub proof fn law_blank_query_finds_nothing(
    entries: Seq<StoreEntry>,
    lines: Seq<TextLine>,
    query: Seq<char>,
)
    requires
        is_blank(query),
    ensures
        search_hits(entries, lines, query).len() == 0,
{
}

proof fn lemma_typed_hits_match(entries: Seq<StoreEntry>, query_lower: Seq<char>)
    ensures
        forall|k: int|
            0 <= k < typed_text_hits(entries, query_lower).len() ==> contains_seq(
                lowercase((#[trigger] typed_text_hits(entries, query_lower)[k]).0),
                query_lower,
            ),
    decreases entries.len(),
{
    if entries.len() > 0 {
        let prev = typed_text_hits(entries.drop_last(), query_lower);
        let all = typed_text_hits(entries, query_lower);
        lemma_typed_hits_match(entries.drop_last(), query_lower);
        assert forall|k: int| 0 <= k < all.len() implies contains_seq(
            lowercase((#[trigger] all[k]).0),
            query_lower,
        ) by {
            if k < prev.len() {
                assert(all[k] == prev[k]);
            }
        }
    }
}

proof fn lemma_handwriting_hits_match(lines: Seq<TextLine>, query_lower: Seq<char>)
    ensures
        forall|k: int|
            0 <= k < handwriting_hits(lines, query_lower).len() ==> contains_seq(
                lowercase((#[trigger] handwriting_hits(lines, query_lower)[k]).0),
                query_lower,
            ),
    decreases lines.len(),
{
    if lines.len() > 0 {
        let prev = handwriting_hits(lines.drop_last(), query_lower);
        let all = handwriting_hits(lines, query_lower);
        lemma_handwriting_hits_match(lines.drop_last(), query_lower);
        assert forall|k: int| 0 <= k < all.len() implies contains_seq(
            lowercase((#[trigger] all[k]).0),
            query_lower,
        ) by {
            if k < prev.len() {
                assert(all[k] == prev[k]);
            }
        }
    }
}

/// Every hit of a store search has a text that matches the query.
pub proof fn law_search_hits_match_query(
    entries: Seq<StoreEntry>,
    lines: Seq<TextLine>,
    query: Seq<char>,
)
    ensures
        forall|k: int|
            0 <= k < search_hits(entries, lines, query).len() ==> matches_query(
                (#[trigger] search_hits(entries, lines, query)[k]).0,
                query,
            ),
{
    if !is_blank(query) {
        let q = lowercase(query);
        lemma_typed_hits_match(entries, q);
        lemma_handwriting_hits_match(lines, q);
        let t = typed_text_hits(entries, q);
        let h = handwriting_hits(lines, q);
        assert forall|k: int| 0 <= k < (t + h).len() implies matches_query(
            (#[trigger] (t + h)[k]).0,
            query,
        ) by {
            if k < t.len() {
                assert((t + h)[k] == t[k]);
            } else {
                assert((t + h)[k] == h[k - t.len()]);
            }
        }
    }
}

/// A line recorded with `Page::add_recognized_line` is found, last, by a
/// later `Page::search_text` for any query its text contains, with the box
/// the page computed for it.
pub proof fn law_added_line_found_by_search(
    strokes: Map<StrokeKey, Stroke>,
    lines: Seq<TextLine>,
    line: TextLine,
    keys: Seq<StrokeKey>,
    query: Seq<char>,
)
    requires
        combined_bounds(strokes, keys) is Some,
        line@ == (line.text@, keys, combined_bounds(strokes, keys)->0),
        matches_query(line.text@, query),
    ensures
        matching_bounds(lines.push(line), lowercase(query)) == matching_bounds(
            lines,
            lowercase(query),
        ).push(combined_bounds(strokes, keys)->0),
{
    assert(lines.push(line).drop_last() =~= lines);
}

/// `Page::get_text_at_point` finds the first line whose box holds the point:
/// that line holds it and no line before it does; when it finds nothing, no
/// line holds the point.
pub proof fn law_text_at_point_is_first_hit(lines: Seq<TextLine>, point: Vector2)
    ensures
        match first_line_at(lines, point) {
            Some(i) => {
                &&& 0 <= i < lines.len()
                &&& aabb_holds_point(lines[i].bounds, point)
                &&& forall|j: int| 0 <= j < i ==> !aabb_holds_point(#[trigger] lines[j].bounds, point)
            },
            None => forall|j: int|
                0 <= j < lines.len() ==> !aabb_holds_point(#[trigger] lines[j].bounds, point),
        },
    decreases lines.len(),
{
    if lines.len() > 0 {
        let prefix = lines.drop_last();
        law_text_at_point_is_first_hit(prefix, point);
        match first_line_at(prefix, point) {
            Some(i) => {
                assert(prefix[i] == lines[i]);
                assert forall|j: int| 0 <= j < i implies !aabb_holds_point(
                    #[trigger] lines[j].bounds,
                    point,
                ) by {
                    assert(prefix[j] == lines[j]);
                }
            },
            None => {
                assert forall|j: int| 0 <= j < prefix.len() implies !aabb_holds_point(
                    #[trigger] lines[j].bounds,
                    point,
                ) by {
                    assert(prefix[j] == lines[j]);
                }
            },
        }
    }
}

/// The page search and the store search agree on handwriting: for the same
/// recognized lines and query, the boxes the page finds are those of the
/// store's handwriting hits, in the same order.
pub proof fn law_page_and_store_agree(lines: Seq<TextLine>, query: Seq<char>)
    ensures
        handwriting_hits(lines, lowercase(query)).map_values(
            |h: (Seq<char>, Aabb, Seq<StrokeKey>)| h.1,
        ) == matching_bounds(lines, lowercase(query)),
    decreases lines.len(),
{
    let q = lowercase(query);
    if lines.len() > 0 {
        law_page_and_store_agree(lines.drop_last(), query);
        let prev = handwriting_hits(lines.drop_last(), q);
        let l = lines.last();
        if contains_seq(lowercase(l.text@), q) {
            assert(prev.push((l.text@, l.bounds, l.stroke_keys@)).map_values(
                |h: (Seq<char>, Aabb, Seq<StrokeKey>)| h.1,
            ) =~= prev.map_values(|h: (Seq<char>, Aabb, Seq<StrokeKey>)| h.1).push(l.bounds));
        }
    } else {
        assert(handwriting_hits(lines, q).map_values(|h: (Seq<char>, Aabb, Seq<StrokeKey>)| h.1)
            =~= Seq::<Aabb>::empty());
    }
}

// ----- Reuse of recognized lines -----

proof fn lemma_first_same_line_respects_same_strokes(
    lines: Seq<TextLine>,
    a: Seq<StrokeKey>,
    b: Seq<StrokeKey>,
)
    requires
        same_strokes(a, b),
    ensures
        first_same_line(lines, a) == first_same_line(lines, b),
    decreases lines.len(),
{
    if lines.len() > 0 {
        lemma_first_same_line_respects_same_strokes(lines.drop_last(), a, b);
    }
}

/// Whether a segmented line is reused, which line is reused, and the keys a
/// new line is recorded under do not depend on the order in which the
/// line's strokes were listed.
pub proof fn law_plan_ignores_stroke_order(
    existing: Seq<TextLine>,
    a: Seq<StrokeKey>,
    b: Seq<StrokeKey>,
)
    requires
        same_strokes(a, b),
    ensures
        first_same_line(existing, a) == first_same_line(existing, b),
        sorted_keys(a) == sorted_keys(b),
{
    lemma_first_same_line_respects_same_strokes(existing, a, b);
    lemma_same_strokes_iff_sorted_equal(a, b);
}

/// A line that is recognized anew is recorded under exactly its own
/// strokes, in ascending order.
pub proof fn law_new_line_keeps_its_strokes(keys: Seq<StrokeKey>)
    ensures
        same_strokes(sorted_keys(keys), keys),
        forall|i: int, j: int|
            0 <= i < j < sorted_keys(keys).len() ==> sorted_keys(keys)[i] <= sorted_keys(keys)[j],
{
    lemma_sorted_keys_sorted(keys);
    let s = sorted_keys(keys);
    assert forall|i: int, j: int| 0 <= i < j < s.len() implies s[i] <= s[j] by {
        assert((|a: StrokeKey, b: StrokeKey| key_leq(a, b))(s[i], s[j]));
    }
}

// ----- Greedy decoding -----

/// Decoding never produces more characters than there are time steps.
pub proof fn law_decode_not_longer(tokens: Seq<usize>, vocab: Seq<char>)
    ensures
        greedy_decode(tokens, vocab).len() <= tokens.len(),
    decreases tokens.len(),
{
    if tokens.len() > 0 {
        law_decode_not_longer(tokens.drop_last(), vocab);
    }
}

/// A token repeated at the next time step adds nothing.
pub proof fn law_decode_collapses_repeats(tokens: Seq<usize>, a: usize, vocab: Seq<char>)
    ensures
        greedy_decode(tokens.push(a).push(a), vocab) == greedy_decode(tokens.push(a), vocab),
{
    assert(tokens.push(a).push(a).drop_last() =~= tokens.push(a));
}

/// The blank token adds nothing.
pub proof fn law_decode_skips_blank(tokens: Seq<usize>, vocab: Seq<char>)
    ensures
        greedy_decode(tokens.push(0), vocab) == greedy_decode(tokens, vocab),
{
    assert(tokens.push(0).drop_last() =~= tokens);
}

/// A blank between two equal tokens keeps both: the character appears twice.
pub proof fn law_decode_blank_separates_repeats(tokens: Seq<usize>, a: usize, vocab: Seq<char>)
    requires
        a != 0,
        a < vocab.len(),
    ensures
        greedy_decode(tokens.push(a).push(0).push(a), vocab) == greedy_decode(
            tokens.push(a),
            vocab,
        ).push(vocab[a as int]),
{
    let t1 = tokens.push(a);
    let t2 = t1.push(0);
    let t3 = t2.push(a);
    assert(t3.drop_last() =~= t2);
    assert(t2.drop_last() =~= t1);
    assert(t3[t3.len() - 2] == 0);
    assert(greedy_decode(t2, vocab) == greedy_decode(t1, vocab));
    assert(greedy_decode(t3, vocab) == greedy_decode(t2, vocab).push(vocab[a as int]));
}

/// In the recognizer's alphabet only position 0 holds the blank symbol.
pub proof fn law_vocabulary_blank_only_at_zero()
    ensures
        vocabulary().len() == 100,
        vocabulary()[0] == '\0',
        forall|t: int| 1 <= t < vocabulary().len() ==> #[trigger] vocabulary()[t] != vocabulary()[0],
{
}

/// Decoding emits only characters of the alphabet other than the blank one,
/// so when the blank symbol appears nowhere else in the alphabet, the text
/// never contains it.
pub proof fn law_decode_never_emits_blank(tokens: Seq<usize>, vocab: Seq<char>)
    requires
        vocab.len() > 0,
        forall|t: int| 1 <= t < vocab.len() ==> #[trigger] vocab[t] != vocab[0],
    ensures
        !greedy_decode(tokens, vocab).contains(vocab[0]),
    decreases tokens.len(),
{
    if tokens.len() > 0 {
        law_decode_never_emits_blank(tokens.drop_last(), vocab);
    }
}

/// The text decoded from the recognizer's output never contains the blank
/// symbol `'\0'`.
pub proof fn law_decoded_text_has_no_blank(tokens: Seq<usize>)
    ensures
        !greedy_decode(tokens, vocabulary()).contains('\0'),
{
    law_vocabulary_blank_only_at_zero();
    law_decode_never_emits_blank(tokens, vocabulary());
}

// ----- Every match is found, each with its own data -----

/// The store search finds the typed-text hits first, then the handwriting
/// hits: searching a store equals searching its strokes alone followed by
/// searching its recognized lines alone.
pub proof fn law_store_search_splits(entries: Seq<StoreEntry>, lines: Seq<TextLine>, query: Seq<char>)
    ensures
        search_hits(entries, lines, query) == search_hits(entries, Seq::empty(), query)
            + search_hits(Seq::empty(), lines, query),
{
    let q = lowercase(query);
    assert(typed_text_hits(Seq::<StoreEntry>::empty(), q) =~= Seq::empty());
    assert(handwriting_hits(Seq::<TextLine>::empty(), q) =~= Seq::empty());
    if is_blank(query) {
        assert(search_hits(entries, lines, query) =~= Seq::<(Seq<char>, Aabb, Seq<StrokeKey>)>::empty()
            + Seq::empty());
    } else {
        assert(typed_text_hits(entries, q) + handwriting_hits(Seq::<TextLine>::empty(), q)
            =~= typed_text_hits(entries, q));
        assert(typed_text_hits(Seq::<StoreEntry>::empty(), q) + handwriting_hits(lines, q)
            =~= handwriting_hits(lines, q));
    }
}

/// Adding a stroke to the end of the store adds, for a non-blank query, one
/// hit at the end of the typed-text hits exactly when the stroke is typed
/// text, not in the trash, whose text contains the query ignoring case; the
/// hit is that stroke's own text, its own bounds and its key. The hits found
/// before are kept, whatever they were.
pub proof fn law_typed_stroke_appended(entries: Seq<StoreEntry>, e: StoreEntry, query: Seq<char>)
    requires
        !is_blank(query),
    ensures
        search_hits(entries.push(e), Seq::empty(), query) == match e.stroke {
            Stroke::TextStroke(t) => if e.trashed != Some(true) && contains_seq(
                lowercase(t.text@),
                lowercase(query),
            ) {
                search_hits(entries, Seq::empty(), query).push((t.text@, t.bounds, seq![e.key]))
            } else {
                search_hits(entries, Seq::empty(), query)
            },
            Stroke::Drawing(_) => search_hits(entries, Seq::empty(), query),
        },
{
    let q = lowercase(query);
    let empty = Seq::<TextLine>::empty();
    assert(handwriting_hits(empty, q) =~= Seq::empty());
    assert(entries.push(e).drop_last() =~= entries);
    assert(typed_text_hits(entries.push(e), q) + handwriting_hits(empty, q) =~= typed_text_hits(
        entries.push(e),
        q,
    ));
    assert(typed_text_hits(entries, q) + handwriting_hits(empty, q) =~= typed_text_hits(
        entries,
        q,
    ));
}

/// Adding a recognized line to the end adds, for a non-blank query, one hit
/// at the end exactly when the line's text contains the query ignoring case;
/// the hit is that line's own text, bounds and stroke keys. The hits found
/// before are kept.
pub proof fn law_recognized_line_appended(lines: Seq<TextLine>, l: TextLine, query: Seq<char>)
    requires
        !is_blank(query),
    ensures
        search_hits(Seq::empty(), lines.push(l), query) == if contains_seq(
            lowercase(l.text@),
            lowercase(query),
        ) {
            search_hits(Seq::empty(), lines, query).push((l.text@, l.bounds, l.stroke_keys@))
        } else {
            search_hits(Seq::empty(), lines, query)
        },
{
    let q = lowercase(query);
    let empty = Seq::<StoreEntry>::empty();
    assert(typed_text_hits(empty, q) =~= Seq::empty());
    assert(lines.push(l).drop_last() =~= lines);
    assert(typed_text_hits(empty, q) + handwriting_hits(lines.push(l), q) =~= handwriting_hits(
        lines.push(l),
        q,
    ));
    assert(typed_text_hits(empty, q) + handwriting_hits(lines, q) =~= handwriting_hits(lines, q));
}

/// The hit a stroke of the store gives for a lowercased query, if any: for
/// typed text not in the trash whose text contains the query, its own text,
/// bounds and key.
pub open spec fn entry_hit(e: StoreEntry, query_lower: Seq<char>) -> Option<
    (Seq<char>, Aabb, Seq<StrokeKey>),
> {
    match e.stroke {
        Stroke::TextStroke(t) => if e.trashed != Some(true) && contains_seq(
            lowercase(t.text@),
            query_lower,
        ) {
            Some((t.text@, t.bounds, seq![e.key]))
        } else {
            None
        },
        Stroke::Drawing(_) => None,
    }
}

proof fn lemma_typed_hits_complete(entries: Seq<StoreEntry>, q: Seq<char>)
    ensures
        forall|i: int|
            0 <= i < entries.len() && #[trigger] entry_hit(entries[i], q) is Some
                ==> typed_text_hits(entries, q).contains(entry_hit(entries[i], q)->0),
    decreases entries.len(),
{
    if entries.len() > 0 {
        let prefix = entries.drop_last();
        lemma_typed_hits_complete(prefix, q);
        let prev = typed_text_hits(prefix, q);
        let all = typed_text_hits(entries, q);
        assert forall|x: (Seq<char>, Aabb, Seq<StrokeKey>)| prev.contains(x) implies all.contains(
            x,
        ) by {
            let k = choose|k: int| 0 <= k < prev.len() && prev[k] == x;
            assert(all[k] == prev[k]);
        }
        assert forall|i: int|
            0 <= i < entries.len() && #[trigger] entry_hit(entries[i], q) is Some implies all.contains(
            entry_hit(entries[i], q)->0,
        ) by {
            if i < prefix.len() {
                assert(prefix[i] == entries[i]);
            } else {
                assert(all[prev.len() as int] == entry_hit(entries[i], q)->0);
            }
        }
    }
}

proof fn lemma_handwriting_hits_complete(lines: Seq<TextLine>, q: Seq<char>)
    ensures
        forall|i: int|
            0 <= i < lines.len() && contains_seq(lowercase((#[trigger] lines[i]).text@), q)
                ==> handwriting_hits(lines, q).contains(
                (lines[i].text@, lines[i].bounds, lines[i].stroke_keys@),
            ),
    decreases lines.len(),
{
    if lines.len() > 0 {
        let prefix = lines.drop_last();
        lemma_handwriting_hits_complete(prefix, q);
        let prev = handwriting_hits(prefix, q);
        let all = handwriting_hits(lines, q);
        assert forall|x: (Seq<char>, Aabb, Seq<StrokeKey>)| prev.contains(x) implies all.contains(
            x,
        ) by {
            let k = choose|k: int| 0 <= k < prev.len() && prev[k] == x;
            assert(all[k] == prev[k]);
        }
        assert forall|i: int|
            0 <= i < lines.len() && contains_seq(lowercase((#[trigger] lines[i]).text@), q)
                implies all.contains((lines[i].text@, lines[i].bounds, lines[i].stroke_keys@)) by {
            if i < prefix.len() {
                assert(prefix[i] == lines[i]);
            } else {
                assert(all[prev.len() as int] == (
                    lines[i].text@,
                    lines[i].bounds,
                    lines[i].stroke_keys@,
                ));
            }
        }
    }
}

/// For a non-blank query the store search misses nothing: every typed-text
/// stroke not in the trash whose text contains the query, ignoring case,
/// gives a hit with its own text, bounds and key, and every recognized line
/// whose text contains it gives a hit with its own text, bounds and keys.
pub proof fn law_store_search_finds_every_match(
    entries: Seq<StoreEntry>,
    lines: Seq<TextLine>,
    query: Seq<char>,
)
    requires
        !is_blank(query),
    ensures
        forall|i: int|
            0 <= i < entries.len() && #[trigger] entry_hit(entries[i], lowercase(query)) is Some
                ==> search_hits(entries, lines, query).contains(
                entry_hit(entries[i], lowercase(query))->0,
            ),
        forall|i: int|
            0 <= i < lines.len() && contains_seq(lowercase((#[trigger] lines[i]).text@), lowercase(query))
                ==> search_hits(entries, lines, query).contains(
                (lines[i].text@, lines[i].bounds, lines[i].stroke_keys@),
            ),
{
    let q = lowercase(query);
    lemma_typed_hits_complete(entries, q);
    lemma_handwriting_hits_complete(lines, q);
    let t = typed_text_hits(entries, q);
    let h = handwriting_hits(lines, q);
    assert forall|x: (Seq<char>, Aabb, Seq<StrokeKey>)| t.contains(x) implies (t + h).contains(x) by {
        let k = choose|k: int| 0 <= k < t.len() && t[k] == x;
        assert((t + h)[k] == t[k]);
    }
    assert forall|x: (Seq<char>, Aabb, Seq<StrokeKey>)| h.contains(x) implies (t + h).contains(x) by {
        let k = choose|k: int| 0 <= k < h.len() && h[k] == x;
        assert((t + h)[t.len() + k] == h[k]);
    }
}

/// Adding a recognized line to a page adds its box at the end of the boxes
/// that `Page::search_text` finds exactly when the line's text contains the
/// query ignoring case; the boxes found before are kept.
pub proof fn law_page_search_line_appended(lines: Seq<TextLine>, l: TextLine, query: Seq<char>)
    ensures
        matching_bounds(lines.push(l), lowercase(query)) == if contains_seq(
            lowercase(l.text@),
            lowercase(query),
        ) {
            matching_bounds(lines, lowercase(query)).push(l.bounds)
        } else {
            matching_bounds(lines, lowercase(query))
        },
{
    assert(lines.push(l).drop_last() =~= lines);
}

/// A text contains every run of characters placed anywhere in it, and a
/// text that contains a run is at least as long as the run.
pub proof fn law_contains_any_run(before: Seq<char>, run: Seq<char>, after: Seq<char>, hay: Seq<char>)
    ensures
        contains_seq(before + run + after, run),
        contains_seq(hay, run) ==> run.len() <= hay.len(),
{
    let h = before + run + after;
    assert(h.subrange(before.len() as int, (before.len() + run.len()) as int) =~= run);
    assert(crate::text::occurs_at(h, run, before.len() as int));
}

// ----- Boxes of recognized lines -----

/// The box recorded for a line merges in every key that names a stroke of
/// the page, in key order: one more key that names a stroke merges that
/// stroke's box into the box of the keys before it (or is the box, when no
/// key before it named a stroke); a key that names none changes nothing.
pub proof fn law_line_box_merges_each_stroke(
    strokes: Map<StrokeKey, Stroke>,
    keys: Seq<StrokeKey>,
    k: StrokeKey,
)
    ensures
        combined_bounds(strokes, keys.push(k)) == if strokes.contains_key(k) {
            Some(
                match combined_bounds(strokes, keys) {
                    Some(e) => merged_aabb(e, strokes[k].spec_bounds()),
                    None => strokes[k].spec_bounds(),
                },
            )
        } else {
            combined_bounds(strokes, keys)
        },
{
    assert(keys.push(k).drop_last() =~= keys);
}

/// A line gets a box exactly when at least one of its keys names a stroke of
/// the page; a single key naming a stroke gets that stroke's box.
pub proof fn law_line_box_exists_iff_known_stroke(strokes: Map<StrokeKey, Stroke>, keys: Seq<StrokeKey>)
    ensures
        combined_bounds(strokes, keys) is Some <==> exists|i: int|
            0 <= i < keys.len() && strokes.contains_key(#[trigger] keys[i]),
        keys.len() == 1 && strokes.contains_key(keys[0]) ==> combined_bounds(strokes, keys)
            == Some(strokes[keys[0]].spec_bounds()),
    decreases keys.len(),
{
    if keys.len() > 0 {
        let prefix = keys.drop_last();
        law_line_box_exists_iff_known_stroke(strokes, prefix);
        if combined_bounds(strokes, prefix) is Some {
            let i = choose|i: int| 0 <= i < prefix.len() && strokes.contains_key(#[trigger] prefix[i]);
            assert(keys[i] == prefix[i]);
        }
        if exists|i: int| 0 <= i < keys.len() && strokes.contains_key(#[trigger] keys[i]) {
            let i = choose|i: int| 0 <= i < keys.len() && strokes.contains_key(#[trigger] keys[i]);
            if i < prefix.len() {
                assert(prefix[i] == keys[i]);
            }
        }
        if keys.len() == 1 {
            assert(prefix =~= Seq::<StrokeKey>::empty());
        }
    }
}

/// Merging boxes into a start box folds in every box, in order: merging one
/// more box merges it into the result for the boxes before it, and merging
/// no box gives the start box.
pub proof fn law_merge_boxes_folds_each_box(start: Aabb, boxes: Seq<Aabb>, b: Aabb)
    ensures
        fold_merged(start, Seq::empty()) == start,
        fold_merged(start, boxes.push(b)) == merged_aabb(fold_merged(start, boxes), b),
        fold_merged(start, seq![b]) == merged_aabb(start, b),
{
    assert(boxes.push(b).drop_last() =~= boxes);
    assert(seq![b].drop_last() =~= Seq::<Aabb>::empty());
}

// ----- The decoding alphabet -----

/// The recognizer's alphabet, entry by entry by code point: the blank, `a`
/// to `z`, `ä ö ü ß`, `A` to `Z`, `Ä Ö Ü`, `0` to `9`, then
/// `. , : ; ! ? - " ( ) [ ] + * / \ = < > ^ _ % ° $ € @ # & §` and space.
pub proof fn law_vocabulary_table()
    ensures
        vocabulary().len() == 100,
        vocabulary()[0] as u32 == 0,
        forall|t: int| 1 <= t <= 26 ==> #[trigger] vocabulary()[t] as u32 == 96 + t,
        vocabulary()[27] as u32 == 0xe4,
        vocabulary()[28] as u32 == 0xf6,
        vocabulary()[29] as u32 == 0xfc,
        vocabulary()[30] as u32 == 0xdf,
        forall|t: int| 31 <= t <= 56 ==> #[trigger] vocabulary()[t] as u32 == 34 + t,
        vocabulary()[57] as u32 == 0xc4,
        vocabulary()[58] as u32 == 0xd6,
        vocabulary()[59] as u32 == 0xdc,
        forall|t: int| 60 <= t <= 69 ==> #[trigger] vocabulary()[t] as u32 == t - 12,
        vocabulary()[70] as u32 == 0x2e,
        vocabulary()[71] as u32 == 0x2c,
        vocabulary()[72] as u32 == 0x3a,
        vocabulary()[73] as u32 == 0x3b,
        vocabulary()[74] as u32 == 0x21,
        vocabulary()[75] as u32 == 0x3f,
        vocabulary()[76] as u32 == 0x2d,
        vocabulary()[77] as u32 == 0x22,
        vocabulary()[78] as u32 == 0x28,
        vocabulary()[79] as u32 == 0x29,
        vocabulary()[80] as u32 == 0x5b,
        vocabulary()[81] as u32 == 0x5d,
        vocabulary()[82] as u32 == 0x2b,
        vocabulary()[83] as u32 == 0x2a,
        vocabulary()[84] as u32 == 0x2f,
        vocabulary()[85] as u32 == 0x5c,
        vocabulary()[86] as u32 == 0x3d,
        vocabulary()[87] as u32 == 0x3c,
        vocabulary()[88] as u32 == 0x3e,
        vocabulary()[89] as u32 == 0x5e,
        vocabulary()[90] as u32 == 0x5f,
        vocabulary()[91] as u32 == 0x25,
        vocabulary()[92] as u32 == 0xb0,
        vocabulary()[93] as u32 == 0x24,
        vocabulary()[94] as u32 == 0x20ac,
        vocabulary()[95] as u32 == 0x40,
        vocabulary()[96] as u32 == 0x23,
        vocabulary()[97] as u32 == 0x26,
        vocabulary()[98] as u32 == 0xa7,
        vocabulary()[99] as u32 == 0x20,
{
}

/// Decoding adds, for one more time step with token `a`, the alphabet's
/// symbol for `a` exactly when `a` is not the blank, differs from the token
/// of the step before (if any) and lies in the alphabet.
pub proof fn law_decode_step(tokens: Seq<usize>, a: usize, vocab: Seq<char>)
    ensures
        greedy_decode(tokens.push(a), vocab) == if a != 0 && (tokens.len() == 0 || tokens.last()
            != a) && a < vocab.len() {
            greedy_decode(tokens, vocab).push(vocab[a as int])
        } else {
            greedy_decode(tokens, vocab)
        },
{
    assert(tokens.push(a).drop_last() =~= tokens);
}

/// A lower-case letter token after a blank decodes to that letter: token
/// `t` in `1..=26` is the letter with code point `96 + t` (`a` to `z`).
pub proof fn law_decode_letter_after_blank(tokens: Seq<usize>, t: usize)
    requires
        1 <= t <= 26,
    ensures
        greedy_decode(tokens.push(0).push(t), vocabulary()) == greedy_decode(tokens, vocabulary()).push(
            ((96 + t) as u32) as char,
        ),
{
    law_vocabulary_table();
    law_decode_step(tokens, 0, vocabulary());
    law_decode_step(tokens.push(0), t, vocabulary());
    assert(vocabulary()[t as int] as u32 == 96 + t);
}

} // verus!
