//! A page of the document: its strokes by key and the lines of handwriting
//! recognized on it, with lookups by text and by position.

use crate::geometry::aabb_contains_point;
use crate::geometry::aabb_holds_point;
use crate::geometry::aabb_merged;
use crate::geometry::merged_aabb;
use crate::text::all_ascii;
use crate::text::ascii_lower;
use crate::text::contains_seq;
use crate::text::lowercase;
use crate::text::lowercase_chars;
use crate::text::text_matches_lowered;
use crate::text_line::StrokeKey;
use crate::text_line::TextLine;
use parry2d_f64::bounding_volume::Aabb;
use parry2d_f64::math::Vector2;
use std::collections::HashMap;
use vstd::prelude::*;

verus! {

broadcast use vstd::std_specs::hash::group_hash_axioms;

/// Typed text placed on the canvas.
#[derive(Debug)]
pub struct TextStroke {
    pub text: String,
    pub bounds: Aabb,
}

/// A stroke of the document, by what search and recognition read of it.
#[derive(Debug)]
pub enum Stroke {
    /// Typed text.
    TextStroke(TextStroke),
    /// Any other stroke (pen strokes, shapes, images), by its bounds.
    Drawing(Aabb),
}

impl Clone for TextStroke {
    fn clone(&self) -> (r: Self)
        ensures
            r.text@ == self.text@,
            r.bounds == self.bounds,
    {
        TextStroke { text: self.text.clone(), bounds: self.bounds }
    }
}

impl Clone for Stroke {
    fn clone(&self) -> (r: Self)
        ensures
            r.spec_bounds() == self.spec_bounds(),
            match (r, *self) {
                (Stroke::TextStroke(a), Stroke::TextStroke(b)) => a.text@ == b.text@,
                (Stroke::Drawing(_), Stroke::Drawing(_)) => true,
                _ => false,
            },
    {
        match self {
            Stroke::TextStroke(t) => Stroke::TextStroke(t.clone()),
            Stroke::Drawing(b) => Stroke::Drawing(*b),
        }
    }
}

impl Stroke {
    /// The box that covers the stroke.
    pub open spec fn spec_bounds(&self) -> Aabb {
        match self {
            Stroke::TextStroke(t) => t.bounds,
            Stroke::Drawing(b) => *b,
        }
    }

    /// The box that covers the stroke.
    pub fn bounds(&self) -> (r: Aabb)
        ensures
            r == self.spec_bounds(),
    {
        match self {
            Stroke::TextStroke(t) => t.bounds,
            Stroke::Drawing(b) => *b,
        }
    }
}

/// The box covering those of the given keys that name a stroke, merged in
/// the order of the keys; `None` when no key names a stroke.
pub open spec fn combined_bounds(strokes: Map<StrokeKey, Stroke>, keys: Seq<StrokeKey>) -> Option<
    Aabb,
>
    decreases keys.len(),
{
    if keys.len() == 0 {
        None
    } else {
        let prev = combined_bounds(strokes, keys.drop_last());
        let k = keys.last();
        if strokes.contains_key(k) {
            let b = strokes[k].spec_bounds();
            Some(
                match prev {
                    Some(e) => merged_aabb(e, b),
                    None => b,
                },
            )
        } else {
            prev
        }
    }
}

/// The bounds of the lines whose text matches a query whose lowercased form
/// is `query_lower`, in the order of the lines.
pub open spec fn matching_bounds(lines: Seq<TextLine>, query_lower: Seq<char>) -> Seq<Aabb>
    decreases lines.len(),
{
    if lines.len() == 0 {
        Seq::empty()
    } else {
        let prev = matching_bounds(lines.drop_last(), query_lower);
        if contains_seq(lowercase(lines.last().text@), query_lower) {
            prev.push(lines.last().bounds)
        } else {
            prev
        }
    }
}

/// The position of the first line whose bounds hold `point`, if any.
pub open spec fn first_line_at(lines: Seq<TextLine>, point: Vector2) -> Option<int>
    decreases lines.len(),
{
    if lines.len() == 0 {
        None
    } else {
        match first_line_at(lines.drop_last(), point) {
            Some(i) => Some(i),
            None => if aabb_holds_point(lines.last().bounds, point) {
                Some(lines.len() - 1)
            } else {
                None
            },
        }
    }
}

/// A page of the document.
#[derive(Debug)]
pub struct Page {
    pub strokes: HashMap<StrokeKey, Stroke>,
    pub recognized_text: Vec<TextLine>,
}

impl Clone for Page {
    fn clone(&self) -> (r: Self)
        ensures
            r.strokes@ == self.strokes@,
            r.recognized_text@.len() == self.recognized_text@.len(),
            forall|i: int|
                0 <= i < self.recognized_text@.len() ==> (#[trigger] r.recognized_text@[i])@
                    == self.recognized_text@[i]@,
    {
        Page { strokes: self.strokes.clone(), recognized_text: self.recognized_text.clone() }
    }
}

impl Page {
    /// Records a recognized line read from the strokes `keys`. The line is
    /// added, with the box covering those keys that name strokes of the page,
    /// only when at least one of them does.
    pub fn add_recognized_line(&mut self, text: String, keys: Vec<StrokeKey>)
        ensures
            final(self).strokes@ == old(self).strokes@,
            match combined_bounds(old(self).strokes@, keys@) {
                Some(b) => {
                    &&& final(self).recognized_text@.len() == old(self).recognized_text@.len() + 1
                    &&& forall|i: int|
                        0 <= i < old(self).recognized_text@.len()
                            ==> final(self).recognized_text@[i] == old(self).recognized_text@[i]
                    &&& final(self).recognized_text@.last()@ == (text@, keys@, b)
                },
                None => final(self).recognized_text@ == old(self).recognized_text@,
            },
    {
        let mut combined: Option<Aabb> = None;
        let n = keys.len();
        let mut i: usize = 0;
        while i < n
            invariant
                n == keys@.len(),
                i <= n,
                combined == combined_bounds(self.strokes@, keys@.take(i as int)),
            decreases n - i,
        {
            assert(keys@.take(i + 1).drop_last() =~= keys@.take(i as int));
            match self.strokes.get(&keys[i]) {
                Some(stroke) => {
                    let b = stroke.bounds();
                    combined = Some(
                        match combined {
                            Some(existing) => aabb_merged(&existing, &b),
                            None => b,
                        },
                    );
                },
                None => {},
            }
            i = i + 1;
        }
        assert(keys@.take(n as int) =~= keys@);
        match combined {
            Some(bounds) => {
                let line = TextLine::new(text, keys, bounds);
                self.recognized_text.push(line);
            },
            None => {},
        }
    }

    /// The bounds of the recognized lines whose text contains `query`,
    /// ignoring case, in the order of the lines.
    pub fn search_text(&self, query: &str) -> (r: Vec<Aabb>)
        ensures
            r@ == matching_bounds(self.recognized_text@, lowercase(query@)),
            all_ascii(query@) ==> r@ == matching_bounds(self.recognized_text@, ascii_lower(query@)),
    {
        let query_lower = lowercase_chars(query);
        let mut match_bounds: Vec<Aabb> = Vec::new();
        let n = self.recognized_text.len();
        let mut i: usize = 0;
        while i < n
            invariant
                n == self.recognized_text@.len(),
                i <= n,
                query_lower@ == lowercase(query@),
                match_bounds@ == matching_bounds(
                    self.recognized_text@.take(i as int),
                    query_lower@,
                ),
            decreases n - i,
        {
            assert(self.recognized_text@.take(i + 1).drop_last() =~= self.recognized_text@.take(
                i as int,
            ));
            let line = &self.recognized_text[i];
            if text_matches_lowered(line.text.as_str(), &query_lower) {
                match_bounds.push(line.bounds);
            }
            i = i + 1;
        }
        assert(self.recognized_text@.take(n as int) =~= self.recognized_text@);
        match_bounds
    }

    /// The first recognized line whose bounds hold `point`.
    pub fn get_text_at_point(&self, point: Vector2) -> (r: Option<&TextLine>)
        ensures
            match first_line_at(self.recognized_text@, point) {
                Some(i) => r == Some(&self.recognized_text@[i]),
                None => r is None,
            },
    {
        let n = self.recognized_text.len();
        let mut i: usize = 0;
        while i < n
            invariant
                n == self.recognized_text@.len(),
                i <= n,
                first_line_at(self.recognized_text@.take(i as int), point) is None,
            decreases n - i,
        {
            assert(self.recognized_text@.take(i + 1).drop_last() =~= self.recognized_text@.take(
                i as int,
            ));
            if aabb_contains_point(&self.recognized_text[i].bounds, &point) {
                proof {
                    lemma_first_line_at_extends(self.recognized_text@, point, i as int + 1);
                }
                return Some(&self.recognized_text[i]);
            }
            i = i + 1;
        }
        assert(self.recognized_text@.take(n as int) =~= self.recognized_text@);
        None
    }
}

/// Once a prefix of the lines has a first line at the point, every longer
/// prefix has the same one.
proof fn lemma_first_line_at_extends(lines: Seq<TextLine>, point: Vector2, k: int)
    requires
        0 <= k <= lines.len(),
        first_line_at(lines.take(k), point) is Some,
    ensures
        first_line_at(lines, point) == first_line_at(lines.take(k), point),
    decreases lines.len() - k,
{
    if k < lines.len() {
        assert(lines.take(k + 1).drop_last() =~= lines.take(k));
        lemma_first_line_at_extends(lines, point, k + 1);
    } else {
        assert(lines.take(k) =~= lines);
    }
}

} // verus!
