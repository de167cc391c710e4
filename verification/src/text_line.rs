//! A line of recognized handwriting: its text, the strokes it was read from
//! and the box that covers them.

use parry2d_f64::bounding_volume::Aabb;
use vstd::prelude::*;

verus! {

/// The key of a stroke in the stroke store, by its 64-bit form.
pub type StrokeKey = u64;

/// A recognized line of handwriting.
#[derive(Debug)]
pub struct TextLine {
    pub text: String,
    pub stroke_keys: Vec<StrokeKey>,
    pub bounds: Aabb,
}

impl View for TextLine {
    type V = (Seq<char>, Seq<StrokeKey>, Aabb);

    open spec fn view(&self) -> (Seq<char>, Seq<StrokeKey>, Aabb) {
        (self.text@, self.stroke_keys@, self.bounds)
    }
}

impl Clone for TextLine {
    fn clone(&self) -> (r: Self)
        ensures
            r@ == self@,
    {
        let keys = self.stroke_keys.clone();
        assert(keys@ =~= self.stroke_keys@);
        TextLine { text: self.text.clone(), stroke_keys: keys, bounds: self.bounds }
    }
}

impl TextLine {
    /// A line with the given text, strokes and bounds.
    pub fn new(text: String, stroke_keys: Vec<StrokeKey>, bounds: Aabb) -> (r: Self)
        ensures
            r@ == (text@, stroke_keys@, bounds),
    {
        TextLine { text, stroke_keys, bounds }
    }

    /// Whether the line was read from the stroke `key`.
    pub fn contains_stroke(&self, key: &StrokeKey) -> (r: bool)
        ensures
            r == self.stroke_keys@.contains(*key),
    {
        let n = self.stroke_keys.len();
        let mut i: usize = 0;
        while i < n
            invariant
                n == self.stroke_keys@.len(),
                i <= n,
                forall|j: int| 0 <= j < i ==> self.stroke_keys@[j] != *key,
            decreases n - i,
        {
            if self.stroke_keys[i] == *key {
                assert(self.stroke_keys@[i as int] == *key);
                return true;
            }
            i = i + 1;
        }
        false
    }
}

} // verus!
