//! The bookkeeping around the handwriting recognizer: which segmented lines
//! were recognized before and can be reused, and the greedy decoding of the
//! recognizer's best path into text.

use crate::text_line::StrokeKey;
use crate::text_line::TextLine;
use parry2d_f64::bounding_volume::Aabb;
use vstd::prelude::*;
use vstd::relations::sorted_by;
use vstd::relations::total_ordering;

verus! {

// ----- Greedy decoding of the recognizer's output -----

/// The recognizer's output alphabet; position 0 is the blank symbol.
pub open spec fn vocabulary() -> Seq<char> {
    seq![
        '\0', 'a', 'b', 'c', 'd', 'e', 'f', 'g', 'h', 'i',
        'j', 'k', 'l', 'm', 'n', 'o', 'p', 'q', 'r', 's',
        't', 'u', 'v', 'w', 'x', 'y', 'z', '\u{e4}', '\u{f6}', '\u{fc}',
        '\u{df}', 'A', 'B', 'C', 'D', 'E', 'F', 'G', 'H', 'I',
        'J', 'K', 'L', 'M', 'N', 'O', 'P', 'Q', 'R', 'S',
        'T', 'U', 'V', 'W', 'X', 'Y', 'Z', '\u{c4}', '\u{d6}', '\u{dc}',
        '0', '1', '2', '3', '4', '5', '6', '7', '8', '9',
        '.', ',', ':', ';', '!', '?', '-', '"', '(', ')',
        '[', ']', '+', '*', '/', '\\', '=', '<', '>', '^',
        '_', '%', '\u{b0}', '$', '\u{20ac}', '@', '#', '&', '\u{a7}', ' ',
    ]
}

/// The recognizer's output alphabet as a vector.
pub fn recognition_vocabulary() -> (v: Vec<char>)
    ensures
        v@ == vocabulary(),
{
    let v: Vec<char> = vec![
        '\0', 'a', 'b', 'c', 'd', 'e', 'f', 'g', 'h', 'i',
        'j', 'k', 'l', 'm', 'n', 'o', 'p', 'q', 'r', 's',
        't', 'u', 'v', 'w', 'x', 'y', 'z', '\u{e4}', '\u{f6}', '\u{fc}',
        '\u{df}', 'A', 'B', 'C', 'D', 'E', 'F', 'G', 'H', 'I',
        'J', 'K', 'L', 'M', 'N', 'O', 'P', 'Q', 'R', 'S',
        'T', 'U', 'V', 'W', 'X', 'Y', 'Z', '\u{c4}', '\u{d6}', '\u{dc}',
        '0', '1', '2', '3', '4', '5', '6', '7', '8', '9',
        '.', ',', ':', ';', '!', '?', '-', '"', '(', ')',
        '[', ']', '+', '*', '/', '\\', '=', '<', '>', '^',
        '_', '%', '\u{b0}', '$', '\u{20ac}', '@', '#', '&', '\u{a7}', ' ',
    ];
    assert(v@ =~= vocabulary());
    v
}

/// Greedy (best path) decoding: for each time step the most likely token,
/// dropping the blank token 0, tokens repeated from the step before, and
/// tokens outside the alphabet.
pub open spec fn greedy_decode(tokens: Seq<usize>, vocab: Seq<char>) -> Seq<char>
    decreases tokens.len(),
{
    if tokens.len() == 0 {
        Seq::empty()
    } else {
        let prev = greedy_decode(tokens.drop_last(), vocab);
        let t = tokens.last();
        let repeated = tokens.len() >= 2 && tokens[tokens.len() - 2] == t;
        if t != 0 && !repeated && t < vocab.len() {
            prev.push(vocab[t as int])
        } else {
            prev
        }
    }
}

/// Calls std's `FromIterator<char>` for `String`, which collects the
/// characters in order.
#[verifier::external_body]
fn string_from_chars(chars: Vec<char>) -> (s: String)
    ensures
        s@ == chars@,
{
    chars.into_iter().collect()
}

/// The text of a recognized line from the most likely token at each time
/// step of the recognizer's output.
pub fn decode_best_path(best_tokens: &Vec<usize>) -> (s: String)
    ensures
        s@ == greedy_decode(best_tokens@, vocabulary()),
{
    let vocab = recognition_vocabulary();
    let mut decoded: Vec<char> = Vec::new();
    let mut last_token: Option<usize> = None;
    let n = best_tokens.len();
    let mut t: usize = 0;
    while t < n
        invariant
            n == best_tokens@.len(),
            t <= n,
            vocab@ == vocabulary(),
            decoded@ == greedy_decode(best_tokens@.take(t as int), vocabulary()),
            last_token == (if t == 0 { None } else { Some(best_tokens@[t - 1]) }),
        decreases n - t,
    {
        assert(best_tokens@.take(t + 1).drop_last() =~= best_tokens@.take(t as int));
        let max_idx = best_tokens[t];
        let same_as_last = match last_token {
            Some(l) => l == max_idx,
            None => false,
        };
        if max_idx != 0 && !same_as_last {
            if max_idx < vocab.len() {
                decoded.push(vocab[max_idx]);
            }
        }
        last_token = Some(max_idx);
        t = t + 1;
    }
    assert(best_tokens@.take(n as int) =~= best_tokens@);
    string_from_chars(decoded)
}

// ----- Reuse of lines recognized before -----

/// The order of stroke keys.
pub open spec fn key_leq(a: StrokeKey, b: StrokeKey) -> bool {
    a <= b
}

/// Two key lists name the same strokes, in any order (repeats counted).
pub open spec fn same_strokes(a: Seq<StrokeKey>, b: Seq<StrokeKey>) -> bool {
    a.to_multiset() == b.to_multiset()
}

/// The keys in ascending order.
pub open spec fn sorted_keys(keys: Seq<StrokeKey>) -> Seq<StrokeKey> {
    keys.sort_by(|a: StrokeKey, b: StrokeKey| key_leq(a, b))
}

/// Calls std's `slice::sort`, which sorts the slice in ascending order.
#[verifier::external_body]
fn sort_in_place(v: &mut Vec<StrokeKey>)
    ensures
        final(v)@.to_multiset() == old(v)@.to_multiset(),
        sorted_by(final(v)@, |a: StrokeKey, b: StrokeKey| key_leq(a, b)),
{
    v.sort();
}

proof fn lemma_key_leq_total()
    ensures
        total_ordering(|a: StrokeKey, b: StrokeKey| key_leq(a, b)),
{
}

/// A sorted list with the multiset of `keys` is the sorted form of `keys`.
proof fn lemma_sorted_is_sorted_keys(s: Seq<StrokeKey>, keys: Seq<StrokeKey>)
    requires
        sorted_by(s, |a: StrokeKey, b: StrokeKey| key_leq(a, b)),
        s.to_multiset() == keys.to_multiset(),
    ensures
        s == sorted_keys(keys),
{
    let leq = |a: StrokeKey, b: StrokeKey| key_leq(a, b);
    lemma_key_leq_total();
    keys.lemma_sort_by_ensures(leq);
    vstd::seq_lib::lemma_sorted_unique(s, keys.sort_by(leq), leq);
}

/// The sorted form of a key list has the same strokes and is in ascending
/// order.
pub proof fn lemma_sorted_keys_sorted(keys: Seq<StrokeKey>)
    ensures
        sorted_keys(keys).to_multiset() == keys.to_multiset(),
        sorted_by(sorted_keys(keys), |a: StrokeKey, b: StrokeKey| key_leq(a, b)),
{
    lemma_key_leq_total();
    keys.lemma_sort_by_ensures(|a: StrokeKey, b: StrokeKey| key_leq(a, b));
}

/// Two key lists name the same strokes exactly when their sorted forms are
/// equal.
pub proof fn lemma_same_strokes_iff_sorted_equal(a: Seq<StrokeKey>, b: Seq<StrokeKey>)
    ensures
        same_strokes(a, b) <==> sorted_keys(a) == sorted_keys(b),
{
    let leq = |x: StrokeKey, y: StrokeKey| key_leq(x, y);
    lemma_key_leq_total();
    a.lemma_sort_by_ensures(leq);
    b.lemma_sort_by_ensures(leq);
    if same_strokes(a, b) {
        lemma_sorted_is_sorted_keys(sorted_keys(a), b);
    }
}

/// The keys in ascending order, as the fingerprint of a line.
pub fn sorted_key_list(keys: &Vec<StrokeKey>) -> (r: Vec<StrokeKey>)
    ensures
        r@ == sorted_keys(keys@),
{
    let mut r = keys.clone();
    assert(r@ =~= keys@);
    sort_in_place(&mut r);
    proof {
        lemma_sorted_is_sorted_keys(r@, keys@);
    }
    r
}

/// Whether two key lists are equal.
fn key_lists_equal(a: &Vec<StrokeKey>, b: &Vec<StrokeKey>) -> (r: bool)
    ensures
        r == (a@ == b@),
{
    if a.len() != b.len() {
        return false;
    }
    let n = a.len();
    let mut i: usize = 0;
    while i < n
        invariant
            n == a@.len(),
            n == b@.len(),
            i <= n,
            forall|j: int| 0 <= j < i ==> a@[j] == b@[j],
        decreases n - i,
    {
        if a[i] != b[i] {
            return false;
        }
        i = i + 1;
    }
    assert(a@ =~= b@);
    true
}

/// The position of the first known line read from the same strokes as
/// `keys`, if any.
pub open spec fn first_same_line(lines: Seq<TextLine>, keys: Seq<StrokeKey>) -> Option<int>
    decreases lines.len(),
{
    if lines.len() == 0 {
        None
    } else {
        match first_same_line(lines.drop_last(), keys) {
            Some(i) => Some(i),
            None => if same_strokes(lines.last().stroke_keys@, keys) {
                Some(lines.len() - 1)
            } else {
                None
            },
        }
    }
}

/// The first same line is a line of the list read from the same strokes,
/// and no line before it is.
pub proof fn lemma_first_same_line_is_first(lines: Seq<TextLine>, keys: Seq<StrokeKey>)
    ensures
        match first_same_line(lines, keys) {
            Some(i) => {
                &&& 0 <= i < lines.len()
                &&& same_strokes(lines[i].stroke_keys@, keys)
                &&& forall|j: int| 0 <= j < i ==> !same_strokes(#[trigger] lines[j].stroke_keys@, keys)
            },
            None => forall|j: int|
                0 <= j < lines.len() ==> !same_strokes(#[trigger] lines[j].stroke_keys@, keys),
        },
    decreases lines.len(),
{
    if lines.len() > 0 {
        let prefix = lines.drop_last();
        lemma_first_same_line_is_first(prefix, keys);
        assert forall|j: int| 0 <= j < prefix.len() implies prefix[j] == lines[j] by {}
        match first_same_line(prefix, keys) {
            Some(i) => {
                assert(prefix[i] == lines[i]);
                assert forall|j: int| 0 <= j < i implies !same_strokes(
                    #[trigger] lines[j].stroke_keys@,
                    keys,
                ) by {
                    assert(prefix[j] == lines[j]);
                }
            },
            None => {
                assert forall|j: int| 0 <= j < prefix.len() implies !same_strokes(
                    #[trigger] lines[j].stroke_keys@,
                    keys,
                ) by {
                    assert(prefix[j] == lines[j]);
                }
            },
        }
    }
}

proof fn lemma_first_same_line_extends(lines: Seq<TextLine>, keys: Seq<StrokeKey>, k: int)
    requires
        0 <= k <= lines.len(),
        first_same_line(lines.take(k), keys) is Some,
    ensures
        first_same_line(lines, keys) == first_same_line(lines.take(k), keys),
    decreases lines.len() - k,
{
    if k < lines.len() {
        assert(lines.take(k + 1).drop_last() =~= lines.take(k));
        lemma_first_same_line_extends(lines, keys, k + 1);
    } else {
        assert(lines.take(k) =~= lines);
    }
}

/// The position of the first known line read from the same strokes as
/// `keys`, if any.
pub fn find_known_line(existing: &Vec<TextLine>, keys: &Vec<StrokeKey>) -> (r: Option<usize>)
    ensures
        match r {
            Some(i) => first_same_line(existing@, keys@) == Some(i as int),
            None => first_same_line(existing@, keys@) is None,
        },
{
    let current = sorted_key_list(keys);
    let n = existing.len();
    let mut i: usize = 0;
    while i < n
        invariant
            n == existing@.len(),
            i <= n,
            current@ == sorted_keys(keys@),
            first_same_line(existing@.take(i as int), keys@) is None,
        decreases n - i,
    {
        assert(existing@.take(i + 1).drop_last() =~= existing@.take(i as int));
        let old_ids = sorted_key_list(&existing[i].stroke_keys);
        proof {
            lemma_same_strokes_iff_sorted_equal(existing@[i as int].stroke_keys@, keys@);
        }
        if key_lists_equal(&old_ids, &current) {
            proof {
                lemma_first_same_line_extends(existing@, keys@, i + 1);
            }
            return Some(i);
        }
        i = i + 1;
    }
    assert(existing@.take(n as int) =~= existing@);
    None
}

/// What to do with a segmented line of handwriting.
#[derive(Debug)]
pub enum LinePlan {
    /// The line was recognized before: keep that result.
    Reuse(TextLine),
    /// The line is new: recognize it; it will be recorded with these keys,
    /// in ascending order.
    Recognize(Vec<StrokeKey>),
}

/// Decides, for a segmented line read from the strokes `line_keys`, whether
/// a known line from the same strokes (in any order) can be reused, or the
/// line must be recognized.
pub fn plan_line(line_keys: &Vec<StrokeKey>, existing: &Vec<TextLine>) -> (p: LinePlan)
    ensures
        match first_same_line(existing@, line_keys@) {
            Some(i) => p matches LinePlan::Reuse(l) && l@ == existing@[i]@,
            None => p matches LinePlan::Recognize(k) && k@ == sorted_keys(line_keys@),
        },
{
    proof {
        lemma_first_same_line_is_first(existing@, line_keys@);
    }
    match find_known_line(existing, line_keys) {
        Some(i) => {
            let line = existing[i].clone();
            LinePlan::Reuse(line)
        },
        None => {
            let keys = sorted_key_list(line_keys);
            LinePlan::Recognize(keys)
        },
    }
}

/// The views of a list of lines.
pub open spec fn line_views(lines: Seq<TextLine>) -> Seq<(Seq<char>, Seq<StrokeKey>, Aabb)> {
    lines.map_values(|l: TextLine| l@)
}

/// The lines produced by one recognition pass over the segmented lines of a
/// page, in the order of the segmented lines.
#[derive(Debug)]
pub struct RecognitionRun {
    pub recognized_lines: Vec<TextLine>,
}

impl RecognitionRun {
    /// A pass that has produced no line yet.
    pub fn new() -> (r: Self)
        ensures
            r.recognized_lines@.len() == 0,
    {
        RecognitionRun { recognized_lines: Vec::new() }
    }

    /// Starts a segmented line read from the strokes `line_keys`: a known
    /// line read from the same strokes is reused and `None` returned;
    /// otherwise nothing is recorded yet and the keys under which the line
    /// is to be recorded, in ascending order, are returned.
    pub fn begin_line(&mut self, line_keys: &Vec<StrokeKey>, existing: &Vec<TextLine>) -> (r:
        Option<Vec<StrokeKey>>)
        ensures
            match first_same_line(existing@, line_keys@) {
                Some(i) => r is None && line_views(final(self).recognized_lines@) == line_views(
                    old(self).recognized_lines@,
                ).push(existing@[i]@),
                None => r matches Some(k) && k@ == sorted_keys(line_keys@)
                    && final(self).recognized_lines@ == old(self).recognized_lines@,
            },
    {
        match plan_line(line_keys, existing) {
            LinePlan::Reuse(line) => {
                let ghost before = self.recognized_lines@;
                self.recognized_lines.push(line);
                assert(line_views(self.recognized_lines@) =~= line_views(before).push(line@));
                None
            },
            LinePlan::Recognize(keys) => Some(keys),
        }
    }

    /// Ends a segmented line that was given to the recognizer: it is
    /// recorded, with its bounds and keys, when the recognizer produced text.
    pub fn finish_line(&mut self, text: Option<String>, bounds: Aabb, keys: Vec<StrokeKey>)
        ensures
            match text {
                Some(t) => line_views(final(self).recognized_lines@) == line_views(
                    old(self).recognized_lines@,
                ).push((t@, keys@, bounds)),
                None => final(self).recognized_lines@ == old(self).recognized_lines@,
            },
    {
        match text {
            Some(t) => {
                let ghost before = self.recognized_lines@;
                let line = TextLine::new(t, keys, bounds);
                self.recognized_lines.push(line);
                assert(line_views(self.recognized_lines@) =~= line_views(before).push(line@));
            },
            None => {},
        }
    }
}

/// What a finished recognition pass sends to the engine, in this order:
/// the deskewing debug data, then the recognized lines.
#[derive(Debug, Clone, Copy, PartialEq, Eq)]
pub struct PassMessages {
    pub send_debug_info: bool,
    pub send_result: bool,
}

impl RecognitionRun {
    /// What the finished pass sends, given how many lines left debug data:
    /// nothing when it produced no line; otherwise the lines, preceded by the
    /// debug data when there is any.
    pub fn messages(&self, debug_infos: usize) -> (m: PassMessages)
        ensures
            m.send_result == (self.recognized_lines@.len() > 0),
            m.send_debug_info == (self.recognized_lines@.len() > 0 && debug_infos > 0),
    {
        let produced = self.recognized_lines.len() > 0;
        PassMessages { send_debug_info: produced && debug_infos > 0, send_result: produced }
    }
}

// ----- Debouncing -----

/// How an attempt to replace the pending recognition task ended.
#[derive(Debug, Clone, Copy, PartialEq, Eq)]
pub enum ReplaceOutcome {
    /// The pending task now runs the new work.
    Replaced,
    /// The pending task had already run.
    TimeoutReached,
    /// The replacement failed for another reason.
    Failed,
}

/// Whether a new debounced recognition task must be installed, given how
/// replacing the pending one went (`None` when no task is pending).
pub fn needs_new_task(replace: Option<ReplaceOutcome>) -> (r: bool)
    ensures
        r == !(replace matches Some(ReplaceOutcome::Replaced)),
{
    match replace {
        Some(ReplaceOutcome::Replaced) => false,
        Some(ReplaceOutcome::TimeoutReached) => true,
        Some(ReplaceOutcome::Failed) => true,
        None => true,
    }
}

} // verus!
