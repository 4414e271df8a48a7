//! The integer side of audio analysis: the analyser's configuration,
//! which spectral frames it analyses, key names and tag overlap.

use vstd::prelude::*;

verus! {

/// Length of the window that each spectral frame is analysed over.
pub const SPECTRAL_WINDOW: usize = 2048;

/// Configuration of the audio analyser.
#[derive(Debug, Clone, Copy)]
pub struct AudioAnalyzer {
    sample_rate: usize,
    fft_size: usize,
    hop_size: usize,
}

impl AudioAnalyzer {
    /// Every analyser uses a 2048-point transform and a hop of 512 samples.
    #[verifier::type_invariant]
    spec fn wf(self) -> bool {
        self.fft_size == 2048 && self.hop_size == 512
    }

    /// Sample rate the analyser was made for.
    pub closed spec fn spec_sample_rate(self) -> usize {
        self.sample_rate
    }

    /// Size of the spectral transform.
    pub closed spec fn spec_fft_size(self) -> usize {
        self.fft_size
    }

    /// Distance in samples between the starts of consecutive frames.
    pub closed spec fn spec_hop_size(self) -> usize {
        self.hop_size
    }

    /// Creates an analyser for audio sampled at `sample_rate`, with a
    /// 2048-point transform and a hop of 512 samples.
    pub fn new(sample_rate: usize) -> (r: Self)
        ensures
            r.spec_sample_rate() == sample_rate,
            r.spec_fft_size() == 2048,
            r.spec_hop_size() == 512,
    {
        AudioAnalyzer { sample_rate, fft_size: 2048, hop_size: 512 }
    }

    /// Sample rate the analyser was made for.
    pub fn sample_rate(&self) -> (r: usize)
        ensures
            r == self.spec_sample_rate(),
    {
        self.sample_rate
    }

    /// Size of the spectral transform.
    pub fn fft_size(&self) -> (r: usize)
        ensures
            r == self.spec_fft_size(),
            r == 2048,
    {
        proof {
            use_type_invariant(self);
        }
        self.fft_size
    }

    /// Distance in samples between the starts of consecutive frames.
    pub fn hop_size(&self) -> (r: usize)
        ensures
            r == self.spec_hop_size(),
            r == 512,
    {
        proof {
            use_type_invariant(self);
        }
        self.hop_size
    }

    /// How many frames spectral analysis looks at in a buffer of
    /// `sample_count` samples: a window of 2048 samples starts every
    /// `hop_size` samples, as long as the whole window fits in the buffer.
    pub fn spectral_frame_count(&self, sample_count: usize) -> (r: usize)
        ensures
            r == spectral_frames(sample_count as nat, self.spec_hop_size() as nat),
            r > 0 ==> (r - 1) * self.spec_hop_size() + SPECTRAL_WINDOW <= sample_count,
            r * self.spec_hop_size() + SPECTRAL_WINDOW > sample_count,
    {
        proof {
            use_type_invariant(self);
        }
        let hop = self.hop_size;
        if sample_count < SPECTRAL_WINDOW {
            0
        } else {
            let r = (sample_count - SPECTRAL_WINDOW) / hop + 1;
            proof {
                let q: int = (sample_count - SPECTRAL_WINDOW) as int / hop as int;
                let m: int = (sample_count - SPECTRAL_WINDOW) as int;
                assert(q * hop <= m && m < (q + 1) * hop) by (nonlinear_arith)
                    requires
                        q == m / (hop as int),
                        hop > 0,
                        m >= 0,
                ;
                assert((r - 1) * hop == q * hop);
                assert(r * hop == (q + 1) * hop);
            }
            r
        }
    }
}

/// Number of whole 2048-sample windows, starting every `hop` samples from
/// the first one, that fit in `n` samples.
pub open spec fn spectral_frames(n: nat, hop: nat) -> nat {
    if n >= SPECTRAL_WINDOW {
        ((n - SPECTRAL_WINDOW) / (hop as int) + 1) as nat
    } else {
        0
    }
}

/// Name of the pitch class with the given index, starting from C.
pub open spec fn pitch_class(index: int) -> Seq<char> {
    if index == 0 { "C"@ }
    else if index == 1 { "C#"@ }
    else if index == 2 { "D"@ }
    else if index == 3 { "D#"@ }
    else if index == 4 { "E"@ }
    else if index == 5 { "F"@ }
    else if index == 6 { "F#"@ }
    else if index == 7 { "G"@ }
    else if index == 8 { "G#"@ }
    else if index == 9 { "A"@ }
    else if index == 10 { "A#"@ }
    else { "B"@ }
}

/// The twelve pitch classes in chromatic order, from C.
pub open spec fn chromatic_scale() -> Seq<Seq<char>> {
    seq!["C"@, "C#"@, "D"@, "D#"@, "E"@, "F"@, "F#"@, "G"@, "G#"@, "A"@, "A#"@, "B"@]
}

/// Key names follow the chromatic scale: index `i` names the `i`-th of C,
/// C#, D, D#, E, F, F#, G, G#, A, A#, B.
pub proof fn lemma_pitch_classes_are_chromatic(i: int)
    requires
        0 <= i < 12,
    ensures
        pitch_class(i) == chromatic_scale()[i],
{
}

/// The key name reported for the strongest chroma bin `index`.
pub fn key_name(index: usize) -> (r: String)
    requires
        index < 12,
    ensures
        r@ == pitch_class(index as int),
        index == 0 ==> r@ == "C"@,
        index == 1 ==> r@ == "C#"@,
        index == 2 ==> r@ == "D"@,
        index == 3 ==> r@ == "D#"@,
        index == 4 ==> r@ == "E"@,
        index == 5 ==> r@ == "F"@,
        index == 6 ==> r@ == "F#"@,
        index == 7 ==> r@ == "G"@,
        index == 8 ==> r@ == "G#"@,
        index == 9 ==> r@ == "A"@,
        index == 10 ==> r@ == "A#"@,
        index == 11 ==> r@ == "B"@,
{
    let name: &str = if index == 0 { "C" }
        else if index == 1 { "C#" }
        else if index == 2 { "D" }
        else if index == 3 { "D#" }
        else if index == 4 { "E" }
        else if index == 5 { "F" }
        else if index == 6 { "F#" }
        else if index == 7 { "G" }
        else if index == 8 { "G#" }
        else if index == 9 { "A" }
        else if index == 10 { "A#" }
        else { "B" };
    name.to_owned()
}

/// Number of entries of `a` that also occur in `b` (entries of `a` are
/// counted as often as they occur in `a`).
pub open spec fn shared_tag_count(a: Seq<Seq<char>>, b: Seq<Seq<char>>) -> nat
    decreases a.len(),
{
    if a.len() == 0 {
        0
    } else {
        shared_tag_count(a.drop_last(), b) + if b.contains(a.last()) { 1nat } else { 0nat }
    }
}

/// Counts the tags of `a` that `b` also holds: the overlap that track
/// similarity compares mood and activity tags by.
pub fn count_shared_tags(a: &Vec<String>, b: &Vec<String>) -> (r: usize)
    ensures
        r == shared_tag_count(a.deep_view(), b.deep_view()),
{
    let n = a.len();
    let mut count: usize = 0;
    let mut i: usize = 0;
    while i < n
        invariant
            n == a.len(),
            i <= n,
            count <= i,
            count == shared_tag_count(a.deep_view().take(i as int), b.deep_view()),
        decreases n - i,
    {
        assert(a.deep_view().take(i + 1).drop_last() =~= a.deep_view().take(i as int));
        if crate::models::has_tag(b, &a[i]) {
            count = count + 1;
        }
        i = i + 1;
    }
    assert(a.deep_view().take(n as int) =~= a.deep_view());
    count
}

/// A tag list shares every one of its entries with itself.
pub proof fn lemma_shared_tags_self(a: Seq<Seq<char>>)
    ensures
        shared_tag_count(a, a) == a.len(),
{
    lemma_shared_tags_within(a, a);
}

/// When every entry of `a` occurs in `b`, all of `a` counts.
proof fn lemma_shared_tags_within(a: Seq<Seq<char>>, b: Seq<Seq<char>>)
    requires
        forall|i: int| 0 <= i < a.len() ==> b.contains(#[trigger] a[i]),
    ensures
        shared_tag_count(a, b) == a.len(),
    decreases a.len(),
{
    if a.len() > 0 {
        assert(b.contains(a[a.len() - 1]));
        lemma_shared_tags_within(a.drop_last(), b);
    }
}

/// The overlap never exceeds the number of tags on the first side.
pub proof fn lemma_shared_tags_bounded(a: Seq<Seq<char>>, b: Seq<Seq<char>>)
    ensures
        shared_tag_count(a, b) <= a.len(),
    decreases a.len(),
{
    if a.len() > 0 {
        lemma_shared_tags_bounded(a.drop_last(), b);
    }
}

/// An empty tag list shares nothing.
pub proof fn lemma_shared_tags_empty(b: Seq<Seq<char>>)
    ensures
        shared_tag_count(Seq::empty(), b) == 0,
{
}

/// A single tag counts once when the other list holds it, and not at all
/// otherwise.
pub proof fn lemma_shared_tags_single(x: Seq<char>, b: Seq<Seq<char>>)
    ensures
        shared_tag_count(seq![x], b) == (if b.contains(x) { 1nat } else { 0nat }),
{
    assert(seq![x].drop_last() =~= Seq::<Seq<char>>::empty());
    assert(seq![x].last() == x);
    assert(shared_tag_count(Seq::<Seq<char>>::empty(), b) == 0);
}

/// The overlap of two lists joined end to end is the sum of their
/// overlaps: every position of the first side is counted on its own.
pub proof fn lemma_shared_tags_concat(a1: Seq<Seq<char>>, a2: Seq<Seq<char>>, b: Seq<Seq<char>>)
    ensures
        shared_tag_count(a1 + a2, b) == shared_tag_count(a1, b) + shared_tag_count(a2, b),
    decreases a2.len(),
{
    if a2.len() == 0 {
        assert(a1 + a2 =~= a1);
    } else {
        assert((a1 + a2).drop_last() =~= a1 + a2.drop_last());
        assert((a1 + a2).last() == a2.last());
        lemma_shared_tags_concat(a1, a2.drop_last(), b);
    }
}

/// The overlap counts exactly the positions of `a` whose tag `b` holds:
/// one more for a shared tag put in front, none for one that is not.
pub proof fn lemma_shared_tags_front(x: Seq<char>, a: Seq<Seq<char>>, b: Seq<Seq<char>>)
    ensures
        shared_tag_count(seq![x] + a, b) == shared_tag_count(a, b) + (if b.contains(x) { 1nat } else { 0nat }),
{
    lemma_shared_tags_concat(seq![x], a, b);
    lemma_shared_tags_single(x, b);
}

} // verus!
