use vstd::prelude::*;

verus! {

broadcast use {
    vstd::seq_lib::group_to_multiset_ensures,
    vstd::multiset::group_multiset_axioms,
    vstd::seq_lib::lemma_multiset_commutative,
};

/// One detected symbol in a challenge image: the left edge of its bounding
/// box and its confidence, both in fixed-point units chosen by the caller,
/// and the predicted class label.
pub struct Detection {
    /// Horizontal left-edge coordinate of the bounding box.
    pub x: u64,
    /// Predicted class label, concatenated into the solution string.
    pub label: String,
    /// Confidence of the prediction.
    pub confidence: u64,
}

/// The one recoverable decoding failure: the number of detections that met
/// the confidence threshold differs from the number of symbols a challenge
/// is known to hold.
#[derive(Clone, Copy, PartialEq, Eq, Structural, Debug)]
pub enum DecodeError {
    LengthMismatch { expected: usize, actual: usize },
}

/// Detections that survive the confidence filter, in input order.
pub open spec fn filter_confident(s: Seq<Detection>, min_confidence: u64) -> Seq<Detection>
    decreases s.len(),
{
    if s.len() == 0 {
        Seq::empty()
    } else if s[0].confidence >= min_confidence {
        seq![s[0]] + filter_confident(s.drop_first(), min_confidence)
    } else {
        filter_confident(s.drop_first(), min_confidence)
    }
}

/// Left-to-right reading order: bounding-box left edges never decrease.
pub open spec fn sorted_by_x(s: Seq<Detection>) -> bool {
    forall|i: int, j: int| 0 <= i < j < s.len() ==> #[trigger] s[i].x <= #[trigger] s[j].x
}

/// No two detections share a left-edge coordinate.
pub open spec fn distinct_x(s: Seq<Detection>) -> bool {
    forall|i: int, j: int| 0 <= i < j < s.len() ==> #[trigger] s[i].x != #[trigger] s[j].x
}

/// Stable insertion: `d` goes in front of the first element whose left edge
/// lies strictly to its right.
pub open spec fn insert_by_x(s: Seq<Detection>, d: Detection) -> Seq<Detection>
    decreases s.len(),
{
    if s.len() > 0 && s[0].x <= d.x {
        seq![s[0]] + insert_by_x(s.drop_first(), d)
    } else {
        seq![d] + s
    }
}

/// Stable insertion sort of `s` into the already sorted accumulator `acc`.
pub open spec fn sort_from(acc: Seq<Detection>, s: Seq<Detection>) -> Seq<Detection>
    decreases s.len(),
{
    if s.len() == 0 {
        acc
    } else {
        sort_from(insert_by_x(acc, s[0]), s.drop_first())
    }
}

/// The detections of `s` in ascending order of their left edge; detections
/// with equal left edges keep their relative order.
pub open spec fn sort_by_x(s: Seq<Detection>) -> Seq<Detection> {
    sort_from(Seq::empty(), s)
}

/// The class labels of `s`, concatenated in order.
pub open spec fn concat_labels(s: Seq<Detection>) -> Seq<char>
    decreases s.len(),
{
    if s.len() == 0 {
        Seq::empty()
    } else {
        s[0].label@ + concat_labels(s.drop_first())
    }
}

/// The confidence filter never returns more detections than it was given.
pub proof fn lemma_filter_confident_len(s: Seq<Detection>, min_confidence: u64)
    ensures
        filter_confident(s, min_confidence).len() <= s.len(),
    decreases s.len(),
{
    if s.len() > 0 {
        lemma_filter_confident_len(s.drop_first(), min_confidence);
    }
}

/// Every detection that survives the confidence filter came from the input.
pub proof fn lemma_filter_confident_subset(s: Seq<Detection>, min_confidence: u64)
    ensures
        forall|d: Detection|
            filter_confident(s, min_confidence).contains(d) ==> s.contains(d),
    decreases s.len(),
{
    if s.len() > 0 {
        let df = s.drop_first();
        lemma_filter_confident_subset(df, min_confidence);
        assert forall|d: Detection|
            filter_confident(s, min_confidence).contains(d) implies s.contains(d) by {
            let f = filter_confident(s, min_confidence);
            let fd = filter_confident(df, min_confidence);
            let i = choose|i: int| 0 <= i < f.len() && f[i] == d;
            if s[0].confidence >= min_confidence && i == 0 {
                assert(f == seq![s[0]] + fd);
                assert(s[0] == d);
            } else {
                if s[0].confidence >= min_confidence {
                    assert(f == seq![s[0]] + fd);
                    assert(fd[i - 1] == d);
                } else {
                    assert(fd[i] == d);
                }
                assert(fd.contains(d));
                assert(df.contains(d));
                let k = choose|k: int| 0 <= k < df.len() && df[k] == d;
                assert(df[k] == s[k + 1]);
                assert(s[k + 1] == d);
            }
        }
    }
}

/// A detection set in which every detection meets the threshold passes the
/// confidence filter unchanged.
pub proof fn lemma_filter_keeps_confident(s: Seq<Detection>, min_confidence: u64)
    requires
        forall|i: int| 0 <= i < s.len() ==> #[trigger] s[i].confidence >= min_confidence,
    ensures
        filter_confident(s, min_confidence) == s,
    decreases s.len(),
{
    if s.len() > 0 {
        let df = s.drop_first();
        assert(forall|i: int| 0 <= i < df.len() ==> #[trigger] df[i].confidence >= min_confidence);
        lemma_filter_keeps_confident(df, min_confidence);
        assert(filter_confident(s, min_confidence) =~= s);
    } else {
        assert(filter_confident(s, min_confidence) =~= s);
    }
}

/// Confidence filtering is monotone: a stricter threshold applied after a
/// laxer one filters exactly as the stricter one alone, so lowering the
/// threshold never removes an accepted detection and raising it never adds
/// one.
pub proof fn lemma_filter_confident_monotonic(s: Seq<Detection>, lo: u64, hi: u64)
    requires
        lo <= hi,
    ensures
        filter_confident(filter_confident(s, lo), hi) == filter_confident(s, hi),
        forall|d: Detection|
            filter_confident(s, hi).contains(d) ==> filter_confident(s, lo).contains(d),
    decreases s.len(),
{
    lemma_filter_confident_subset(filter_confident(s, lo), hi);
    if s.len() > 0 {
        let df = s.drop_first();
        lemma_filter_confident_monotonic(df, lo, hi);
        if s[0].confidence >= lo {
            let rest = filter_confident(df, lo);
            assert((seq![s[0]] + rest).drop_first() =~= rest);
            if s[0].confidence >= hi {
                assert(filter_confident(filter_confident(s, lo), hi) =~= filter_confident(s, hi));
            } else {
                assert(filter_confident(filter_confident(s, lo), hi) =~= filter_confident(s, hi));
            }
        } else {
            assert(filter_confident(filter_confident(s, lo), hi) =~= filter_confident(s, hi));
        }
    }
}

/// Stable insertion puts `d` exactly at the first position whose element
/// lies strictly to its right.
pub proof fn lemma_insert_by_x_at(s: Seq<Detection>, d: Detection, j: int)
    requires
        0 <= j <= s.len(),
        forall|k: int| 0 <= k < j ==> #[trigger] s[k].x <= d.x,
        j < s.len() ==> s[j].x > d.x,
    ensures
        insert_by_x(s, d) == s.take(j) + seq![d] + s.skip(j),
    decreases j,
{
    if j == 0 {
        assert(insert_by_x(s, d) =~= s.take(0) + seq![d] + s.skip(0));
    } else {
        let df = s.drop_first();
        assert(s[0].x <= d.x);
        assert(forall|k: int| 0 <= k < j - 1 ==> #[trigger] df[k].x <= d.x);
        lemma_insert_by_x_at(df, d, j - 1);
        assert(seq![s[0]] + (df.take(j - 1) + seq![d] + df.skip(j - 1))
            =~= s.take(j) + seq![d] + s.skip(j));
    }
}

/// Inserting a detection adds exactly that detection to the contents.
pub proof fn lemma_insert_by_x_multiset(s: Seq<Detection>, d: Detection)
    ensures
        insert_by_x(s, d).to_multiset() == s.to_multiset().insert(d),
    decreases s.len(),
{
    if s.len() > 0 && s[0].x <= d.x {
        let df = s.drop_first();
        lemma_insert_by_x_multiset(df, d);
        assert(s =~= seq![s[0]] + df);
        assert((seq![s[0]] + df).to_multiset() =~= seq![s[0]].to_multiset().add(df.to_multiset()));
        assert((seq![s[0]] + insert_by_x(df, d)).to_multiset()
            =~= seq![s[0]].to_multiset().add(insert_by_x(df, d).to_multiset()));
        assert(insert_by_x(s, d).to_multiset() =~= s.to_multiset().insert(d));
    } else {
        assert(seq![d] =~= Seq::empty().push(d));
        assert(Seq::<Detection>::empty().to_multiset().len() == 0);
        vstd::multiset::lemma_multiset_empty_len(Seq::<Detection>::empty().to_multiset());
        assert((Seq::empty().push(d)).to_multiset() =~= Seq::<Detection>::empty().to_multiset().insert(d));
        assert((seq![d] + s).to_multiset() =~= seq![d].to_multiset().add(s.to_multiset()));
        assert(insert_by_x(s, d).to_multiset() =~= s.to_multiset().insert(d));
    }
}

/// Sorting does not change the contents: the result holds exactly the
/// accumulator's detections and the input's detections.
pub proof fn lemma_sort_from_multiset(acc: Seq<Detection>, s: Seq<Detection>)
    ensures
        sort_from(acc, s).to_multiset() == acc.to_multiset().add(s.to_multiset()),
    decreases s.len(),
{
    if s.len() == 0 {
        assert(s.to_multiset().len() == 0);
        vstd::multiset::lemma_multiset_empty_len(s.to_multiset());
        assert(acc.to_multiset().add(s.to_multiset()) =~= acc.to_multiset());
    } else {
        let df = s.drop_first();
        lemma_insert_by_x_multiset(acc, s[0]);
        lemma_sort_from_multiset(insert_by_x(acc, s[0]), df);
        assert(s =~= seq![s[0]] + df);
        assert((seq![s[0]] + df).to_multiset() =~= seq![s[0]].to_multiset().add(df.to_multiset()));
        assert(seq![s[0]] =~= Seq::empty().push(s[0]));
        assert(Seq::<Detection>::empty().to_multiset().len() == 0);
        vstd::multiset::lemma_multiset_empty_len(Seq::<Detection>::empty().to_multiset());
        assert((Seq::empty().push(s[0])).to_multiset()
            =~= Seq::<Detection>::empty().to_multiset().insert(s[0]));
        assert(sort_from(acc, s).to_multiset() =~= acc.to_multiset().add(s.to_multiset()));
    }
}

/// Sorting a detection sequence permutes it: the contents are unchanged.
pub proof fn lemma_sort_by_x_multiset(s: Seq<Detection>)
    ensures
        sort_by_x(s).to_multiset() == s.to_multiset(),
        sort_by_x(s).len() == s.len(),
{
    lemma_sort_from_multiset(Seq::empty(), s);
    assert(Seq::<Detection>::empty().to_multiset().len() == 0);
    vstd::multiset::lemma_multiset_empty_len(Seq::<Detection>::empty().to_multiset());
    assert(Seq::<Detection>::empty().to_multiset().add(s.to_multiset()) =~= s.to_multiset());
    assert(sort_by_x(s).to_multiset().len() == sort_by_x(s).len());
    assert(s.to_multiset().len() == s.len());
}

/// Inserting into an x-sorted sequence keeps it x-sorted.
pub proof fn lemma_insert_by_x_sorted(s: Seq<Detection>, d: Detection)
    requires
        sorted_by_x(s),
    ensures
        sorted_by_x(insert_by_x(s, d)),
    decreases s.len(),
{
    if s.len() > 0 && s[0].x <= d.x {
        let df = s.drop_first();
        assert(forall|k: int| 0 <= k < df.len() ==> df[k] == s[k + 1]);
        lemma_insert_by_x_sorted(df, d);
        let t = insert_by_x(df, d);
        lemma_insert_by_x_multiset(df, d);
        assert forall|k: int| 0 <= k < t.len() implies s[0].x <= #[trigger] t[k].x by {
            assert(t.contains(t[k]));
            assert(t.to_multiset().count(t[k]) > 0);
            if t[k] != d {
                assert(df.to_multiset().count(t[k]) > 0);
                assert(df.contains(t[k]));
                let i = choose|i: int| 0 <= i < df.len() && df[i] == t[k];
                assert(s[0].x <= s[i + 1].x);
            }
        }
        assert(insert_by_x(s, d) =~= seq![s[0]] + t);
        assert(sorted_by_x(seq![s[0]] + t));
    }
}

/// Insertion-sorting onto a sorted accumulator yields a sorted sequence.
pub proof fn lemma_sort_from_sorted(acc: Seq<Detection>, s: Seq<Detection>)
    requires
        sorted_by_x(acc),
    ensures
        sorted_by_x(sort_from(acc, s)),
    decreases s.len(),
{
    if s.len() > 0 {
        lemma_insert_by_x_sorted(acc, s[0]);
        lemma_sort_from_sorted(insert_by_x(acc, s[0]), s.drop_first());
    }
}

/// The sort used by the decoder orders detections by ascending left edge.
pub proof fn lemma_sort_by_x_sorted(s: Seq<Detection>)
    ensures
        sorted_by_x(sort_by_x(s)),
{
    lemma_sort_from_sorted(Seq::empty(), s);
}

/// When every label is a single character, the concatenated solution has one
/// character per detection, and its `i`-th character is the label of the
/// `i`-th detection.
pub proof fn lemma_concat_labels_single(s: Seq<Detection>)
    requires
        forall|i: int| 0 <= i < s.len() ==> #[trigger] s[i].label@.len() == 1,
    ensures
        concat_labels(s).len() == s.len(),
        forall|i: int| 0 <= i < s.len() ==> #[trigger] concat_labels(s)[i] == s[i].label@[0],
    decreases s.len(),
{
    if s.len() > 0 {
        let df = s.drop_first();
        assert(forall|i: int| 0 <= i < df.len() ==> df[i] == s[i + 1]);
        lemma_concat_labels_single(df);
        assert(s[0].label@.len() == 1);
        assert forall|i: int| 0 <= i < s.len() implies #[trigger] concat_labels(s)[i]
            == s[i].label@[0] by {
            if i == 0 {
                assert(concat_labels(s)[0] == s[0].label@[0]);
            } else {
                assert(concat_labels(s)[i] == concat_labels(df)[i - 1]);
            }
        }
    }
}

/// A fully confident detection set whose size differs from the expected
/// length is never accepted: the confidence filter keeps all of it, so the
/// decoder reports a mismatch that carries the set's own size.
pub proof fn lemma_wrong_count_rejected(
    dets: Seq<Detection>,
    min_confidence: u64,
    expected_length: usize,
)
    requires
        forall|i: int| 0 <= i < dets.len() ==> #[trigger] dets[i].confidence >= min_confidence,
        dets.len() != expected_length,
    ensures
        filter_confident(dets, min_confidence) == dets,
        filter_confident(dets, min_confidence).len() != expected_length,
{
    lemma_filter_keeps_confident(dets, min_confidence);
}

/// On a detection set in which every detection meets the threshold and every
/// label is a single character, the confidence filter keeps everything, the
/// sort permutes the set into ascending left-edge order, and the solution
/// reads one character per detection: the label of the detection at that
/// position of the sorted order.
pub proof fn lemma_decode_complete(dets: Seq<Detection>, min_confidence: u64)
    requires
        forall|i: int| 0 <= i < dets.len() ==> #[trigger] dets[i].confidence >= min_confidence,
        forall|i: int| 0 <= i < dets.len() ==> #[trigger] dets[i].label@.len() == 1,
    ensures
        filter_confident(dets, min_confidence) == dets,
        sorted_by_x(sort_by_x(dets)),
        sort_by_x(dets).to_multiset() == dets.to_multiset(),
        sort_by_x(dets).len() == dets.len(),
        concat_labels(sort_by_x(dets)).len() == dets.len(),
        forall|i: int|
            0 <= i < dets.len() ==> #[trigger] concat_labels(sort_by_x(dets))[i] == sort_by_x(
                dets,
            )[i].label@[0],
{
    lemma_filter_keeps_confident(dets, min_confidence);
    lemma_sort_by_x_sorted(dets);
    lemma_sort_by_x_multiset(dets);
    let t = sort_by_x(dets);
    assert forall|i: int| 0 <= i < t.len() implies #[trigger] t[i].label@.len() == 1 by {
        assert(t.contains(t[i]));
        assert(t.to_multiset().count(t[i]) > 0);
        assert(dets.contains(t[i]));
        let k = choose|k: int| 0 <= k < dets.len() && dets[k] == t[i];
        assert(dets[k].label@.len() == 1);
    }
    lemma_concat_labels_single(t);
}

/// A detection that appears at two positions of `s` still appears after one
/// occurrence is taken out of the contents.
proof fn lemma_multiset_two_indices(s: Seq<Detection>, i: int, j: int)
    requires
        0 <= i < j < s.len(),
    ensures
        s.to_multiset().remove(s[i]).count(s[j]) > 0,
{
    assert(s.remove(i).to_multiset() == s.to_multiset().remove(s[i]));
    assert(s.remove(i)[j - 1] == s[j]);
    assert(s.remove(i).contains(s[j]));
}

/// A permutation of a detection set with pairwise distinct left edges has
/// pairwise distinct left edges too.
pub proof fn lemma_permutation_distinct(a: Seq<Detection>, b: Seq<Detection>)
    requires
        a.to_multiset() == b.to_multiset(),
        distinct_x(a),
    ensures
        distinct_x(b),
{
    assert forall|i: int, j: int|
        0 <= i < j < b.len() implies #[trigger] b[i].x != #[trigger] b[j].x by {
        if b[i].x == b[j].x {
            lemma_multiset_two_indices(b, i, j);
            assert(b.contains(b[i]));
            assert(b.to_multiset().count(b[i]) > 0);
            assert(a.to_multiset().count(b[i]) > 0);
            assert(a.contains(b[i]));
            let p = choose|p: int| 0 <= p < a.len() && a[p] == b[i];
            assert(a.remove(p).to_multiset() == a.to_multiset().remove(a[p]));
            assert(a.remove(p).to_multiset().count(b[j]) > 0);
            assert(a.remove(p).contains(b[j]));
            let q = choose|q: int| 0 <= q < a.remove(p).len() && a.remove(p)[q] == b[j];
            if q < p {
                assert(a[q] == b[j]);
                assert(a[q].x != a[p].x);
            } else {
                assert(a[q + 1] == b[j]);
                assert(a[p].x != a[q + 1].x);
            }
            assert(false);
        }
    }
}

/// Two x-sorted sequences with the same contents and pairwise distinct left
/// edges are the same sequence.
pub proof fn lemma_sorted_by_x_unique(a: Seq<Detection>, b: Seq<Detection>)
    requires
        sorted_by_x(a),
        sorted_by_x(b),
        distinct_x(a),
        a.to_multiset() == b.to_multiset(),
    ensures
        a == b,
    decreases a.len(),
{
    assert(a.to_multiset().len() == a.len());
    assert(b.to_multiset().len() == b.len());
    if a.len() == 0 {
        assert(a =~= b);
    } else {
        assert(a.contains(a[0]));
        assert(a.to_multiset().count(a[0]) > 0);
        assert(b.to_multiset().count(a[0]) > 0);
        assert(b.contains(a[0]));
        let i = choose|i: int| 0 <= i < b.len() && b[i] == a[0];
        assert(b[0].x <= b[i].x);
        assert(b.contains(b[0]));
        assert(b.to_multiset().count(b[0]) > 0);
        assert(a.to_multiset().count(b[0]) > 0);
        assert(a.contains(b[0]));
        let p = choose|p: int| 0 <= p < a.len() && a[p] == b[0];
        assert(a[0].x <= a[p].x);
        assert(a[0].x == b[0].x);
        if p != 0 {
            assert(a[0].x != a[p].x);
            assert(false);
        }
        assert(a[0] == b[0]);
        let da = a.drop_first();
        let db = b.drop_first();
        assert(a.remove(0) =~= da);
        assert(b.remove(0) =~= db);
        assert(da.to_multiset() == a.to_multiset().remove(a[0]));
        assert(db.to_multiset() == b.to_multiset().remove(b[0]));
        assert(forall|k: int| 0 <= k < da.len() ==> da[k] == a[k + 1]);
        assert(forall|k: int| 0 <= k < db.len() ==> db[k] == b[k + 1]);
        assert(sorted_by_x(da));
        assert(sorted_by_x(db));
        assert(distinct_x(da));
        lemma_sorted_by_x_unique(da, db);
        assert forall|k: int| 0 <= k < a.len() implies a[k] == b[k] by {
            if k > 0 {
                assert(da[k - 1] == a[k]);
                assert(db[k - 1] == b[k]);
                assert(da[k - 1] == db[k - 1]);
            }
        }
        assert(a =~= b);
    }
}

/// Decoding is permutation-invariant: two detection sets with the same
/// contents, whose left edges are pairwise distinct, sort to the same
/// sequence and so decode to the same solution string.
pub proof fn lemma_sort_by_x_permutation_invariant(a: Seq<Detection>, b: Seq<Detection>)
    requires
        a.to_multiset() == b.to_multiset(),
        distinct_x(a),
    ensures
        sort_by_x(a) == sort_by_x(b),
{
    lemma_sort_by_x_sorted(a);
    lemma_sort_by_x_sorted(b);
    lemma_sort_by_x_multiset(a);
    lemma_sort_by_x_multiset(b);
    lemma_permutation_distinct(a, sort_by_x(a));
    lemma_sorted_by_x_unique(sort_by_x(a), sort_by_x(b));
}

/// Converts a filtered, spatially unordered detection set into the ordered
/// solution string.
///
/// Detections below `min_confidence` are discarded; if the survivors do not
/// number exactly `expected_length` the decode is rejected wholesale, never
/// truncated or padded. Survivors are read off in ascending order of their
/// bounding box's left edge, labels concatenated.
pub fn decode(detections: Vec<Detection>, min_confidence: u64, expected_length: usize) -> (r:
    Result<String, DecodeError>)
    ensures
        r is Ok <==> filter_confident(detections@, min_confidence).len() == expected_length,
        r matches Ok(s) ==> s@ == concat_labels(
            sort_by_x(filter_confident(detections@, min_confidence)),
        ),
        r matches Err(e) ==> e == (DecodeError::LengthMismatch {
            expected: expected_length,
            actual: filter_confident(detections@, min_confidence).len() as usize,
        }),
{
    let ghost orig = detections@;
    let mut input = detections;
    let mut kept: Vec<Detection> = Vec::new();
    proof {
        assert(filter_confident(orig, min_confidence)
            =~= kept@ + filter_confident(input@, min_confidence));
    }
    while input.len() > 0
        invariant
            filter_confident(orig, min_confidence)
                == kept@ + filter_confident(input@, min_confidence),
        decreases input.len(),
    {
        let ghost pre = input@;
        let ghost kept_pre = kept@;
        let d = input.remove(0);
        proof {
            assert(pre.remove(0) =~= pre.drop_first());
        }
        if d.confidence >= min_confidence {
            kept.push(d);
            proof {
                assert(kept@ + filter_confident(input@, min_confidence)
                    =~= kept_pre + filter_confident(pre, min_confidence));
            }
        }
    }
    proof {
        assert(filter_confident(orig, min_confidence) =~= kept@);
        lemma_filter_confident_len(orig, min_confidence);
    }
    if kept.len() != expected_length {
        return Err(DecodeError::LengthMismatch { expected: expected_length, actual: kept.len() });
    }
    let ghost keptseq = kept@;
    let mut sorted: Vec<Detection> = Vec::new();
    while kept.len() > 0
        invariant
            sort_from(sorted@, kept@) == sort_by_x(keptseq),
        decreases kept.len(),
    {
        let ghost sorted_pre = sorted@;
        let ghost kept_pre = kept@;
        let d = kept.remove(0);
        proof {
            assert(kept_pre.remove(0) =~= kept_pre.drop_first());
        }
        let mut j: usize = 0;
        while j < sorted.len() && sorted[j].x <= d.x
            invariant
                j <= sorted.len(),
                sorted@ == sorted_pre,
                forall|k: int| 0 <= k < j ==> #[trigger] sorted@[k].x <= d.x,
            decreases sorted.len() - j,
        {
            j = j + 1;
        }
        proof {
            lemma_insert_by_x_at(sorted@, d, j as int);
        }
        sorted.insert(j, d);
        proof {
            assert(sorted@ =~= sorted_pre.take(j as int) + seq![d] + sorted_pre.skip(j as int));
            assert(sorted@ == insert_by_x(sorted_pre, d));
        }
    }
    proof {
        assert(sorted@ == sort_by_x(keptseq));
    }
    let ghost sortedseq = sorted@;
    let mut out = String::new();
    while sorted.len() > 0
        invariant
            out@ + concat_labels(sorted@) == concat_labels(sortedseq),
        decreases sorted.len(),
    {
        let ghost pre = sorted@;
        let ghost out_pre = out@;
        let d = sorted.remove(0);
        proof {
            assert(pre.remove(0) =~= pre.drop_first());
        }
        out.append(d.label.as_str());
        proof {
            assert(out@ + concat_labels(sorted@) =~= out_pre + concat_labels(pre));
        }
    }
    proof {
        assert(out@ + concat_labels(sorted@) =~= out@);
    }
    Ok(out)
}

/// The decoder's configuration: the confidence a detection must reach to
/// count, and the number of symbols every challenge holds. The detection
/// model itself lives with the caller, which hands finished detection sets
/// to `solve`.
pub struct Aero2Solver {
    pub min_threshold: u64,
    pub expected_length: usize,
}

impl Aero2Solver {
    pub fn new(min_threshold: u64, expected_length: usize) -> (s: Self)
        ensures
            s.min_threshold == min_threshold,
            s.expected_length == expected_length,
    {
        Aero2Solver { min_threshold, expected_length }
    }

    /// Decodes one challenge's detection set under this configuration.
    pub fn solve(&self, detections: Vec<Detection>) -> (r: Result<String, DecodeError>)
        ensures
            r is Ok <==> filter_confident(detections@, self.min_threshold).len()
                == self.expected_length,
            r matches Ok(s) ==> s@ == concat_labels(
                sort_by_x(filter_confident(detections@, self.min_threshold)),
            ),
            r matches Err(e) ==> e == (DecodeError::LengthMismatch {
                expected: self.expected_length,
                actual: filter_confident(detections@, self.min_threshold).len() as usize,
            }),
    {
        decode(detections, self.min_threshold, self.expected_length)
    }
}

} // verus!
