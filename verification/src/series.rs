//! Labels and series, and the order of labels.

use vstd::prelude::*;

use crate::names;
use crate::stable::Ranked;
use crate::text;

verus! {

/// A label: a name with a value.
#[derive(Debug, PartialEq, Eq)]
pub struct Label {
    pub name: String,
    pub value: String,
}

/// A label as a plain value.
#[verifier::ext_equal]
pub struct LabelView {
    pub name: Seq<char>,
    pub value: Seq<char>,
}

impl View for Label {
    type V = LabelView;

    open spec fn view(&self) -> LabelView {
        LabelView { name: self.name@, value: self.value@ }
    }
}

impl Clone for Label {
    fn clone(&self) -> (copy: Label)
        ensures
            copy@ == self@,
    {
        Label { name: text::owned(self.name.as_str()), value: text::owned(self.value.as_str()) }
    }
}

impl Label {
    /// A label with this name and value.
    pub fn new(name: &str, value: &str) -> (label: Label)
        ensures
            label@ == (LabelView { name: name@, value: value@ }),
    {
        Label { name: text::owned(name), value: text::owned(value) }
    }
}

/// A series: the name of its metric and its labels.
#[derive(Debug, PartialEq, Eq)]
pub struct MetricSeries {
    pub name: String,
    pub labels: Vec<Label>,
}

/// The labels of a list as plain values.
pub open spec fn label_views(labels: Seq<Label>) -> Seq<LabelView> {
    crate::stable::views(labels)
}

/// A series as a plain value.
#[verifier::ext_equal]
pub struct MetricSeriesView {
    pub name: Seq<char>,
    pub labels: Seq<LabelView>,
}

impl View for MetricSeries {
    type V = MetricSeriesView;

    open spec fn view(&self) -> MetricSeriesView {
        MetricSeriesView { name: self.name@, labels: label_views(self.labels@) }
    }
}

/// Whether a label comes before another: by name, then by value.
pub open spec fn label_before(a: LabelView, b: LabelView) -> bool {
    text::text_less(a.name, b.name) || (a.name == b.name && text::text_less(a.value, b.value))
}

/// No label comes before itself.
pub proof fn lemma_label_irreflexive(a: LabelView)
    ensures
        !label_before(a, a),
{
    names::lemma_text_irreflexive(a.name);
    names::lemma_text_irreflexive(a.value);
}

/// The order of labels is transitive.
pub proof fn lemma_label_transitive(a: LabelView, b: LabelView, c: LabelView)
    requires
        label_before(a, b),
        label_before(b, c),
    ensures
        label_before(a, c),
{
    if text::text_less(a.name, b.name) && text::text_less(b.name, c.name) {
        names::lemma_text_transitive(a.name, b.name, c.name);
    }
    if text::text_less(a.value, b.value) && text::text_less(b.value, c.value) {
        names::lemma_text_transitive(a.value, b.value, c.value);
    }
}

/// Of two different labels one comes before the other.
pub proof fn lemma_label_total(a: LabelView, b: LabelView)
    requires
        a != b,
    ensures
        label_before(a, b) || label_before(b, a),
{
    if a.name != b.name {
        names::lemma_text_total(a.name, b.name);
    } else {
        names::lemma_text_total(a.value, b.value);
    }
}

impl Ranked for Label {
    open spec fn before(a: LabelView, b: LabelView) -> bool {
        label_before(a, b)
    }

    proof fn lemma_before_one_way(a: LabelView, b: LabelView) {
        if label_before(b, a) {
            lemma_label_transitive(a, b, a);
            lemma_label_irreflexive(a);
        }
    }

    proof fn lemma_before_ranks(a: LabelView, b: LabelView, c: LabelView) {
        if label_before(c, a) && a != b {
            lemma_label_total(a, b);
            lemma_label_transitive(c, a, b);
        }
    }

    fn goes_before(&self, other: &Label) -> (before: bool) {
        assert(<Label as Ranked>::before(self@, other@) == label_before(self@, other@));
        if names::comes_before(self.name.as_str(), other.name.as_str()) {
            return true;
        }
        names::same_text(self.name.as_str(), other.name.as_str()) && names::comes_before(
            self.value.as_str(),
            other.value.as_str(),
        )
    }
}

/// Whether a list of labels comes before another: at the first label in which they differ, or by
/// ending first.
pub open spec fn labels_before(a: Seq<LabelView>, b: Seq<LabelView>) -> bool
    decreases a.len(),
{
    if b.len() == 0 {
        false
    } else if a.len() == 0 {
        true
    } else if a[0] != b[0] {
        label_before(a[0], b[0])
    } else {
        labels_before(a.drop_first(), b.drop_first())
    }
}

/// No list of labels comes before itself.
pub proof fn lemma_labels_irreflexive(a: Seq<LabelView>)
    ensures
        !labels_before(a, a),
    decreases a.len(),
{
    if a.len() > 0 {
        lemma_labels_irreflexive(a.drop_first());
    }
}

/// The order of lists of labels is transitive.
pub proof fn lemma_labels_transitive(a: Seq<LabelView>, b: Seq<LabelView>, c: Seq<LabelView>)
    requires
        labels_before(a, b),
        labels_before(b, c),
    ensures
        labels_before(a, c),
    decreases a.len(),
{
    if a.len() > 0 {
        if a[0] == b[0] && b[0] == c[0] {
            lemma_labels_transitive(a.drop_first(), b.drop_first(), c.drop_first());
        } else if a[0] != b[0] && b[0] != c[0] {
            lemma_label_transitive(a[0], b[0], c[0]);
            if a[0] == c[0] {
                lemma_label_irreflexive(a[0]);
            }
        }
    }
}

/// Of two different lists of labels one comes before the other.
pub proof fn lemma_labels_total(a: Seq<LabelView>, b: Seq<LabelView>)
    requires
        a != b,
    ensures
        labels_before(a, b) || labels_before(b, a),
    decreases a.len(),
{
    if a.len() == 0 {
        if b.len() == 0 {
            assert(a =~= b);
        }
    } else if b.len() > 0 {
        if a[0] != b[0] {
            lemma_label_total(a[0], b[0]);
        } else {
            let x = a.drop_first();
            let y = b.drop_first();
            if x == y {
                assert(a =~= seq![a[0]] + x);
                assert(b =~= seq![b[0]] + y);
            }
            lemma_labels_total(x, y);
        }
    }
}

/// Lists of labels that agree up to a place are ordered as their rests are.
pub proof fn lemma_labels_common(a: Seq<LabelView>, b: Seq<LabelView>, n: int)
    requires
        0 <= n <= a.len(),
        n <= b.len(),
        forall|i: int| 0 <= i < n ==> a[i] == b[i],
    ensures
        labels_before(a, b) == labels_before(a.skip(n), b.skip(n)),
        a == b <==> a.skip(n) == b.skip(n),
    decreases n,
{
    if n == 0 {
        assert(a.skip(0) =~= a);
        assert(b.skip(0) =~= b);
    } else {
        let x = a.drop_first();
        let y = b.drop_first();
        lemma_labels_common(x, y, n - 1);
        assert(x.skip(n - 1) =~= a.skip(n));
        assert(y.skip(n - 1) =~= b.skip(n));
        assert(a[0] == b[0]);
        if x == y {
            assert(a =~= seq![a[0]] + x);
            assert(b =~= seq![b[0]] + y);
        }
    }
}

/// How two lists of labels are ordered.
#[derive(Debug, Clone, Copy, PartialEq, Eq, Structural)]
pub enum Rank {
    Before,
    Same,
    After,
}

/// Whether two labels are the same.
pub fn same_label(a: &Label, b: &Label) -> (same: bool)
    ensures
        same == (a@ == b@),
{
    names::same_text(a.name.as_str(), b.name.as_str()) && names::same_text(
        a.value.as_str(),
        b.value.as_str(),
    )
}

/// How two lists of labels are ordered.
pub fn rank_labels(a: &Vec<Label>, b: &Vec<Label>) -> (rank: Rank)
    ensures
        match rank {
            Rank::Before => labels_before(label_views(a@), label_views(b@)),
            Rank::Same => label_views(a@) == label_views(b@),
            Rank::After => labels_before(label_views(b@), label_views(a@)),
        },
{
    let ghost x = label_views(a@);
    let ghost y = label_views(b@);
    let mut i: usize = 0;
    while i < a.len() && i < b.len()
        invariant
            i <= a@.len(),
            i <= b@.len(),
            x == label_views(a@),
            y == label_views(b@),
            forall|k: int| 0 <= k < i ==> x[k] == y[k],
        decreases a@.len() - i,
    {
        if !same_label(&a[i], &b[i]) {
            proof {
                lemma_labels_common(x, y, i as int);
                lemma_labels_common(y, x, i as int);
                assert(x.skip(i as int)[0] == a@[i as int]@);
                assert(y.skip(i as int)[0] == b@[i as int]@);
                lemma_label_total(a@[i as int]@, b@[i as int]@);
            }
            if a[i].goes_before(&b[i]) {
                return Rank::Before;
            }
            return Rank::After;
        }
        proof {
            assert(x[i as int] == y[i as int]);
        }
        i = i + 1;
    }
    proof {
        lemma_labels_common(x, y, i as int);
        lemma_labels_common(y, x, i as int);
    }
    if i < b.len() {
        Rank::Before
    } else if i < a.len() {
        Rank::After
    } else {
        proof {
            assert(x =~= y);
        }
        Rank::Same
    }
}

/// Whether two series are the same.
pub fn same_series(a: &MetricSeries, b: &MetricSeries) -> (same: bool)
    ensures
        same == (a@ == b@),
{
    if !names::same_text(a.name.as_str(), b.name.as_str()) {
        return false;
    }
    match rank_labels(&a.labels, &b.labels) {
        Rank::Same => true,
        _ => {
            proof {
                lemma_labels_irreflexive(label_views(a.labels@));
            }
            false
        },
    }
}

} // verus!
