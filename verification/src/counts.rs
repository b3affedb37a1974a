//! Counters that the collector keeps about itself.
use vstd::prelude::*;
use crate::labels;

verus! {

/// One increment of a counter of the collector's own.
#[derive(Debug)]
pub struct SelfCount {
    /// Counter name.
    pub name: String,
    /// How much to add.
    pub amount: usize,
    /// Label pairs, in the order in which they are attached.
    pub labels: Vec<(String, String)>,
}

/// What a [`SelfCount`] holds.
#[verifier::ext_equal]
pub struct CountView {
    pub name: Seq<char>,
    pub amount: nat,
    pub labels: Seq<labels::Pair>,
}

impl DeepView for SelfCount {
    type V = CountView;

    open spec fn deep_view(&self) -> CountView {
        CountView {
            name: self.name@,
            amount: self.amount as nat,
            labels: self.labels.deep_view(),
        }
    }
}

/// The counter `name` grows by `amount`, labelled by the target and a second
/// pair.
pub open spec fn count_of(
    name: Seq<char>,
    amount: nat,
    target: Seq<char>,
    key: Seq<char>,
    value: Seq<char>,
) -> CountView {
    CountView { name, amount, labels: seq![("target"@, target), (key, value)] }
}

/// An increment of `name` by `amount`, labelled by the target and a second pair.
pub fn self_count(name: &str, amount: usize, target: &str, key: &str, value: &str) -> (r: SelfCount)
    ensures
        r.deep_view() == count_of(name@, amount as nat, target@, key@, value@),
{
    let mut pairs: Vec<(String, String)> = Vec::new();
    pairs.push(("target".to_string(), target.to_string()));
    pairs.push((key.to_string(), value.to_string()));
    let r = SelfCount { name: name.to_string(), amount, labels: pairs };
    assert(r.deep_view() =~= count_of(name@, amount as nat, target@, key@, value@));
    r
}

/// The counter `name` grows by `amount`, labelled by the target alone.
pub open spec fn target_count_of(name: Seq<char>, amount: nat, target: Seq<char>) -> CountView {
    CountView { name, amount, labels: seq![("target"@, target)] }
}

/// An increment of `name` by `amount`, labelled by the target alone.
pub fn target_count(name: &str, amount: usize, target: &str) -> (r: SelfCount)
    ensures
        r.deep_view() == target_count_of(name@, amount as nat, target@),
{
    let mut pairs: Vec<(String, String)> = Vec::new();
    pairs.push(("target".to_string(), target.to_string()));
    let r = SelfCount { name: name.to_string(), amount, labels: pairs };
    assert(r.deep_view() =~= target_count_of(name@, amount as nat, target@));
    r
}

/// An increment is what its fields say.
pub proof fn law_count_view(c: SelfCount)
    ensures
        c.deep_view().name == c.name@,
        c.deep_view().amount == c.amount,
        c.deep_view().labels.len() == c.labels@.len(),
        forall|i: int|
            0 <= i < c.labels@.len() ==> #[trigger] c.deep_view().labels[i] == (
                c.labels@[i].0@,
                c.labels@[i].1@,
            ),
{
}

}
