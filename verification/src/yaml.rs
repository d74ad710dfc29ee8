//! YAML values.

use vstd::prelude::*;

verus! {

/// A YAML value.
#[derive(Debug)]
pub enum Yaml {
    /// A float, as it is spelled in the source.
    Real(String),
    /// An integer.
    Integer(i64),
    /// A text.
    String(String),
    /// A truth value.
    Boolean(bool),
    /// A sequence.
    Array(Vec<Yaml>),
    /// A mapping, in the order of its keys. The parser lets no key occur twice.
    Hash(Vec<(Yaml, Yaml)>),
    /// The null value.
    Null,
    /// A value that contradicts its tag.
    BadValue,
}

/// What a YAML value is, apart from how it is stored.
pub enum YamlView {
    Real(Seq<char>),
    Integer(int),
    String(Seq<char>),
    Boolean(bool),
    Array(Seq<YamlView>),
    Hash(Seq<(YamlView, YamlView)>),
    Null,
    BadValue,
}

/// The view of a value.
pub open spec fn yaml_view(yaml: Yaml) -> YamlView
    decreases yaml,
{
    match yaml {
        Yaml::Real(s) => YamlView::Real(s@),
        Yaml::Integer(i) => YamlView::Integer(i as int),
        Yaml::String(s) => YamlView::String(s@),
        Yaml::Boolean(b) => YamlView::Boolean(b),
        Yaml::Array(items) => YamlView::Array(
            Seq::new(
                items@.len(),
                |i: int|
                    if 0 <= i < items@.len() {
                        yaml_view(items@[i])
                    } else {
                        YamlView::Null
                    },
            ),
        ),
        Yaml::Hash(pairs) => YamlView::Hash(
            Seq::new(
                pairs@.len(),
                |i: int|
                    if 0 <= i < pairs@.len() {
                        (yaml_view(pairs@[i].0), yaml_view(pairs@[i].1))
                    } else {
                        (YamlView::Null, YamlView::Null)
                    },
            ),
        ),
        Yaml::Null => YamlView::Null,
        Yaml::BadValue => YamlView::BadValue,
    }
}

impl View for Yaml {
    type V = YamlView;

    open spec fn view(&self) -> YamlView {
        yaml_view(*self)
    }
}

/// The values of a sequence's items.
pub open spec fn item_views(items: Seq<Yaml>) -> Seq<YamlView> {
    Seq::new(items.len(), |i: int| yaml_view(items[i]))
}

/// The keys and values of a mapping.
pub open spec fn pair_views(pairs: Seq<(Yaml, Yaml)>) -> Seq<(YamlView, YamlView)> {
    Seq::new(pairs.len(), |i: int| (yaml_view(pairs[i].0), yaml_view(pairs[i].1)))
}

/// A sequence is made of its items.
pub proof fn lemma_array_view(items: Vec<Yaml>)
    ensures
        yaml_view(Yaml::Array(items)) == YamlView::Array(item_views(items@)),
{
    assert(yaml_view(Yaml::Array(items))->Array_0 =~= item_views(items@));
}

/// A mapping is made of its pairs.
pub proof fn lemma_hash_view(pairs: Vec<(Yaml, Yaml)>)
    ensures
        yaml_view(Yaml::Hash(pairs)) == YamlView::Hash(pair_views(pairs@)),
{
    assert(yaml_view(Yaml::Hash(pairs))->Hash_0 =~= pair_views(pairs@));
}

/// The pairs whose key is not `key`, in their order.
pub open spec fn without_key(pairs: Seq<(YamlView, YamlView)>, key: YamlView) -> Seq<
    (YamlView, YamlView),
>
    decreases pairs.len(),
{
    if pairs.len() == 0 {
        pairs
    } else if pairs.last().0 == key {
        without_key(pairs.drop_last(), key)
    } else {
        without_key(pairs.drop_last(), key).push(pairs.last())
    }
}

/// A mapping with one more pair. A key that is there already gives way: it moves
/// to the end and gets the new value.
pub open spec fn insert_pair(
    pairs: Seq<(YamlView, YamlView)>,
    key: YamlView,
    value: YamlView,
) -> Seq<(YamlView, YamlView)> {
    without_key(pairs, key).push((key, value))
}

/// The mapping that holds the given pairs, inserted one after the other.
pub open spec fn collect_pairs(pairs: Seq<(YamlView, YamlView)>) -> Seq<(YamlView, YamlView)>
    decreases pairs.len(),
{
    if pairs.len() == 0 {
        pairs
    } else {
        insert_pair(collect_pairs(pairs.drop_last()), pairs.last().0, pairs.last().1)
    }
}

/// Whether no key occurs twice.
pub open spec fn distinct_keys(pairs: Seq<(YamlView, YamlView)>) -> bool {
    forall|i: int, j: int| 0 <= i < j < pairs.len() ==> #[trigger] pairs[i].0 != #[trigger] pairs[j].0
}

/// Whether `key` occurs among the keys.
pub open spec fn has_key(pairs: Seq<(YamlView, YamlView)>, key: YamlView) -> bool {
    exists|i: int| 0 <= i < pairs.len() && #[trigger] pairs[i].0 == key
}

proof fn lemma_without_key_absent(pairs: Seq<(YamlView, YamlView)>, key: YamlView)
    requires
        !has_key(pairs, key),
    ensures
        without_key(pairs, key) == pairs,
    decreases pairs.len(),
{
    if pairs.len() > 0 {
        let front = pairs.drop_last();
        assert(pairs[pairs.len() - 1].0 != key);
        assert forall|i: int| 0 <= i < front.len() implies #[trigger] front[i].0 != key by {
            assert(front[i] == pairs[i]);
        }
        lemma_without_key_absent(front, key);
        assert(front.push(pairs.last()) =~= pairs);
    }
}

proof fn lemma_without_key_at(pairs: Seq<(YamlView, YamlView)>, key: YamlView, at: int)
    requires
        0 <= at < pairs.len(),
        pairs[at].0 == key,
        distinct_keys(pairs),
    ensures
        without_key(pairs, key) == pairs.remove(at),
    decreases pairs.len(),
{
    let front = pairs.drop_last();
    if at == pairs.len() - 1 {
        assert forall|i: int| 0 <= i < front.len() implies #[trigger] front[i].0 != key by {
            assert(front[i] == pairs[i]);
        }
        lemma_without_key_absent(front, key);
        assert(pairs.remove(at) =~= front);
    } else {
        assert(pairs[pairs.len() - 1].0 != key);
        assert forall|i: int, j: int| 0 <= i < j < front.len() implies #[trigger] front[i].0
            != #[trigger] front[j].0 by {
            assert(front[i] == pairs[i] && front[j] == pairs[j]);
        }
        lemma_without_key_at(front, key, at);
        assert(pairs.remove(at) =~= front.remove(at).push(pairs.last()));
    }
}

proof fn lemma_without_key(pairs: Seq<(YamlView, YamlView)>, key: YamlView)
    ensures
        !has_key(without_key(pairs, key), key),
        distinct_keys(pairs) ==> distinct_keys(without_key(pairs, key)),
        forall|k: YamlView|
            #[trigger] has_key(without_key(pairs, key), k) <==> k != key && has_key(pairs, k),
    decreases pairs.len(),
{
    if pairs.len() > 0 {
        let front = pairs.drop_last();
        let kept = without_key(front, key);
        lemma_without_key(front, key);
        assert forall|k: YamlView| #[trigger]
            has_key(without_key(pairs, key), k) <==> k != key && has_key(pairs, k) by {
            let whole = without_key(pairs, key);
            if has_key(whole, k) {
                let i = choose|i: int| 0 <= i < whole.len() && #[trigger] whole[i].0 == k;
                if i < kept.len() {
                    assert(kept[i].0 == k);
                    assert(has_key(kept, k));
                    let j = choose|j: int| 0 <= j < front.len() && #[trigger] front[j].0 == k;
                    assert(pairs[j].0 == k);
                } else {
                    assert(pairs[pairs.len() - 1].0 == k);
                }
            }
            if k != key && has_key(pairs, k) {
                let i = choose|i: int| 0 <= i < pairs.len() && #[trigger] pairs[i].0 == k;
                if i < front.len() {
                    assert(front[i].0 == k);
                    assert(has_key(kept, k));
                    let j = choose|j: int| 0 <= j < kept.len() && #[trigger] kept[j].0 == k;
                    assert(whole[j].0 == k);
                } else {
                    assert(whole[whole.len() - 1].0 == k);
                }
            }
        }
        if distinct_keys(pairs) {
            assert(distinct_keys(front)) by {
                assert forall|i: int, j: int| 0 <= i < j < front.len() implies #[trigger] front[i].0
                    != #[trigger] front[j].0 by {
                    assert(front[i] == pairs[i] && front[j] == pairs[j]);
                }
            }
            if pairs.last().0 != key {
                let whole = kept.push(pairs.last());
                assert forall|i: int, j: int| 0 <= i < j < whole.len() implies #[trigger] whole[i].0
                    != #[trigger] whole[j].0 by {
                    assert(whole[i] == kept[i]);
                    if j < kept.len() {
                        assert(whole[j] == kept[j]);
                    } else {
                        assert(has_key(kept, kept[i].0));
                        let n = choose|n: int|
                            0 <= n < front.len() && #[trigger] front[n].0 == kept[i].0;
                        assert(pairs[n].0 != pairs[pairs.len() - 1].0);
                    }
                }
            }
        }
    }
}

proof fn lemma_insert_pair(pairs: Seq<(YamlView, YamlView)>, key: YamlView, value: YamlView)
    requires
        distinct_keys(pairs),
    ensures
        distinct_keys(insert_pair(pairs, key, value)),
        forall|k: YamlView|
            #[trigger] has_key(insert_pair(pairs, key, value), k) <==> k == key || has_key(
                pairs,
                k,
            ),
{
    let kept = without_key(pairs, key);
    let whole = insert_pair(pairs, key, value);
    lemma_without_key(pairs, key);
    assert forall|i: int, j: int| 0 <= i < j < whole.len() implies #[trigger] whole[i].0
        != #[trigger] whole[j].0 by {
        assert(whole[i] == kept[i]);
        if j < kept.len() {
            assert(whole[j] == kept[j]);
        }
    }
    assert forall|k: YamlView| #[trigger] has_key(whole, k) <==> k == key || has_key(pairs, k) by {
        if has_key(whole, k) && k != key {
            let i = choose|i: int| 0 <= i < whole.len() && #[trigger] whole[i].0 == k;
            assert(kept[i].0 == k);
            assert(has_key(kept, k));
        }
        if k == key {
            assert(whole[whole.len() - 1].0 == k);
        } else if has_key(pairs, k) {
            assert(has_key(kept, k));
            let i = choose|i: int| 0 <= i < kept.len() && #[trigger] kept[i].0 == k;
            assert(whole[i].0 == k);
        }
    }
}

/// A mapping holds each key of its pairs, and holds it once.
pub proof fn law_mapping_holds_each_key_once(pairs: Seq<(YamlView, YamlView)>)
    ensures
        distinct_keys(collect_pairs(pairs)),
        forall|k: YamlView| #[trigger] has_key(collect_pairs(pairs), k) <==> has_key(pairs, k),
    decreases pairs.len(),
{
    if pairs.len() > 0 {
        let front = pairs.drop_last();
        law_mapping_holds_each_key_once(front);
        lemma_insert_pair(collect_pairs(front), pairs.last().0, pairs.last().1);
        assert forall|k: YamlView| #[trigger] has_key(collect_pairs(pairs), k) <==> has_key(
            pairs,
            k,
        ) by {
            if has_key(collect_pairs(pairs), k) {
                if k == pairs.last().0 {
                    assert(pairs[pairs.len() - 1].0 == k);
                } else {
                    assert(has_key(collect_pairs(front), k));
                    let i = choose|i: int| 0 <= i < front.len() && #[trigger] front[i].0 == k;
                    assert(pairs[i].0 == k);
                }
            }
            if has_key(pairs, k) {
                let i = choose|i: int| 0 <= i < pairs.len() && #[trigger] pairs[i].0 == k;
                if i < front.len() {
                    assert(front[i].0 == k);
                    assert(has_key(front, k));
                    assert(has_key(collect_pairs(front), k));
                }
            }
        }
    }
}

proof fn lemma_without_key_keeps(
    pairs: Seq<(YamlView, YamlView)>,
    key: YamlView,
    pair: (YamlView, YamlView),
)
    requires
        pairs.contains(pair),
        pair.0 != key,
    ensures
        without_key(pairs, key).contains(pair),
    decreases pairs.len(),
{
    let front = pairs.drop_last();
    let whole = without_key(pairs, key);
    let i = choose|i: int| 0 <= i < pairs.len() && pairs[i] == pair;
    if i == pairs.len() - 1 {
        assert(whole[whole.len() - 1] == pair);
    } else {
        assert(front[i] == pair);
        lemma_without_key_keeps(front, key, pair);
        let kept = without_key(front, key);
        let j = choose|j: int| 0 <= j < kept.len() && kept[j] == pair;
        assert(whole[j] == pair);
    }
}

/// Of the pairs with one key, the mapping keeps the last one.
pub proof fn law_last_pair_wins(pairs: Seq<(YamlView, YamlView)>, i: int)
    requires
        0 <= i < pairs.len(),
        forall|j: int| i < j < pairs.len() ==> (#[trigger] pairs[j]).0 != pairs[i].0,
    ensures
        collect_pairs(pairs).contains(pairs[i]),
    decreases pairs.len(),
{
    let front = pairs.drop_last();
    let whole = collect_pairs(pairs);
    if i == pairs.len() - 1 {
        assert(whole[whole.len() - 1] == pairs[i]);
    } else {
        let last = pairs[pairs.len() - 1];
        assert(front[i] == pairs[i]);
        law_last_pair_wins(front, i);
        lemma_without_key_keeps(collect_pairs(front), last.0, pairs[i]);
        let kept = without_key(collect_pairs(front), last.0);
        let j = choose|j: int| 0 <= j < kept.len() && kept[j] == pairs[i];
        assert(whole[j] == pairs[i]);
    }
}

/// Distinct keys stay as they are, in their order.
pub proof fn law_distinct_keys_keep_their_order(pairs: Seq<(YamlView, YamlView)>)
    requires
        distinct_keys(pairs),
    ensures
        collect_pairs(pairs) == pairs,
    decreases pairs.len(),
{
    if pairs.len() > 0 {
        let front = pairs.drop_last();
        assert forall|i: int, j: int| 0 <= i < j < front.len() implies #[trigger] front[i].0
            != #[trigger] front[j].0 by {
            assert(front[i] == pairs[i] && front[j] == pairs[j]);
        }
        law_distinct_keys_keep_their_order(front);
        assert forall|i: int| 0 <= i < front.len() implies #[trigger] front[i].0
            != pairs.last().0 by {
            assert(front[i] == pairs[i]);
            assert(pairs[i].0 != pairs[pairs.len() - 1].0);
        }
        lemma_without_key_absent(front, pairs.last().0);
        assert(front.push(pairs.last()) =~= pairs);
    }
}

proof fn lemma_without_key_filters(pairs: Seq<(YamlView, YamlView)>, key: YamlView)
    ensures
        without_key(pairs, key) == pairs.filter(|pair: (YamlView, YamlView)| pair.0 != key),
    decreases pairs.len(),
{
    reveal(Seq::filter);
    if pairs.len() > 0 {
        lemma_without_key_filters(pairs.drop_last(), key);
    }
}

/// A pair that is inserted stands at the end, even where its key was there before. Before it stand
/// the pairs with other keys, in the order that they had.
pub proof fn law_inserted_pair_stands_at_the_end(
    pairs: Seq<(YamlView, YamlView)>,
    key: YamlView,
    value: YamlView,
)
    ensures
        insert_pair(pairs, key, value).last() == (key, value),
        insert_pair(pairs, key, value).drop_last() == pairs.filter(
            |pair: (YamlView, YamlView)| pair.0 != key,
        ),
{
    lemma_without_key_filters(pairs, key);
    assert(insert_pair(pairs, key, value).drop_last() =~= without_key(pairs, key));
}

impl Clone for Yaml {
    fn clone(&self) -> (res: Self)
        ensures
            res@ == self@,
        decreases self,
    {
        match self {
            Yaml::Real(s) => Yaml::Real(s.clone()),
            Yaml::Integer(i) => Yaml::Integer(*i),
            Yaml::String(s) => Yaml::String(s.clone()),
            Yaml::Boolean(b) => Yaml::Boolean(*b),
            Yaml::Array(items) => {
                let mut copy: Vec<Yaml> = Vec::new();
                let mut i: usize = 0;
                while i < items.len()
                    invariant
                        self matches Yaml::Array(own) && own == items,
                        i <= items@.len(),
                        copy@.len() == i,
                        forall|j: int| 0 <= j < i ==> yaml_view(#[trigger] copy@[j]) == yaml_view(
                            items@[j],
                        ),
                    decreases items.len() - i,
                {
                    copy.push(items[i].clone());
                    i += 1;
                }
                proof {
                    lemma_array_view(copy);
                    lemma_array_view(*items);
                    assert(item_views(copy@) =~= item_views(items@));
                }
                Yaml::Array(copy)
            },
            Yaml::Hash(pairs) => {
                let mut copy: Vec<(Yaml, Yaml)> = Vec::new();
                let mut i: usize = 0;
                while i < pairs.len()
                    invariant
                        self matches Yaml::Hash(own) && own == pairs,
                        i <= pairs@.len(),
                        copy@.len() == i,
                        forall|j: int|
                            0 <= j < i ==> yaml_view((#[trigger] copy@[j]).0) == yaml_view(
                                pairs@[j].0,
                            ) && yaml_view(copy@[j].1) == yaml_view(pairs@[j].1),
                    decreases pairs.len() - i,
                {
                    let key = pairs[i].0.clone();
                    let value = pairs[i].1.clone();
                    copy.push((key, value));
                    i += 1;
                }
                proof {
                    lemma_hash_view(copy);
                    lemma_hash_view(*pairs);
                    assert(pair_views(copy@) =~= pair_views(pairs@));
                }
                Yaml::Hash(copy)
            },
            Yaml::Null => Yaml::Null,
            Yaml::BadValue => Yaml::BadValue,
        }
    }
}

/// Whether two values are the same.
fn same_yaml(a: &Yaml, b: &Yaml) -> (same: bool)
    ensures
        same == (a@ == b@),
    decreases a,
{
    match (a, b) {
        (Yaml::Real(x), Yaml::Real(y)) => *x == *y,
        (Yaml::Integer(x), Yaml::Integer(y)) => *x == *y,
        (Yaml::String(x), Yaml::String(y)) => *x == *y,
        (Yaml::Boolean(x), Yaml::Boolean(y)) => *x == *y,
        (Yaml::Array(x), Yaml::Array(y)) => {
            proof {
                lemma_array_view(*x);
                lemma_array_view(*y);
            }
            if x.len() != y.len() {
                assert(item_views(x@).len() != item_views(y@).len());
                return false;
            }
            let mut i: usize = 0;
            while i < x.len()
                invariant
                    *a matches Yaml::Array(own) && own == *x,
                    x@.len() == y@.len(),
                    i <= x@.len(),
                    a@ == YamlView::Array(item_views(x@)),
                    b@ == YamlView::Array(item_views(y@)),
                    forall|j: int| 0 <= j < i ==> yaml_view(#[trigger] x@[j]) == yaml_view(y@[j]),
                decreases x.len() - i,
            {
                if !same_yaml(&x[i], &y[i]) {
                    assert(item_views(x@)[i as int] != item_views(y@)[i as int]);
                    return false;
                }
                i += 1;
            }
            assert(item_views(x@) =~= item_views(y@));
            true
        },
        (Yaml::Hash(x), Yaml::Hash(y)) => {
            proof {
                lemma_hash_view(*x);
                lemma_hash_view(*y);
            }
            if x.len() != y.len() {
                assert(pair_views(x@).len() != pair_views(y@).len());
                return false;
            }
            let mut i: usize = 0;
            while i < x.len()
                invariant
                    *a matches Yaml::Hash(own) && own == *x,
                    x@.len() == y@.len(),
                    i <= x@.len(),
                    a@ == YamlView::Hash(pair_views(x@)),
                    b@ == YamlView::Hash(pair_views(y@)),
                    forall|j: int|
                        0 <= j < i ==> yaml_view((#[trigger] x@[j]).0) == yaml_view(y@[j].0)
                            && yaml_view(x@[j].1) == yaml_view(y@[j].1),
                decreases x.len() - i,
            {
                if !(same_yaml(&x[i].0, &y[i].0) && same_yaml(&x[i].1, &y[i].1)) {
                    assert(pair_views(x@)[i as int] != pair_views(y@)[i as int]);
                    return false;
                }
                i += 1;
            }
            assert(pair_views(x@) =~= pair_views(y@));
            true
        },
        (Yaml::Null, Yaml::Null) => true,
        (Yaml::BadValue, Yaml::BadValue) => true,
        _ => false,
    }
}

impl PartialEq for Yaml {
    fn eq(&self, other: &Self) -> (same: bool) {
        same_yaml(self, other)
    }
}

impl vstd::std_specs::cmp::PartialEqSpecImpl for Yaml {
    open spec fn obeys_eq_spec() -> bool {
        true
    }

    open spec fn eq_spec(&self, other: &Self) -> bool {
        self@ == other@
    }
}

impl Eq for Yaml {

}

impl Yaml {
    /// The text, if this is one.
    pub fn as_str(&self) -> (text: Option<&str>)
        ensures
            match text {
                Some(s) => self@ == YamlView::String(s@),
                None => !(self@ is String),
            },
    {
        match self {
            Yaml::String(s) => Some(s.as_str()),
            _ => None,
        }
    }

    /// The integer, if this is one.
    pub fn as_i64(&self) -> (number: Option<i64>)
        ensures
            match number {
                Some(i) => self@ == YamlView::Integer(i as int),
                None => !(self@ is Integer),
            },
    {
        match self {
            Yaml::Integer(i) => Some(*i),
            _ => None,
        }
    }

    /// The truth value, if this is one.
    pub fn as_bool(&self) -> (truth: Option<bool>)
        ensures
            match truth {
                Some(b) => self@ == YamlView::Boolean(b),
                None => !(self@ is Boolean),
            },
    {
        match self {
            Yaml::Boolean(b) => Some(*b),
            _ => None,
        }
    }
}

/// Adds a pair to a mapping. A key that is there already gives way.
pub fn insert_into_hash(pairs: &mut Vec<(Yaml, Yaml)>, key: Yaml, value: Yaml)
    requires
        distinct_keys(pair_views(old(pairs)@)),
    ensures
        pair_views(final(pairs)@) == insert_pair(pair_views(old(pairs)@), key@, value@),
        distinct_keys(pair_views(final(pairs)@)),
{
    let ghost before = pair_views(pairs@);
    proof {
        lemma_insert_pair(before, key@, value@);
    }
    let mut i: usize = 0;
    while i < pairs.len() && !same_yaml(&pairs[i].0, &key)
        invariant
            i <= pairs@.len(),
            pair_views(pairs@) == before,
            forall|j: int| 0 <= j < i ==> #[trigger] before[j].0 != key@,
        decreases pairs.len() - i,
    {
        assert(before[i as int].0 != key@);
        i += 1;
    }
    if i < pairs.len() {
        proof {
            assert(before[i as int].0 == key@);
            lemma_without_key_at(before, key@, i as int);
        }
        pairs.remove(i);
        assert(pair_views(pairs@) =~= before.remove(i as int));
    } else {
        proof {
            lemma_without_key_absent(before, key@);
        }
    }
    let ghost kept = pair_views(pairs@);
    pairs.push((key, value));
    assert(pair_views(pairs@) =~= kept.push((key@, value@)));
}

} // verus!
