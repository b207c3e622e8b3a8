//! Keys that tell whether a record is already mirrored, and the index of the
//! keys of the stored datapoints.
use vstd::prelude::*;
use crate::datapoint::{CanonicalDatapoint, CanonicalModel, TargetDatapoint, TargetModel, target_models};

verus! {

/// How the records of a job are keyed.
#[derive(Clone, Copy, Debug, PartialEq, Eq, Structural)]
pub enum KeyStrategy {
    /// By the external identifier, where the source guarantees one per event.
    Identifier,
    /// By the exact instant, where two events are the same iff they start together.
    Timestamp,
    /// By the comment text, for facts that have no identity of their own.
    Label,
}

/// A dedup key.
#[derive(Debug)]
pub enum DedupKey {
    Id(String),
    At(i64),
    Label(String),
}

pub enum KeyModel {
    Id(Seq<char>),
    At(int),
    Label(Seq<char>),
}

impl View for DedupKey {
    type V = KeyModel;

    open spec fn view(&self) -> KeyModel {
        match self {
            DedupKey::Id(s) => KeyModel::Id(s@),
            DedupKey::At(t) => KeyModel::At(*t as int),
            DedupKey::Label(s) => KeyModel::Label(s@),
        }
    }
}

/// The view of an optional key.
pub open spec fn opt_key(k: Option<DedupKey>) -> Option<KeyModel> {
    match k {
        Some(k) => Some(k@),
        None => None,
    }
}

/// The key of a stored datapoint. A stored datapoint without a comment has
/// the empty label.
pub open spec fn stored_key(s: KeyStrategy, t: TargetModel) -> Option<KeyModel> {
    match s {
        KeyStrategy::Identifier => match t.external_id {
            Some(id) => Some(KeyModel::Id(id)),
            None => None,
        },
        KeyStrategy::Timestamp => Some(KeyModel::At(t.timestamp)),
        KeyStrategy::Label => match t.comment {
            Some(c) => Some(KeyModel::Label(c)),
            None => Some(KeyModel::Label(Seq::empty())),
        },
    }
}

/// The key of a datapoint to create; `None` where the record cannot be keyed.
pub open spec fn record_key(s: KeyStrategy, c: CanonicalModel) -> Option<KeyModel> {
    match s {
        KeyStrategy::Identifier => match c.external_id {
            Some(id) => Some(KeyModel::Id(id)),
            None => None,
        },
        KeyStrategy::Timestamp => match c.timestamp {
            Some(t) => Some(KeyModel::At(t)),
            None => None,
        },
        KeyStrategy::Label => Some(KeyModel::Label(c.comment)),
    }
}

/// A stored datapoint and the created one it mirrors share their key.
pub proof fn lemma_echo_shares_key(s: KeyStrategy, t: TargetModel, c: CanonicalModel)
    requires
        crate::datapoint::echoes(t, c),
        record_key(s, c) is Some,
    ensures
        stored_key(s, t) == record_key(s, c),
{
}

/// The keys of the stored datapoints.
pub open spec fn stored_keys(s: KeyStrategy, ex: Seq<TargetModel>) -> Set<KeyModel> {
    Set::new(|k: KeyModel| exists|i: int| 0 <= i < ex.len() && stored_key(s, ex[i]) == Some(k))
}

/// The key of a stored datapoint.
pub fn key_of_stored(s: KeyStrategy, t: &TargetDatapoint) -> (r: Option<DedupKey>)
    ensures
        opt_key(r) == stored_key(s, t@),
{
    match s {
        KeyStrategy::Identifier => match &t.external_id {
            Some(id) => Some(DedupKey::Id(id.clone())),
            None => None,
        },
        KeyStrategy::Timestamp => Some(DedupKey::At(t.timestamp)),
        KeyStrategy::Label => match &t.comment {
            Some(c) => Some(DedupKey::Label(c.clone())),
            None => Some(DedupKey::Label(String::new())),
        },
    }
}

/// The key of a datapoint to create.
pub fn key_of_record(s: KeyStrategy, c: &CanonicalDatapoint) -> (r: Option<DedupKey>)
    ensures
        opt_key(r) == record_key(s, c@),
{
    match s {
        KeyStrategy::Identifier => match &c.external_id {
            Some(id) => Some(DedupKey::Id(id.clone())),
            None => None,
        },
        KeyStrategy::Timestamp => match c.timestamp {
            Some(t) => Some(DedupKey::At(t)),
            None => None,
        },
        KeyStrategy::Label => Some(DedupKey::Label(c.comment.clone())),
    }
}

/// Whether two keys are equal.
pub fn same_key(a: &DedupKey, b: &DedupKey) -> (r: bool)
    ensures
        r == (a@ == b@),
{
    match (a, b) {
        (DedupKey::Id(x), DedupKey::Id(y)) => *x == *y,
        (DedupKey::At(x), DedupKey::At(y)) => *x == *y,
        (DedupKey::Label(x), DedupKey::Label(y)) => *x == *y,
        _ => false,
    }
}

/// Whether `k` is one of `keys`.
pub fn key_listed(keys: &Vec<DedupKey>, k: &DedupKey) -> (r: bool)
    ensures
        r == exists|i: int| 0 <= i < keys@.len() && keys@[i]@ == k@,
{
    let mut i: usize = 0;
    while i < keys.len()
        invariant
            i <= keys@.len(),
            forall|j: int| 0 <= j < i ==> keys@[j]@ != k@,
        decreases keys@.len() - i,
    {
        if same_key(&keys[i], k) {
            return true;
        }
        i = i + 1;
    }
    false
}

/// The set of the views of `keys`.
pub open spec fn key_set(keys: Seq<DedupKey>) -> Set<KeyModel> {
    Set::new(|k: KeyModel| exists|i: int| 0 <= i < keys.len() && keys[i]@ == k)
}

/// The keys of the datapoints already in the goal tracker.
pub struct DedupIndex {
    pub strategy: KeyStrategy,
    pub keys: Vec<DedupKey>,
}

impl View for DedupIndex {
    type V = Set<KeyModel>;

    open spec fn view(&self) -> Set<KeyModel> {
        key_set(self.keys@)
    }
}

impl DedupIndex {
    /// The index of the keys of `existing` under `strategy`.
    pub fn build(strategy: KeyStrategy, existing: &[TargetDatapoint]) -> (r: DedupIndex)
        ensures
            r.strategy == strategy,
            r@ == stored_keys(strategy, target_models(existing@)),
    {
        let mut keys: Vec<DedupKey> = Vec::new();
        let mut i: usize = 0;
        let ghost all = target_models(existing@);
        assert(key_set(keys@) =~= stored_keys(strategy, all.subrange(0, 0)));
        while i < existing.len()
            invariant
                i <= existing@.len(),
                all == target_models(existing@),
                key_set(keys@) == stored_keys(strategy, all.subrange(0, i as int)),
            decreases existing@.len() - i,
        {
            let key = key_of_stored(strategy, &existing[i]);
            let ghost old_keys = keys@;
            let ghost prev = all.subrange(0, i as int);
            let ghost next = all.subrange(0, i + 1);
            assert(next[i as int] == existing@[i as int]@);
            match key {
                Some(k) => {
                    keys.push(k);
                },
                None => {},
            }
            assert forall|m: KeyModel| #[trigger] key_set(keys@).contains(m) == stored_keys(strategy, next).contains(m) by {
                if key_set(keys@).contains(m) {
                    let j = choose|j: int| 0 <= j < keys@.len() && keys@[j]@ == m;
                    if j < old_keys.len() {
                        assert(old_keys[j]@ == m);
                        assert(key_set(old_keys).contains(m));
                        let q = choose|q: int| 0 <= q < prev.len() && stored_key(strategy, prev[q]) == Some(m);
                        assert(next[q] == prev[q]);
                    } else {
                        assert(stored_key(strategy, next[i as int]) == Some(m));
                    }
                }
                if stored_keys(strategy, next).contains(m) {
                    let q = choose|q: int| 0 <= q < next.len() && stored_key(strategy, next[q]) == Some(m);
                    if q < i {
                        assert(prev[q] == next[q]);
                        assert(stored_keys(strategy, prev).contains(m));
                        let j = choose|j: int| 0 <= j < old_keys.len() && old_keys[j]@ == m;
                        assert(keys@[j] == old_keys[j]);
                    } else {
                        assert(keys@[old_keys.len() as int]@ == m);
                    }
                }
            }
            assert(key_set(keys@) =~= stored_keys(strategy, next));
            i = i + 1;
        }
        assert(all.subrange(0, existing@.len() as int) =~= all);
        DedupIndex { strategy, keys }
    }

    /// Whether `k` is the key of a stored datapoint.
    pub fn contains(&self, k: &DedupKey) -> (r: bool)
        ensures
            r == self@.contains(k@),
    {
        key_listed(&self.keys, k)
    }
}

} // verus!
