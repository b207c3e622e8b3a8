//! Append-only reconciliation: which mapped records are created, and in
//! which order.
use vstd::prelude::*;
use crate::datapoint::{
    CanonicalDatapoint, CanonicalModel, MappingError, TargetDatapoint, TargetModel,
    canonical_models, echoes, target_models,
};
use crate::dedup::{
    DedupIndex, DedupKey, KeyModel, KeyStrategy, key_listed, key_of_record, key_set,
    record_key, stored_key, stored_keys,
};

verus! {

/// The order of creation: a record without an instant comes before every
/// record with one.
pub open spec fn time_le(a: Option<int>, b: Option<int>) -> bool {
    match (a, b) {
        (None, _) => true,
        (Some(_), None) => false,
        (Some(x), Some(y)) => x <= y,
    }
}

/// Whether `a` may be created no later than `b`.
pub fn not_later(a: Option<i64>, b: Option<i64>) -> (r: bool)
    ensures
        r == time_le(
            match a {
                Some(x) => Some(x as int),
                None => None,
            },
            match b {
                Some(x) => Some(x as int),
                None => None,
            },
        ),
{
    match (a, b) {
        (None, _) => true,
        (Some(_), None) => false,
        (Some(x), Some(y)) => x <= y,
    }
}

/// The records that mapped, in their order.
pub open spec fn ok_records(m: Seq<Result<CanonicalDatapoint, MappingError>>) -> Seq<
    CanonicalModel,
>
    decreases m.len(),
{
    if m.len() == 0 {
        seq![]
    } else {
        let p = ok_records(m.drop_last());
        match m.last() {
            Ok(c) => p.push(c@),
            Err(_) => p,
        }
    }
}

/// The mapping failures, in their order.
pub open spec fn mapping_errors(m: Seq<Result<CanonicalDatapoint, MappingError>>) -> Seq<
    MappingError,
>
    decreases m.len(),
{
    if m.len() == 0 {
        seq![]
    } else {
        let p = mapping_errors(m.drop_last());
        match m.last() {
            Ok(_) => p,
            Err(e) => p.push(e),
        }
    }
}

/// The keys of some records.
pub open spec fn record_keys(s: KeyStrategy, cs: Seq<CanonicalModel>) -> Set<KeyModel> {
    Set::new(|k: KeyModel| exists|i: int| 0 <= i < cs.len() && record_key(s, cs[i]) == Some(k))
}

/// The records to create: each keyed record whose key is neither in `seen`
/// nor the key of an earlier record of the batch.
pub open spec fn fresh_records(s: KeyStrategy, cs: Seq<CanonicalModel>, seen: Set<KeyModel>) -> Seq<
    CanonicalModel,
>
    decreases cs.len(),
{
    if cs.len() == 0 {
        seq![]
    } else {
        let p = fresh_records(s, cs.drop_last(), seen);
        let c = cs.last();
        match record_key(s, c) {
            Some(k) => if !seen.contains(k) && !record_keys(s, p).contains(k) {
                p.push(c)
            } else {
                p
            },
            None => p,
        }
    }
}

/// `c` placed into `s` after every record that is not later than it.
pub open spec fn insert_by_time(s: Seq<CanonicalModel>, c: CanonicalModel) -> Seq<CanonicalModel>
    decreases s.len(),
{
    if s.len() == 0 {
        seq![c]
    } else if time_le(s.last().timestamp, c.timestamp) {
        s.push(c)
    } else {
        insert_by_time(s.drop_last(), c).push(s.last())
    }
}

/// The records in order of time; records at the same time keep their order.
pub open spec fn sorted_by_time(s: Seq<CanonicalModel>) -> Seq<CanonicalModel>
    decreases s.len(),
{
    if s.len() == 0 {
        s
    } else {
        insert_by_time(sorted_by_time(s.drop_last()), s.last())
    }
}

/// The creations of an append-only run: the records not yet mirrored,
/// oldest first.
pub open spec fn creation_plan(
    s: KeyStrategy,
    records: Seq<CanonicalModel>,
    existing: Seq<TargetModel>,
) -> Seq<CanonicalModel> {
    sorted_by_time(fresh_records(s, records, stored_keys(s, existing)))
}

/// What an append-only run does.
#[derive(Debug)]
pub struct AppendPlan {
    /// The datapoints to create, in this order.
    pub creations: Vec<CanonicalDatapoint>,
    /// The records that could not be mapped; the others are still created.
    pub rejected: Vec<MappingError>,
}

proof fn lemma_insert_at(s: Seq<CanonicalModel>, c: CanonicalModel, pos: int)
    requires
        0 <= pos <= s.len(),
        pos == 0 || time_le(s[pos - 1].timestamp, c.timestamp),
        forall|j: int| pos <= j < s.len() ==> !time_le(#[trigger] s[j].timestamp, c.timestamp),
    ensures
        insert_by_time(s, c) == s.insert(pos, c),
    decreases s.len(),
{
    if s.len() == 0 {
        assert(s.insert(pos, c) =~= seq![c]);
    } else if pos == s.len() {
        assert(s.insert(pos, c) =~= s.push(c));
    } else {
        assert(!time_le(s[s.len() - 1].timestamp, c.timestamp));
        let t = s.drop_last();
        lemma_insert_at(t, c, pos);
        assert(t.insert(pos, c).push(s.last()) =~= s.insert(pos, c));
    }
}

/// Places `c` into `out` after every datapoint that is not later than it.
fn insert_in_time_order(out: &mut Vec<CanonicalDatapoint>, c: CanonicalDatapoint)
    ensures
        canonical_models(final(out)@) == insert_by_time(canonical_models(old(out)@), c@),
{
    let mut pos = out.len();
    while pos > 0 && !not_later(out[pos - 1].timestamp, c.timestamp)
        invariant
            pos <= out@.len(),
            forall|j: int|
                pos <= j < out@.len() ==> !time_le(
                    #[trigger] canonical_models(out@)[j].timestamp,
                    c@.timestamp,
                ),
        decreases pos,
    {
        pos = pos - 1;
    }
    let ghost before = canonical_models(out@);
    let ghost cm = c@;
    proof {
        if pos > 0 {
            assert(before[pos - 1] == out@[pos - 1]@);
        }
        lemma_insert_at(before, cm, pos as int);
    }
    out.insert(pos, c);
    assert(canonical_models(out@) =~= before.insert(pos as int, cm));
}

/// Plans an append-only run: keeps each mapped record whose key is not among
/// the stored datapoints' keys nor the key of an earlier record, and orders
/// the kept ones by time, oldest first. Records that failed to map are
/// reported and do not stop the others.
pub fn plan_append(
    strategy: KeyStrategy,
    mapped: &[Result<CanonicalDatapoint, MappingError>],
    existing: &[TargetDatapoint],
) -> (r: AppendPlan)
    ensures
        canonical_models(r.creations@) == creation_plan(
            strategy,
            ok_records(mapped@),
            target_models(existing@),
        ),
        r.rejected@ == mapping_errors(mapped@),
{
    let index = DedupIndex::build(strategy, existing);
    let ghost seen = stored_keys(strategy, target_models(existing@));
    let mut kept: Vec<CanonicalDatapoint> = Vec::new();
    let mut kept_keys: Vec<DedupKey> = Vec::new();
    let mut rejected: Vec<MappingError> = Vec::new();
    let mut i: usize = 0;
    assert(mapped@.subrange(0, 0) =~= Seq::<Result<CanonicalDatapoint, MappingError>>::empty());
    assert(key_set(kept_keys@) =~= record_keys(strategy, canonical_models(kept@)));
    while i < mapped.len()
        invariant
            i <= mapped@.len(),
            index@ == seen,
            canonical_models(kept@) == fresh_records(
                strategy,
                ok_records(mapped@.subrange(0, i as int)),
                seen,
            ),
            key_set(kept_keys@) == record_keys(strategy, canonical_models(kept@)),
            rejected@ == mapping_errors(mapped@.subrange(0, i as int)),
        decreases mapped@.len() - i,
    {
        let ghost prefix = mapped@.subrange(0, i as int);
        let ghost next = mapped@.subrange(0, i + 1);
        assert(next.drop_last() =~= prefix);
        assert(next.last() == mapped@[i as int]);
        match &mapped[i] {
            Ok(c) => {
                let ghost p = canonical_models(kept@);
                assert(ok_records(next) == ok_records(prefix).push(c@));
                assert(ok_records(next).drop_last() =~= ok_records(prefix));
                let key = key_of_record(strategy, c);
                match key {
                    Some(k) => {
                        let known = index.contains(&k);
                        let repeated = key_listed(&kept_keys, &k);
                        if !known && !repeated {
                            let ghost old_keys = kept_keys@;
                            kept.push(c.copy());
                            kept_keys.push(k);
                            let ghost q = canonical_models(kept@);
                            assert(q =~= p.push(c@));
                            assert forall|m: KeyModel| #[trigger] key_set(kept_keys@).contains(m)
                                == record_keys(strategy, q).contains(m) by {
                                if key_set(kept_keys@).contains(m) {
                                    let j = choose|j: int| 0 <= j < kept_keys@.len() && kept_keys@[j]@ == m;
                                    if j < old_keys.len() {
                                        assert(old_keys[j]@ == m);
                                        assert(key_set(old_keys).contains(m));
                                        let w = choose|w: int| 0 <= w < p.len() && record_key(strategy, p[w]) == Some(m);
                                        assert(q[w] == p[w]);
                                    } else {
                                        assert(record_key(strategy, q[p.len() as int]) == Some(m));
                                    }
                                }
                                if record_keys(strategy, q).contains(m) {
                                    let w = choose|w: int| 0 <= w < q.len() && record_key(strategy, q[w]) == Some(m);
                                    if w < p.len() {
                                        assert(p[w] == q[w]);
                                        assert(record_keys(strategy, p).contains(m));
                                        let j = choose|j: int| 0 <= j < old_keys.len() && old_keys[j]@ == m;
                                        assert(kept_keys@[j] == old_keys[j]);
                                    } else {
                                        assert(kept_keys@[old_keys.len() as int]@ == m);
                                    }
                                }
                            }
                            assert(key_set(kept_keys@) =~= record_keys(strategy, q));
                        } else {
                            assert(known ==> seen.contains(k@));
                            assert(repeated ==> key_set(kept_keys@).contains(k@));
                        }
                    },
                    None => {},
                }
            },
            Err(e) => {
                rejected.push(*e);
                assert(ok_records(next) == ok_records(prefix));
            },
        }
        i = i + 1;
    }
    assert(mapped@.subrange(0, mapped@.len() as int) =~= mapped@);
    let ghost fresh = canonical_models(kept@);
    let mut creations: Vec<CanonicalDatapoint> = Vec::new();
    let mut j: usize = 0;
    assert(fresh.subrange(0, 0) =~= Seq::<CanonicalModel>::empty());
    assert(canonical_models(creations@) =~= Seq::<CanonicalModel>::empty());
    while j < kept.len()
        invariant
            j <= kept@.len(),
            fresh == canonical_models(kept@),
            canonical_models(creations@) == sorted_by_time(fresh.subrange(0, j as int)),
        decreases kept@.len() - j,
    {
        let ghost next = fresh.subrange(0, j + 1);
        assert(next.drop_last() =~= fresh.subrange(0, j as int));
        assert(next.last() == kept@[j as int]@);
        insert_in_time_order(&mut creations, kept[j].copy());
        j = j + 1;
    }
    assert(fresh.subrange(0, kept@.len() as int) =~= fresh);
    AppendPlan { creations, rejected }
}

// ----- properties of the plan -----

/// Whether the records are in order of time.
pub open spec fn time_sorted(s: Seq<CanonicalModel>) -> bool {
    forall|i: int, j: int|
        0 <= i < j < s.len() ==> time_le(#[trigger] s[i].timestamp, #[trigger] s[j].timestamp)
}

/// Whether every record has a key and no two records share one.
pub open spec fn keys_distinct(st: KeyStrategy, s: Seq<CanonicalModel>) -> bool {
    &&& forall|i: int| 0 <= i < s.len() ==> (#[trigger] record_key(st, s[i])) is Some
    &&& forall|i: int, j: int|
        0 <= i < j < s.len() ==> #[trigger] record_key(st, s[i]) != #[trigger] record_key(st, s[j])
}

proof fn lemma_insert_members(s: Seq<CanonicalModel>, c: CanonicalModel)
    ensures
        insert_by_time(s, c).len() == s.len() + 1,
        forall|x: CanonicalModel|
            #[trigger] insert_by_time(s, c).contains(x) <==> (x == c || s.contains(x)),
    decreases s.len(),
{
    let r = insert_by_time(s, c);
    if s.len() == 0 {
        assert forall|x: CanonicalModel| r.contains(x) <==> (x == c || s.contains(x)) by {
            if r.contains(x) {
                assert(r[0] == x);
            }
            if x == c {
                assert(r[0] == c);
            }
        }
    } else if time_le(s.last().timestamp, c.timestamp) {
        assert forall|x: CanonicalModel| r.contains(x) <==> (x == c || s.contains(x)) by {
            if r.contains(x) {
                let i = choose|i: int| 0 <= i < r.len() && r[i] == x;
                if i < s.len() {
                    assert(s[i] == x);
                }
            }
            if x == c {
                assert(r[s.len() as int] == c);
            }
            if s.contains(x) {
                let i = choose|i: int| 0 <= i < s.len() && s[i] == x;
                assert(r[i] == x);
            }
        }
    } else {
        let t = s.drop_last();
        lemma_insert_members(t, c);
        let u = insert_by_time(t, c);
        assert forall|x: CanonicalModel| r.contains(x) <==> (x == c || s.contains(x)) by {
            if r.contains(x) {
                let i = choose|i: int| 0 <= i < r.len() && r[i] == x;
                if i < u.len() {
                    assert(u[i] == x);
                    assert(u.contains(x));
                    if t.contains(x) {
                        let k = choose|k: int| 0 <= k < t.len() && t[k] == x;
                        assert(s[k] == x);
                    }
                } else {
                    assert(s[s.len() - 1] == x);
                }
            }
            if x == c {
                assert(u.contains(c));
                let i = choose|i: int| 0 <= i < u.len() && u[i] == c;
                assert(r[i] == c);
            }
            if s.contains(x) {
                let i = choose|i: int| 0 <= i < s.len() && s[i] == x;
                if i < t.len() {
                    assert(t[i] == x);
                    assert(u.contains(x));
                    let k = choose|k: int| 0 <= k < u.len() && u[k] == x;
                    assert(r[k] == x);
                } else {
                    assert(r[u.len() as int] == x);
                }
            }
        }
    }
}

proof fn lemma_sorted_members(s: Seq<CanonicalModel>)
    ensures
        sorted_by_time(s).len() == s.len(),
        forall|x: CanonicalModel| #[trigger] sorted_by_time(s).contains(x) <==> s.contains(x),
    decreases s.len(),
{
    if s.len() > 0 {
        let t = s.drop_last();
        lemma_sorted_members(t);
        lemma_insert_members(sorted_by_time(t), s.last());
        assert forall|x: CanonicalModel| #[trigger] sorted_by_time(s).contains(x) <==> s.contains(x) by {
            if t.contains(x) {
                let k = choose|k: int| 0 <= k < t.len() && t[k] == x;
                assert(s[k] == x);
            }
            if s.contains(x) {
                let k = choose|k: int| 0 <= k < s.len() && s[k] == x;
                if k < t.len() {
                    assert(t[k] == x);
                }
            }
        }
    }
}

proof fn lemma_insert_sorted(s: Seq<CanonicalModel>, c: CanonicalModel)
    requires
        time_sorted(s),
    ensures
        time_sorted(insert_by_time(s, c)),
    decreases s.len(),
{
    let r = insert_by_time(s, c);
    if s.len() == 0 {
    } else if time_le(s.last().timestamp, c.timestamp) {
        assert forall|i: int, j: int| 0 <= i < j < r.len() implies time_le(
            #[trigger] r[i].timestamp,
            #[trigger] r[j].timestamp,
        ) by {
            if j == s.len() {
                assert(time_le(s[i].timestamp, s[s.len() - 1].timestamp) || i == s.len() - 1);
            }
        }
    } else {
        let t = s.drop_last();
        let u = insert_by_time(t, c);
        assert(time_sorted(t)) by {
            assert forall|i: int, j: int| 0 <= i < j < t.len() implies time_le(
                #[trigger] t[i].timestamp,
                #[trigger] t[j].timestamp,
            ) by {
                assert(t[i] == s[i] && t[j] == s[j]);
            }
        }
        lemma_insert_sorted(t, c);
        lemma_insert_members(t, c);
        assert forall|i: int, j: int| 0 <= i < j < r.len() implies time_le(
            #[trigger] r[i].timestamp,
            #[trigger] r[j].timestamp,
        ) by {
            if j == u.len() {
                let x = u[i];
                assert(u.contains(x));
                if x != c {
                    let k = choose|k: int| 0 <= k < t.len() && t[k] == x;
                    assert(s[k] == x);
                    assert(time_le(s[k].timestamp, s[s.len() - 1].timestamp));
                }
            } else {
                assert(r[i] == u[i] && r[j] == u[j]);
            }
        }
    }
}

proof fn lemma_sorted_in_order(s: Seq<CanonicalModel>)
    ensures
        time_sorted(sorted_by_time(s)),
    decreases s.len(),
{
    if s.len() > 0 {
        lemma_sorted_in_order(s.drop_last());
        lemma_insert_sorted(sorted_by_time(s.drop_last()), s.last());
    }
}

proof fn lemma_insert_distinct(st: KeyStrategy, s: Seq<CanonicalModel>, c: CanonicalModel)
    requires
        keys_distinct(st, s),
        record_key(st, c) is Some,
        forall|i: int| 0 <= i < s.len() ==> record_key(st, #[trigger] s[i]) != record_key(st, c),
    ensures
        keys_distinct(st, insert_by_time(s, c)),
    decreases s.len(),
{
    let r = insert_by_time(s, c);
    lemma_insert_members(s, c);
    if s.len() == 0 {
    } else if time_le(s.last().timestamp, c.timestamp) {
        assert forall|i: int| 0 <= i < r.len() implies (#[trigger] record_key(st, r[i])) is Some by {
            if i < s.len() {
                assert(r[i] == s[i]);
            }
        }
        assert forall|i: int, j: int| 0 <= i < j < r.len() implies #[trigger] record_key(st, r[i])
            != #[trigger] record_key(st, r[j]) by {
            assert(r[i] == s[i]);
        }
    } else {
        let t = s.drop_last();
        let u = insert_by_time(t, c);
        assert forall|i: int| 0 <= i < t.len() implies record_key(st, #[trigger] t[i]) != record_key(st, c) by {
            assert(t[i] == s[i]);
        }
        assert(keys_distinct(st, t)) by {
            assert forall|i: int| 0 <= i < t.len() implies (#[trigger] record_key(st, t[i])) is Some by {
                assert(t[i] == s[i]);
            }
            assert forall|i: int, j: int| 0 <= i < j < t.len() implies #[trigger] record_key(st, t[i])
                != #[trigger] record_key(st, t[j]) by {
                assert(t[i] == s[i] && t[j] == s[j]);
            }
        }
        lemma_insert_distinct(st, t, c);
        lemma_insert_members(t, c);
        let last = s.last();
        assert forall|i: int| 0 <= i < u.len() implies record_key(st, #[trigger] u[i]) != record_key(st, last) by {
            let x = u[i];
            assert(u.contains(x));
            if x == c {
                assert(record_key(st, s[s.len() - 1]) != record_key(st, c));
            } else {
                let k = choose|k: int| 0 <= k < t.len() && t[k] == x;
                assert(s[k] == x);
                assert(record_key(st, s[k]) != record_key(st, s[s.len() - 1]));
            }
        }
        assert forall|i: int| 0 <= i < r.len() implies (#[trigger] record_key(st, r[i])) is Some by {
            if i < u.len() {
                assert(r[i] == u[i]);
            } else {
                assert(record_key(st, s[s.len() - 1]) is Some);
            }
        }
        assert forall|i: int, j: int| 0 <= i < j < r.len() implies #[trigger] record_key(st, r[i])
            != #[trigger] record_key(st, r[j]) by {
            assert(r[i] == u[i]);
            if j < u.len() {
                assert(r[j] == u[j]);
            }
        }
    }
}

proof fn lemma_sorted_distinct(st: KeyStrategy, s: Seq<CanonicalModel>)
    requires
        keys_distinct(st, s),
    ensures
        keys_distinct(st, sorted_by_time(s)),
    decreases s.len(),
{
    if s.len() > 0 {
        let t = s.drop_last();
        assert(keys_distinct(st, t)) by {
            assert forall|i: int| 0 <= i < t.len() implies (#[trigger] record_key(st, t[i])) is Some by {
                assert(t[i] == s[i]);
            }
            assert forall|i: int, j: int| 0 <= i < j < t.len() implies #[trigger] record_key(st, t[i])
                != #[trigger] record_key(st, t[j]) by {
                assert(t[i] == s[i] && t[j] == s[j]);
            }
        }
        lemma_sorted_distinct(st, t);
        lemma_sorted_members(t);
        let u = sorted_by_time(t);
        assert forall|i: int| 0 <= i < u.len() implies record_key(st, #[trigger] u[i]) != record_key(st, s.last()) by {
            assert(u.contains(u[i]));
            let k = choose|k: int| 0 <= k < t.len() && t[k] == u[i];
            assert(s[k] == u[i]);
            assert(record_key(st, s[k]) != record_key(st, s[s.len() - 1]));
        }
        lemma_insert_distinct(st, u, s.last());
    }
}

proof fn lemma_fresh_facts(st: KeyStrategy, cs: Seq<CanonicalModel>, seen: Set<KeyModel>)
    ensures
        keys_distinct(st, fresh_records(st, cs, seen)),
        forall|i: int|
            0 <= i < fresh_records(st, cs, seen).len() ==> !seen.contains(
                (#[trigger] record_key(st, fresh_records(st, cs, seen)[i]))->0,
            ),
        forall|i: int|
            0 <= i < cs.len() && (#[trigger] record_key(st, cs[i])) is Some ==> (seen.contains(
                record_key(st, cs[i])->0,
            ) || record_keys(st, fresh_records(st, cs, seen)).contains(record_key(st, cs[i])->0)),
    decreases cs.len(),
{
    if cs.len() > 0 {
        let t = cs.drop_last();
        lemma_fresh_facts(st, t, seen);
        let p = fresh_records(st, t, seen);
        let f = fresh_records(st, cs, seen);
        let c = cs.last();
        assert forall|i: int| 0 <= i < cs.len() && (#[trigger] record_key(st, cs[i])) is Some implies (
        seen.contains(record_key(st, cs[i])->0) || record_keys(st, f).contains(
            record_key(st, cs[i])->0,
        )) by {
            let k = record_key(st, cs[i])->0;
            if i < t.len() {
                assert(t[i] == cs[i]);
                if !seen.contains(k) {
                    assert(record_keys(st, p).contains(k));
                    let w = choose|w: int| 0 <= w < p.len() && record_key(st, p[w]) == Some(k);
                    assert(f[w] == p[w]);
                }
            } else {
                if !seen.contains(k) && !record_keys(st, p).contains(k) {
                    assert(f[p.len() as int] == c);
                } else if !seen.contains(k) {
                    let w = choose|w: int| 0 <= w < p.len() && record_key(st, p[w]) == Some(k);
                    assert(f[w] == p[w]);
                }
            }
        }
        match record_key(st, c) {
            Some(k) => {
                if !seen.contains(k) && !record_keys(st, p).contains(k) {
                    assert forall|i: int, j: int| 0 <= i < j < f.len() implies #[trigger] record_key(st, f[i])
                        != #[trigger] record_key(st, f[j]) by {
                        assert(f[i] == p[i]);
                        if j < p.len() {
                            assert(f[j] == p[j]);
                        } else {
                            assert(record_keys(st, p).contains(record_key(st, p[i])->0) ==> record_key(st, p[i]) != Some(k));
                        }
                    }
                    assert forall|i: int| 0 <= i < f.len() implies (#[trigger] record_key(st, f[i])) is Some by {
                        if i < p.len() {
                            assert(f[i] == p[i]);
                        }
                    }
                    assert forall|i: int| 0 <= i < f.len() implies !seen.contains(
                        (#[trigger] record_key(st, f[i]))->0) by {
                        if i < p.len() {
                            assert(f[i] == p[i]);
                        }
                    }
                }
            },
            None => {},
        }
    }
}

proof fn lemma_fresh_all_new(st: KeyStrategy, cs: Seq<CanonicalModel>, seen: Set<KeyModel>)
    requires
        keys_distinct(st, cs),
        forall|i: int| 0 <= i < cs.len() ==> !seen.contains((#[trigger] record_key(st, cs[i]))->0),
    ensures
        fresh_records(st, cs, seen) == cs,
    decreases cs.len(),
{
    if cs.len() > 0 {
        let t = cs.drop_last();
        assert(keys_distinct(st, t)) by {
            assert forall|i: int| 0 <= i < t.len() implies (#[trigger] record_key(st, t[i])) is Some by {
                assert(t[i] == cs[i]);
            }
            assert forall|i: int, j: int| 0 <= i < j < t.len() implies #[trigger] record_key(st, t[i])
                != #[trigger] record_key(st, t[j]) by {
                assert(t[i] == cs[i] && t[j] == cs[j]);
            }
        }
        assert forall|i: int| 0 <= i < t.len() implies !seen.contains((#[trigger] record_key(st, t[i]))->0) by {
            assert(t[i] == cs[i]);
        }
        lemma_fresh_all_new(st, t, seen);
        let c = cs.last();
        let k = record_key(st, cs[cs.len() - 1])->0;
        assert(!record_keys(st, t).contains(k)) by {
            if record_keys(st, t).contains(k) {
                let w = choose|w: int| 0 <= w < t.len() && record_key(st, t[w]) == Some(k);
                assert(t[w] == cs[w]);
                assert(record_key(st, cs[w]) != record_key(st, cs[cs.len() - 1]));
            }
        }
        assert(t.push(c) =~= cs);
    }
}

proof fn lemma_fresh_none_new(st: KeyStrategy, cs: Seq<CanonicalModel>, seen: Set<KeyModel>)
    requires
        forall|i: int|
            0 <= i < cs.len() && (#[trigger] record_key(st, cs[i])) is Some ==> seen.contains(
                record_key(st, cs[i])->0,
            ),
    ensures
        fresh_records(st, cs, seen).len() == 0,
    decreases cs.len(),
{
    if cs.len() > 0 {
        let t = cs.drop_last();
        assert forall|i: int|
            0 <= i < t.len() && (#[trigger] record_key(st, t[i])) is Some implies seen.contains(
            record_key(st, t[i])->0) by {
            assert(t[i] == cs[i]);
        }
        lemma_fresh_none_new(st, t, seen);
        assert(record_key(st, cs[cs.len() - 1]) == record_key(st, cs.last()));
    }
}

/// Creations happen oldest first, whatever order the source returned the
/// records in.
pub proof fn lemma_creations_oldest_first(
    strategy: KeyStrategy,
    records: Seq<CanonicalModel>,
    existing: Seq<TargetModel>,
)
    ensures
        time_sorted(creation_plan(strategy, records, existing)),
{
    lemma_sorted_in_order(fresh_records(strategy, records, stored_keys(strategy, existing)));
}

/// The plan holds each record that is not yet mirrored and has a key not
/// seen earlier in the batch, and nothing else: every record it holds is one
/// of the batch, and no two share a key.
pub proof fn lemma_plan_is_fresh(
    strategy: KeyStrategy,
    records: Seq<CanonicalModel>,
    existing: Seq<TargetModel>,
)
    ensures
        keys_distinct(strategy, creation_plan(strategy, records, existing)),
        forall|c: CanonicalModel| #[trigger]
            creation_plan(strategy, records, existing).contains(c) ==> records.contains(c)
                && !stored_keys(strategy, existing).contains(record_key(strategy, c)->0),
{
    let seen = stored_keys(strategy, existing);
    let f = fresh_records(strategy, records, seen);
    lemma_fresh_facts(strategy, records, seen);
    lemma_sorted_distinct(strategy, f);
    lemma_sorted_members(f);
    lemma_fresh_subset(strategy, records, seen);
    assert forall|c: CanonicalModel| #[trigger]
        creation_plan(strategy, records, existing).contains(c) implies records.contains(c)
            && !seen.contains(record_key(strategy, c)->0) by {
        assert(f.contains(c));
        let k = choose|k: int| 0 <= k < f.len() && f[k] == c;
        assert(!seen.contains(record_key(strategy, f[k])->0));
    }
}

proof fn lemma_fresh_subset(st: KeyStrategy, cs: Seq<CanonicalModel>, seen: Set<KeyModel>)
    ensures
        forall|c: CanonicalModel| #[trigger] fresh_records(st, cs, seen).contains(c) ==> cs.contains(c),
    decreases cs.len(),
{
    if cs.len() > 0 {
        let t = cs.drop_last();
        lemma_fresh_subset(st, t, seen);
        let p = fresh_records(st, t, seen);
        let f = fresh_records(st, cs, seen);
        assert forall|c: CanonicalModel| #[trigger] f.contains(c) implies cs.contains(c) by {
            let k = choose|k: int| 0 <= k < f.len() && f[k] == c;
            if k < p.len() {
                assert(p[k] == c);
                assert(p.contains(c));
                let w = choose|w: int| 0 <= w < t.len() && t[w] == c;
                assert(cs[w] == c);
            } else {
                assert(cs[cs.len() - 1] == c);
            }
        }
    }
}

/// Running a job again with no new source activity creates nothing: once
/// every planned datapoint is mirrored by a stored one, and the stored
/// datapoints seen before are still there, the same records plan no
/// creation.
pub proof fn lemma_rerun_creates_nothing(
    strategy: KeyStrategy,
    records: Seq<CanonicalModel>,
    existing: Seq<TargetModel>,
    after: Seq<TargetModel>,
)
    requires
        forall|t: TargetModel| #[trigger] existing.contains(t) ==> after.contains(t),
        forall|c: CanonicalModel| #[trigger]
            creation_plan(strategy, records, existing).contains(c) ==> exists|t: TargetModel|
                #[trigger] after.contains(t) && echoes(t, c),
    ensures
        creation_plan(strategy, records, after).len() == 0,
{
    let seen = stored_keys(strategy, existing);
    let later = stored_keys(strategy, after);
    let f = fresh_records(strategy, records, seen);
    lemma_fresh_facts(strategy, records, seen);
    lemma_sorted_members(f);
    assert forall|i: int|
        0 <= i < records.len() && (#[trigger] record_key(strategy, records[i])) is Some implies later.contains(
        record_key(strategy, records[i])->0) by {
        let k = record_key(strategy, records[i])->0;
        if seen.contains(k) {
            let w = choose|w: int| 0 <= w < existing.len() && stored_key(strategy, existing[w]) == Some(k);
            assert(existing.contains(existing[w]));
            assert(after.contains(existing[w]));
            let v = choose|v: int| 0 <= v < after.len() && after[v] == existing[w];
            assert(stored_key(strategy, after[v]) == Some(k));
        } else {
            assert(record_keys(strategy, f).contains(k));
            let w = choose|w: int| 0 <= w < f.len() && record_key(strategy, f[w]) == Some(k);
            assert(f.contains(f[w]));
            assert(creation_plan(strategy, records, existing).contains(f[w]));
            let t = choose|t: TargetModel| #[trigger] after.contains(t) && echoes(t, f[w]);
            crate::dedup::lemma_echo_shares_key(strategy, t, f[w]);
            let v = choose|v: int| 0 <= v < after.len() && after[v] == t;
            assert(stored_key(strategy, after[v]) == Some(k));
        }
    }
    lemma_fresh_none_new(strategy, records, later);
    lemma_sorted_members(fresh_records(strategy, records, later));
}

/// Over two runs whose fetch windows overlap, no key is created twice, and
/// no key already stored is created: the creations of both runs together
/// have keys that are pairwise distinct and new.
pub proof fn lemma_no_duplicate_creation(
    strategy: KeyStrategy,
    first: Seq<CanonicalModel>,
    second: Seq<CanonicalModel>,
    existing: Seq<TargetModel>,
    after: Seq<TargetModel>,
)
    requires
        forall|t: TargetModel| #[trigger] existing.contains(t) ==> after.contains(t),
        forall|c: CanonicalModel| #[trigger]
            creation_plan(strategy, first, existing).contains(c) ==> exists|t: TargetModel|
                #[trigger] after.contains(t) && echoes(t, c),
    ensures
        keys_distinct(
            strategy,
            creation_plan(strategy, first, existing) + creation_plan(strategy, second, after),
        ),
        forall|c: CanonicalModel| #[trigger]
            (creation_plan(strategy, first, existing) + creation_plan(
                strategy,
                second,
                after,
            )).contains(c) ==> !stored_keys(strategy, existing).contains(
                record_key(strategy, c)->0,
            ),
{
    let first_plan = creation_plan(strategy, first, existing);
    let second_plan = creation_plan(strategy, second, after);
    let both = first_plan + second_plan;
    let seen = stored_keys(strategy, existing);
    let later = stored_keys(strategy, after);
    lemma_plan_is_fresh(strategy, first, existing);
    lemma_plan_is_fresh(strategy, second, after);
    assert forall|c: CanonicalModel| #[trigger] first_plan.contains(c) implies later.contains(record_key(strategy, c)->0) by {
        let t = choose|t: TargetModel| #[trigger] after.contains(t) && echoes(t, c);
        let k = choose|k: int| 0 <= k < first_plan.len() && first_plan[k] == c;
        assert(record_key(strategy, first_plan[k]) is Some);
        crate::dedup::lemma_echo_shares_key(strategy, t, c);
        let v = choose|v: int| 0 <= v < after.len() && after[v] == t;
        assert(stored_key(strategy, after[v]) == record_key(strategy, c));
    }
    assert forall|k: KeyModel| seen.contains(k) implies #[trigger] later.contains(k) by {
        let w = choose|w: int| 0 <= w < existing.len() && stored_key(strategy, existing[w]) == Some(k);
        assert(existing.contains(existing[w]));
        let v = choose|v: int| 0 <= v < after.len() && after[v] == existing[w];
        assert(stored_key(strategy, after[v]) == Some(k));
    }
    assert forall|i: int| 0 <= i < both.len() implies (#[trigger] record_key(strategy, both[i])) is Some by {
        if i < first_plan.len() {
            assert(both[i] == first_plan[i]);
        } else {
            assert(both[i] == second_plan[i - first_plan.len()]);
        }
    }
    assert forall|i: int, j: int| 0 <= i < j < both.len() implies #[trigger] record_key(strategy, both[i])
        != #[trigger] record_key(strategy, both[j]) by {
        if j < first_plan.len() {
            assert(both[i] == first_plan[i] && both[j] == first_plan[j]);
        } else if i >= first_plan.len() {
            assert(both[i] == second_plan[i - first_plan.len()] && both[j] == second_plan[j - first_plan.len()]);
        } else {
            assert(both[i] == first_plan[i] && both[j] == second_plan[j - first_plan.len()]);
            assert(first_plan.contains(first_plan[i]));
            assert(second_plan.contains(second_plan[j - first_plan.len()]));
        }
    }
    assert forall|c: CanonicalModel| #[trigger] both.contains(c) implies !seen.contains(record_key(strategy, c)->0) by {
        let k = choose|k: int| 0 <= k < both.len() && both[k] == c;
        if k < first_plan.len() {
            assert(first_plan[k] == c);
            assert(first_plan.contains(c));
        } else {
            assert(second_plan[k - first_plan.len()] == c);
            assert(second_plan.contains(c));
        }
    }
}

/// A record that fails to map does not stop the others: when the records
/// that did map are new and keyed apart, each of them is created.
pub proof fn lemma_mapping_failure_isolated(
    strategy: KeyStrategy,
    mapped: Seq<Result<CanonicalDatapoint, MappingError>>,
    existing: Seq<TargetModel>,
)
    requires
        keys_distinct(strategy, ok_records(mapped)),
        forall|i: int|
            0 <= i < ok_records(mapped).len() ==> !stored_keys(strategy, existing).contains(
                (#[trigger] record_key(strategy, ok_records(mapped)[i]))->0,
            ),
    ensures
        creation_plan(strategy, ok_records(mapped), existing).len() == ok_records(mapped).len(),
        ok_records(mapped).len() + mapping_errors(mapped).len() == mapped.len(),
{
    lemma_fresh_all_new(strategy, ok_records(mapped), stored_keys(strategy, existing));
    lemma_sorted_members(ok_records(mapped));
    lemma_outcome_counts(mapped);
}

proof fn lemma_outcome_counts(m: Seq<Result<CanonicalDatapoint, MappingError>>)
    ensures
        ok_records(m).len() + mapping_errors(m).len() == m.len(),
    decreases m.len(),
{
    if m.len() > 0 {
        lemma_outcome_counts(m.drop_last());
    }
}

/// No duplicate in the goal: when the fetched history holds every stored
/// datapoint whose key is the key of a fetched record (the history is large
/// enough), and no two stored datapoints shared a key before the run, then
/// no two datapoints share a key once the planned creations are stored.
pub proof fn lemma_no_duplicate_in_goal(
    strategy: KeyStrategy,
    records: Seq<CanonicalModel>,
    fetched: Seq<TargetModel>,
    whole: Seq<TargetModel>,
    created: Seq<TargetModel>,
)
    requires
        forall|t: TargetModel|
            #[trigger] whole.contains(t) && stored_key(strategy, t) is Some && record_keys(
                strategy,
                records,
            ).contains(stored_key(strategy, t)->0) ==> fetched.contains(t),
        forall|i: int, j: int|
            0 <= i < j < whole.len() && (#[trigger] stored_key(strategy, whole[i])) is Some
                ==> stored_key(strategy, whole[i]) != #[trigger] stored_key(strategy, whole[j]),
        created.len() == creation_plan(strategy, records, fetched).len(),
        forall|k: int|
            0 <= k < created.len() ==> echoes(
                #[trigger] created[k],
                creation_plan(strategy, records, fetched)[k],
            ),
    ensures
        forall|i: int, j: int|
            0 <= i < j < (whole + created).len() && (#[trigger] stored_key(
                strategy,
                (whole + created)[i],
            )) is Some ==> stored_key(strategy, (whole + created)[i]) != #[trigger] stored_key(
                strategy,
                (whole + created)[j],
            ),
{
    let plan = creation_plan(strategy, records, fetched);
    let after = whole + created;
    lemma_plan_is_fresh(strategy, records, fetched);
    assert forall|k: int| 0 <= k < created.len() implies stored_key(strategy, #[trigger] created[k])
        == record_key(strategy, plan[k]) && record_key(strategy, plan[k]) is Some by {
        crate::dedup::lemma_echo_shares_key(strategy, created[k], plan[k]);
    }
    assert forall|k: int, i: int| 0 <= k < created.len() && 0 <= i < whole.len() implies #[trigger] stored_key(
        strategy,
        whole[i],
    ) != #[trigger] stored_key(strategy, created[k]) by {
        let c = plan[k];
        assert(plan.contains(c));
        let key = record_key(strategy, c)->0;
        if stored_key(strategy, whole[i]) == Some(key) {
            let w = choose|w: int| 0 <= w < records.len() && records[w] == c;
            assert(record_keys(strategy, records).contains(key));
            assert(whole.contains(whole[i]));
            assert(fetched.contains(whole[i]));
            let v = choose|v: int| 0 <= v < fetched.len() && fetched[v] == whole[i];
            assert(stored_keys(strategy, fetched).contains(key));
        }
    }
    assert forall|i: int, j: int|
        0 <= i < j < after.len() && (#[trigger] stored_key(strategy, after[i])) is Some implies stored_key(
        strategy,
        after[i],
    ) != #[trigger] stored_key(strategy, after[j]) by {
        if j < whole.len() {
            assert(after[i] == whole[i] && after[j] == whole[j]);
        } else if i < whole.len() {
            assert(after[i] == whole[i] && after[j] == created[j - whole.len()]);
        } else {
            assert(after[i] == created[i - whole.len()] && after[j] == created[j - whole.len()]);
        }
    }
}

} // verus!
