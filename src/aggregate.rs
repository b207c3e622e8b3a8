//! Aggregate correction: one judgment per local day, stored once, and
//! replaced when a fresh judgment disagrees with the stored one.
use vstd::prelude::*;
use crate::datapoint::{
    CanonicalDatapoint, CanonicalModel, TOLERANCE, TargetDatapoint, TargetModel, UNIT,
    target_models,
};
use crate::text::{line_at, lines_of, text_eq, trim_of, trimmed};

verus! {

/// A day's judgment: a comment and a value in millionths.
#[derive(Debug)]
pub struct Judgment {
    pub comment: String,
    pub value: i64,
}

pub struct JudgmentModel {
    pub comment: Seq<char>,
    pub value: int,
}

impl View for Judgment {
    type V = JudgmentModel;

    open spec fn view(&self) -> JudgmentModel {
        JudgmentModel { comment: self.comment@, value: self.value as int }
    }
}

/// The comment of a day without activity.
pub open spec fn no_titles_comment() -> Seq<char> {
    "🫙 No titles."@
}

/// The comment of a day the classifier approved.
pub open spec fn approved_comment() -> Seq<char> {
    "✨ GPT approved."@
}

/// The judgment of a day without activity: positive.
pub fn no_activity_judgment() -> (r: Judgment)
    ensures
        r@ == (JudgmentModel { comment: no_titles_comment(), value: UNIT as int }),
{
    Judgment { comment: String::from_str("🫙 No titles."), value: UNIT }
}

/// The judgment of a day that needs no classifier: a day without titles is
/// judged positive at once; a day with titles (`None`) goes to the classifier.
pub fn judgment_without_classifier(titles: &[String]) -> (r: Option<Judgment>)
    ensures
        r is Some <==> titles@.len() == 0,
        r is Some ==> r->0@ == (JudgmentModel { comment: no_titles_comment(), value: UNIT as int }),
{
    if titles.len() == 0 {
        Some(no_activity_judgment())
    } else {
        None
    }
}

/// The judgment read from a classifier reply: a reply that is `no` once
/// trimmed approves the day; any other rejects it, with the reply's second
/// line (or nothing) as the comment.
pub open spec fn reply_judgment(trimmed: Seq<char>, reply: Seq<char>) -> JudgmentModel {
    if trimmed == "no"@ {
        JudgmentModel { comment: approved_comment(), value: UNIT as int }
    } else {
        JudgmentModel {
            comment: if lines_of(reply).len() > 1 {
                lines_of(reply)[1]
            } else {
                Seq::empty()
            },
            value: 0,
        }
    }
}

/// The judgment for a classifier reply, given the reply and its trimmed form.
pub fn judgment_from_reply(trimmed_reply: &str, reply: &str) -> (r: Judgment)
    ensures
        r@ == reply_judgment(trimmed_reply@, reply@),
{
    if text_eq(trimmed_reply, "no") {
        Judgment { comment: String::from_str("✨ GPT approved."), value: UNIT }
    } else {
        let comment = match line_at(reply, 1) {
            Some(line) => line,
            None => String::new(),
        };
        Judgment { comment, value: 0 }
    }
}

/// The judgment for a classifier reply.
pub fn judge_reply(reply: &str) -> (r: Judgment)
    ensures
        r@ == reply_judgment(trim_of(reply@), reply@),
{
    judgment_from_reply(trimmed(reply), reply)
}

/// Whether two values differ by more than the tolerance.
pub open spec fn differs(a: int, b: int) -> bool {
    a - b > TOLERANCE || b - a > TOLERANCE
}

/// One step of a correction.
#[derive(Debug)]
pub enum Correction {
    /// Delete the stored datapoint with this id.
    Delete(String),
    /// Create this datapoint.
    Create(CanonicalDatapoint),
}

pub enum CorrectionModel {
    Delete(Seq<char>),
    Create(CanonicalModel),
}

impl View for Correction {
    type V = CorrectionModel;

    open spec fn view(&self) -> CorrectionModel {
        match self {
            Correction::Delete(id) => CorrectionModel::Delete(id@),
            Correction::Create(c) => CorrectionModel::Create(c@),
        }
    }
}

/// The views of a sequence of corrections.
pub open spec fn correction_models(v: Seq<Correction>) -> Seq<CorrectionModel> {
    v.map_values(|c: Correction| c@)
}

/// The deletions of the stored datapoints of `bucket` whose value differs
/// from `value`, in their order.
pub open spec fn bucket_deletions(bucket: Seq<char>, value: int, ex: Seq<TargetModel>) -> Seq<
    CorrectionModel,
>
    decreases ex.len(),
{
    if ex.len() == 0 {
        seq![]
    } else {
        let p = bucket_deletions(bucket, value, ex.drop_last());
        let t = ex.last();
        if t.day_bucket == bucket && differs(t.value, value) {
            p.push(CorrectionModel::Delete(t.id))
        } else {
            p
        }
    }
}

/// Whether a stored datapoint of `bucket` already has `value`.
pub open spec fn has_match(bucket: Seq<char>, value: int, ex: Seq<TargetModel>) -> bool {
    exists|i: int| 0 <= i < ex.len() && ex[i].day_bucket == bucket && !differs(ex[i].value, value)
}

/// The datapoint that stores a day's judgment.
pub open spec fn day_datapoint(bucket: Seq<char>, j: JudgmentModel) -> CanonicalModel {
    CanonicalModel {
        value: j.value,
        timestamp: None,
        day_bucket: Some(bucket),
        comment: j.comment,
        external_id: None,
    }
}

/// The correction of one day: nothing when a stored datapoint of the day
/// already has the fresh value; otherwise delete each stored datapoint of the
/// day (all of them differ), then create the fresh one.
pub open spec fn correction_plan(bucket: Seq<char>, j: JudgmentModel, ex: Seq<TargetModel>) -> Seq<
    CorrectionModel,
> {
    if has_match(bucket, j.value, ex) {
        Seq::empty()
    } else {
        bucket_deletions(bucket, j.value, ex) + seq![
            CorrectionModel::Create(day_datapoint(bucket, j)),
        ]
    }
}

/// Whether two values differ by more than the tolerance.
pub fn values_differ(a: i64, b: i64) -> (r: bool)
    ensures
        r == differs(a as int, b as int),
{
    let d: i128 = a as i128 - b as i128;
    d > TOLERANCE as i128 || -d > TOLERANCE as i128
}

/// Plans the correction of the day `bucket` against the stored datapoints:
/// nothing when one of the day already has the fresh value, else delete
/// every datapoint of the day and create the fresh one.
pub fn plan_day_correction(bucket: &str, judgment: &Judgment, existing: &[TargetDatapoint]) -> (r:
    Vec<Correction>)
    ensures
        correction_models(r@) == correction_plan(bucket@, judgment@, target_models(existing@)),
{
    let ghost ex = target_models(existing@);
    let mut out: Vec<Correction> = Vec::new();
    let mut matched = false;
    let mut i: usize = 0;
    assert(ex.subrange(0, 0) =~= Seq::<TargetModel>::empty());
    assert(correction_models(out@) =~= Seq::<CorrectionModel>::empty());
    while i < existing.len()
        invariant
            i <= existing@.len(),
            ex == target_models(existing@),
            correction_models(out@) == bucket_deletions(
                bucket@,
                judgment.value as int,
                ex.subrange(0, i as int),
            ),
            matched == has_match(bucket@, judgment.value as int, ex.subrange(0, i as int)),
        decreases existing@.len() - i,
    {
        let ghost prev = ex.subrange(0, i as int);
        let ghost next = ex.subrange(0, i + 1);
        assert(next.drop_last() =~= prev);
        let t = &existing[i];
        assert(next.last() == t@);
        let same_day = text_eq(t.day_bucket.as_str(), bucket);
        if same_day && values_differ(t.value, judgment.value) {
            let ghost before = out@;
            out.push(Correction::Delete(t.id.clone()));
            assert(correction_models(out@) =~= correction_models(before).push(
                CorrectionModel::Delete(t.id@),
            ));
        }
        if same_day && !values_differ(t.value, judgment.value) {
            matched = true;
            assert(next[i as int] == t@);
        }
        assert(matched == has_match(bucket@, judgment.value as int, next)) by {
            if has_match(bucket@, judgment.value as int, next) && !has_match(
                bucket@,
                judgment.value as int,
                prev,
            ) {
                let k = choose|k: int|
                    0 <= k < next.len() && next[k].day_bucket == bucket@ && !differs(
                        next[k].value,
                        judgment.value as int,
                    );
                if k < i {
                    assert(prev[k] == next[k]);
                }
            }
            if has_match(bucket@, judgment.value as int, prev) {
                let k = choose|k: int|
                    0 <= k < prev.len() && prev[k].day_bucket == bucket@ && !differs(
                        prev[k].value,
                        judgment.value as int,
                    );
                assert(next[k] == prev[k]);
            }
        }
        i = i + 1;
    }
    assert(ex.subrange(0, existing@.len() as int) =~= ex);
    if matched {
        return Vec::new();
    } else {
        let ghost before = out@;
        let created = CanonicalDatapoint {
            value: judgment.value,
            timestamp: None,
            day_bucket: Some(String::from_str(bucket)),
            comment: judgment.comment.clone(),
            external_id: None,
        };
        out.push(Correction::Create(created));
        assert(correction_models(out@) =~= correction_models(before) + seq![
            CorrectionModel::Create(day_datapoint(bucket@, judgment@)),
        ]);
    }
    out
}

// ----- the stored state after a correction -----

/// Whether a plan deletes the stored datapoint with id `id`.
pub open spec fn deletes(plan: Seq<CorrectionModel>, id: Seq<char>) -> bool {
    exists|i: int| 0 <= i < plan.len() && plan[i] == CorrectionModel::Delete(id)
}

/// The (day bucket, value) of each stored datapoint that a plan leaves in place.
pub open spec fn survivors(store: Seq<TargetModel>, plan: Seq<CorrectionModel>) -> Seq<
    (Seq<char>, int),
>
    decreases store.len(),
{
    if store.len() == 0 {
        seq![]
    } else {
        let p = survivors(store.drop_last(), plan);
        let t = store.last();
        if deletes(plan, t.id) {
            p
        } else {
            p.push((t.day_bucket, t.value))
        }
    }
}

/// The (day bucket, value) of each datapoint a plan creates.
pub open spec fn creations(plan: Seq<CorrectionModel>) -> Seq<(Seq<char>, int)>
    decreases plan.len(),
{
    if plan.len() == 0 {
        seq![]
    } else {
        let p = creations(plan.drop_last());
        match plan.last() {
            CorrectionModel::Create(c) => p.push(
                (
                    match c.day_bucket {
                        Some(b) => b,
                        None => Seq::empty(),
                    },
                    c.value,
                ),
            ),
            CorrectionModel::Delete(_) => p,
        }
    }
}

/// The (day bucket, value) of each datapoint stored once a plan is carried out.
pub open spec fn stored_after(store: Seq<TargetModel>, plan: Seq<CorrectionModel>) -> Seq<
    (Seq<char>, int),
> {
    survivors(store, plan) + creations(plan)
}

proof fn lemma_deletions_are_mismatches(bucket: Seq<char>, value: int, ex: Seq<TargetModel>)
    ensures
        forall|k: int|
            0 <= k < bucket_deletions(bucket, value, ex).len() ==> exists|i: int|
                0 <= i < ex.len() && ex[i].day_bucket == bucket && differs(ex[i].value, value)
                    && #[trigger] bucket_deletions(bucket, value, ex)[k] == CorrectionModel::Delete(
                    ex[i].id,
                ),
        forall|i: int|
            0 <= i < ex.len() && #[trigger] ex[i].day_bucket == bucket && differs(ex[i].value, value)
                ==> deletes(bucket_deletions(bucket, value, ex), ex[i].id),
    decreases ex.len(),
{
    if ex.len() > 0 {
        let t = ex.drop_last();
        lemma_deletions_are_mismatches(bucket, value, t);
        let p = bucket_deletions(bucket, value, t);
        let d = bucket_deletions(bucket, value, ex);
        assert forall|k: int| 0 <= k < d.len() implies exists|i: int|
            0 <= i < ex.len() && ex[i].day_bucket == bucket && differs(ex[i].value, value)
                && #[trigger] d[k] == CorrectionModel::Delete(ex[i].id) by {
            if k < p.len() {
                assert(d[k] == p[k]);
                let i = choose|i: int|
                    0 <= i < t.len() && t[i].day_bucket == bucket && differs(t[i].value, value)
                        && p[k] == CorrectionModel::Delete(t[i].id);
                assert(ex[i] == t[i]);
            } else {
                assert(ex[ex.len() - 1] == ex.last());
            }
        }
        assert forall|i: int|
            0 <= i < ex.len() && #[trigger] ex[i].day_bucket == bucket && differs(ex[i].value, value)
                implies deletes(d, ex[i].id) by {
            if i < t.len() {
                assert(t[i] == ex[i]);
                assert(deletes(p, t[i].id));
                let k = choose|k: int| 0 <= k < p.len() && p[k] == CorrectionModel::Delete(t[i].id);
                assert(d[k] == p[k]);
            } else {
                assert(d[p.len() as int] == CorrectionModel::Delete(ex[i].id));
            }
        }
    }
}

proof fn lemma_survivors(store: Seq<TargetModel>, plan: Seq<CorrectionModel>)
    ensures
        forall|k: int|
            0 <= k < survivors(store, plan).len() ==> exists|i: int|
                0 <= i < store.len() && !deletes(plan, store[i].id) && #[trigger] survivors(
                    store,
                    plan,
                )[k] == (store[i].day_bucket, store[i].value),
        forall|i: int|
            0 <= i < store.len() && !deletes(plan, #[trigger] store[i].id) ==> survivors(
                store,
                plan,
            ).contains((store[i].day_bucket, store[i].value)),
    decreases store.len(),
{
    if store.len() > 0 {
        let t = store.drop_last();
        lemma_survivors(t, plan);
        let p = survivors(t, plan);
        let r = survivors(store, plan);
        assert forall|k: int| 0 <= k < r.len() implies exists|i: int|
            0 <= i < store.len() && !deletes(plan, store[i].id) && #[trigger] r[k] == (
                store[i].day_bucket,
                store[i].value,
            ) by {
            if k < p.len() {
                assert(r[k] == p[k]);
                let i = choose|i: int|
                    0 <= i < t.len() && !deletes(plan, t[i].id) && p[k] == (
                        t[i].day_bucket,
                        t[i].value,
                    );
                assert(store[i] == t[i]);
            } else {
                assert(store[store.len() - 1] == store.last());
            }
        }
        assert forall|i: int| 0 <= i < store.len() && !deletes(plan, #[trigger] store[i].id) implies r.contains(
            (store[i].day_bucket, store[i].value),
        ) by {
            if i < t.len() {
                assert(t[i] == store[i]);
                assert(!deletes(plan, t[i].id));
                assert(p.contains((t[i].day_bucket, t[i].value)));
                let k = choose|k: int| 0 <= k < p.len() && p[k] == (t[i].day_bucket, t[i].value);
                assert(r[k] == p[k]);
            } else {
                assert(r[p.len() as int] == (store[i].day_bucket, store[i].value));
            }
        }
    }
}

proof fn lemma_no_creations_in_deletions(bucket: Seq<char>, value: int, ex: Seq<TargetModel>)
    ensures
        creations(bucket_deletions(bucket, value, ex)).len() == 0,
    decreases ex.len(),
{
    if ex.len() > 0 {
        lemma_no_creations_in_deletions(bucket, value, ex.drop_last());
        let p = bucket_deletions(bucket, value, ex.drop_last());
        let d = bucket_deletions(bucket, value, ex);
        if d.len() > p.len() {
            assert(d.drop_last() =~= p);
        }
    }
}

proof fn lemma_creations_of_plan(bucket: Seq<char>, j: JudgmentModel, ex: Seq<TargetModel>)
    ensures
        creations(correction_plan(bucket, j, ex)) == if has_match(bucket, j.value, ex) {
            Seq::<(Seq<char>, int)>::empty()
        } else {
            seq![(bucket, j.value)]
        },
{
    if !has_match(bucket, j.value, ex) {
        lemma_no_creations_in_deletions(bucket, j.value, ex);
        let d = bucket_deletions(bucket, j.value, ex);
        let plan = correction_plan(bucket, j, ex);
        assert(plan.drop_last() =~= d);
    }
}

/// When a stored datapoint of the day already has the fresh value (within
/// the tolerance), the correction issues no deletion and no creation.
pub proof fn lemma_no_op_on_match(bucket: Seq<char>, j: JudgmentModel, store: Seq<TargetModel>)
    requires
        exists|i: int|
            0 <= i < store.len() && store[i].day_bucket == bucket && !differs(
                store[i].value,
                j.value,
            ),
    ensures
        correction_plan(bucket, j, store).len() == 0,
{
}

/// A correction converges on the fresh judgment: afterwards a datapoint of
/// the day with the fresh value (within the tolerance) is stored. Where one
/// was stored already, nothing changes; where none was, every datapoint of
/// the day is deleted and exactly one is stored for the day, with the fresh
/// value.
pub proof fn lemma_correction_converges(bucket: Seq<char>, j: JudgmentModel, store: Seq<TargetModel>)
    ensures
        exists|k: int|
            0 <= k < stored_after(store, correction_plan(bucket, j, store)).len() && (
            #[trigger] stored_after(store, correction_plan(bucket, j, store))[k]).0 == bucket
                && !differs(stored_after(store, correction_plan(bucket, j, store))[k].1, j.value),
        has_match(bucket, j.value, store) ==> correction_plan(bucket, j, store).len() == 0,
        !has_match(bucket, j.value, store) ==> forall|i: int|
            0 <= i < store.len() && #[trigger] store[i].day_bucket == bucket ==> deletes(
                correction_plan(bucket, j, store),
                store[i].id,
            ),
        !has_match(bucket, j.value, store) ==> exists|k: int|
            0 <= k < stored_after(store, correction_plan(bucket, j, store)).len()
                && stored_after(store, correction_plan(bucket, j, store))[k] == (bucket, j.value)
                && forall|m: int|
                0 <= m < stored_after(store, correction_plan(bucket, j, store)).len() && m != k
                    ==> (#[trigger] stored_after(store, correction_plan(bucket, j, store))[m]).0
                    != bucket,
{
    let plan = correction_plan(bucket, j, store);
    let surv = survivors(store, plan);
    let after = stored_after(store, plan);
    lemma_survivors(store, plan);
    lemma_creations_of_plan(bucket, j, store);
    if has_match(bucket, j.value, store) {
        let i = choose|i: int|
            0 <= i < store.len() && store[i].day_bucket == bucket && !differs(store[i].value, j.value);
        assert(!deletes(plan, store[i].id));
        assert(surv.contains((store[i].day_bucket, store[i].value)));
        let k = choose|k: int| 0 <= k < surv.len() && surv[k] == (store[i].day_bucket, store[i].value);
        assert(after[k] == surv[k]);
    } else {
        let d = bucket_deletions(bucket, j.value, store);
        lemma_deletions_are_mismatches(bucket, j.value, store);
        assert forall|i: int| 0 <= i < store.len() && #[trigger] store[i].day_bucket == bucket implies deletes(
            plan,
            store[i].id,
        ) by {
            assert(differs(store[i].value, j.value));
            assert(deletes(d, store[i].id));
            let q = choose|q: int| 0 <= q < d.len() && d[q] == CorrectionModel::Delete(store[i].id);
            assert(plan[q] == d[q]);
        }
        let k = surv.len() as int;
        assert(after[k] == (bucket, j.value));
        assert(!differs(j.value, j.value));
        assert forall|m: int| 0 <= m < after.len() && m != k implies (#[trigger] after[m]).0 != bucket by {
            assert(m < surv.len());
            assert(after[m] == surv[m]);
            let i = choose|i: int|
                0 <= i < store.len() && !deletes(plan, store[i].id) && surv[m] == (
                    store[i].day_bucket,
                    store[i].value,
                );
            if store[i].day_bucket == bucket {
                assert(deletes(plan, store[i].id));
            }
        }
    }
}

/// Correcting a day again, once the first correction is stored, does
/// nothing: when the stored datapoints of the day include what the first
/// correction left for the day, the second correction is empty.
pub proof fn lemma_correction_settles(
    bucket: Seq<char>,
    j: JudgmentModel,
    store: Seq<TargetModel>,
    after: Seq<TargetModel>,
)
    requires
        forall|k: int|
            0 <= k < stored_after(store, correction_plan(bucket, j, store)).len() && (
            #[trigger] stored_after(store, correction_plan(bucket, j, store))[k]).0 == bucket
                ==> exists|i: int|
                0 <= i < after.len() && after[i].day_bucket == bucket && after[i].value
                    == stored_after(store, correction_plan(bucket, j, store))[k].1,
    ensures
        correction_plan(bucket, j, after).len() == 0,
{
    let done = stored_after(store, correction_plan(bucket, j, store));
    lemma_correction_converges(bucket, j, store);
    let k = choose|k: int|
        0 <= k < done.len() && (#[trigger] done[k]).0 == bucket && !differs(done[k].1, j.value);
    let i = choose|i: int|
        0 <= i < after.len() && after[i].day_bucket == bucket && after[i].value == done[k].1;
    lemma_no_op_on_match(bucket, j, after);
}

} // verus!
