//! Window-activity events: totals per title, watched videos, the window
//! titles of a day, and the classifier prompt built from them.
use vstd::prelude::*;
use crate::text::{
    contains_seq, first_occurrence, find_text, join_texts, joined, lower_of, lowercase,
    replace_text, replaced, sort_texts, text_contains, text_lt, texts, trim_of, trimmed,
};

verus! {

/// What a window-activity event records.
#[derive(Debug)]
pub struct EventData {
    pub app: String,
    pub title: String,
}

/// A window-activity event.
#[derive(Debug)]
pub struct Event {
    pub id: i64,
    /// Seconds since the Unix epoch.
    pub timestamp: i64,
    /// Milliseconds.
    pub duration: u64,
    pub data: EventData,
}

/// The (label, amount) views of labelled amounts.
pub open spec fn items_view(v: Seq<(String, u64)>) -> Seq<(Seq<char>, int)> {
    v.map_values(|p: (String, u64)| (p.0@, p.1 as int))
}

/// The labels of some labelled amounts, each once, in order of first
/// appearance.
pub open spec fn labels_in_order(items: Seq<(Seq<char>, int)>) -> Seq<Seq<char>>
    decreases items.len(),
{
    if items.len() == 0 {
        seq![]
    } else {
        let p = labels_in_order(items.drop_last());
        if p.contains(items.last().0) {
            p
        } else {
            p.push(items.last().0)
        }
    }
}

/// The sum of the amounts labelled `l`.
pub open spec fn label_total(items: Seq<(Seq<char>, int)>, l: Seq<char>) -> int
    decreases items.len(),
{
    if items.len() == 0 {
        0
    } else {
        label_total(items.drop_last(), l) + if items.last().0 == l {
            items.last().1
        } else {
            0
        }
    }
}

/// An amount, saturated at the largest `u64`.
pub open spec fn capped(x: int) -> int {
    if x > u64::MAX {
        u64::MAX as int
    } else {
        x
    }
}

proof fn lemma_labels(items: Seq<(Seq<char>, int)>)
    ensures
        forall|l: Seq<char>|
            #[trigger] labels_in_order(items).contains(l) <==> exists|i: int|
                0 <= i < items.len() && items[i].0 == l,
        forall|l: Seq<char>| !labels_in_order(items).contains(l) ==> #[trigger] label_total(items, l) == 0,
        forall|i: int, j: int|
            0 <= i < j < labels_in_order(items).len() ==> #[trigger] labels_in_order(items)[i]
                != #[trigger] labels_in_order(items)[j],
    decreases items.len(),
{
    if items.len() > 0 {
        let t = items.drop_last();
        lemma_labels(t);
        let p = labels_in_order(t);
        let r = labels_in_order(items);
        assert forall|l: Seq<char>| #[trigger] r.contains(l) <==> exists|i: int|
            0 <= i < items.len() && items[i].0 == l by {
            if r.contains(l) {
                if p.contains(l) {
                    let i = choose|i: int| 0 <= i < t.len() && t[i].0 == l;
                    assert(items[i] == t[i]);
                } else {
                    assert(items[items.len() - 1].0 == l);
                }
            }
            if exists|i: int| 0 <= i < items.len() && items[i].0 == l {
                let i = choose|i: int| 0 <= i < items.len() && items[i].0 == l;
                if i < t.len() {
                    assert(t[i] == items[i]);
                    assert(p.contains(l));
                    let k = choose|k: int| 0 <= k < p.len() && p[k] == l;
                    assert(r[k] == p[k]);
                } else if !p.contains(l) {
                    assert(r[p.len() as int] == l);
                }
            }
        }
        assert forall|l: Seq<char>| !r.contains(l) implies #[trigger] label_total(items, l) == 0 by {
            if p.contains(l) {
                let k = choose|k: int| 0 <= k < p.len() && p[k] == l;
                assert(r[k] == p[k]);
            }
            if items.last().0 == l && !p.contains(l) {
                assert(r[p.len() as int] == l);
            }
            assert(!p.contains(l));
            assert(label_total(t, l) == 0);
            assert(label_total(items, l) == label_total(t, l) + if items.last().0 == l {
                items.last().1
            } else {
                0
            });
        }
    }
}

fn position_of(acc: &Vec<(String, u64)>, label: &String) -> (k: usize)
    ensures
        k <= acc@.len(),
        k < acc@.len() ==> acc@[k as int].0@ == label@,
        forall|q: int| 0 <= q < k ==> (#[trigger] acc@[q]).0@ != label@,
{
    let mut k: usize = 0;
    while k < acc.len()
        invariant
            k <= acc@.len(),
            forall|q: int| 0 <= q < k ==> (#[trigger] acc@[q]).0@ != label@,
        decreases acc@.len() - k,
    {
        if acc[k].0 == *label {
            return k;
        }
        k = k + 1;
    }
    k
}

/// Totals of amounts by label: each label once, in order of first
/// appearance, with the sum of its amounts (saturated at the largest `u64`).
pub fn totals_by_label(items: &[(String, u64)]) -> (r: Vec<(String, u64)>)
    ensures
        r@.len() == labels_in_order(items_view(items@)).len(),
        forall|k: int|
            0 <= k < r@.len() ==> (#[trigger] r@[k]).0@ == labels_in_order(items_view(items@))[k]
                && r@[k].1 == capped(label_total(items_view(items@), r@[k].0@)),
{
    let ghost all = items_view(items@);
    let mut acc: Vec<(String, u64)> = Vec::new();
    let mut i: usize = 0;
    assert(all.subrange(0, 0) =~= Seq::<(Seq<char>, int)>::empty());
    while i < items.len()
        invariant
            i <= items@.len(),
            all == items_view(items@),
            acc@.len() == labels_in_order(all.subrange(0, i as int)).len(),
            forall|k: int|
                0 <= k < acc@.len() ==> (#[trigger] acc@[k]).0@ == labels_in_order(
                    all.subrange(0, i as int),
                )[k] && acc@[k].1 == capped(label_total(all.subrange(0, i as int), acc@[k].0@)),
        decreases items@.len() - i,
    {
        let ghost prev = all.subrange(0, i as int);
        let ghost next = all.subrange(0, i + 1);
        assert(next.drop_last() =~= prev);
        assert(next.last() == all[i as int]);
        let label = &items[i].0;
        let amount = items[i].1;
        let ghost l = label@;
        proof {
            lemma_labels(prev);
        }
        let k = position_of(&acc, label);
        assert(next.last() == (l, amount as int));
        if k < acc.len() {
            let old_total = acc[k].1;
            let total = if old_total > u64::MAX - amount {
                u64::MAX
            } else {
                old_total + amount
            };
            let ghost before = acc@;
            acc.set(k, (label.clone(), total));
            assert(labels_in_order(prev).contains(l)) by {
                assert(labels_in_order(prev)[k as int] == l);
            }
            assert(labels_in_order(next) == labels_in_order(prev));
            assert(label_total(next, l) == label_total(prev, l) + amount);
            assert(total == capped(label_total(next, l)));
            assert forall|q: int| 0 <= q < acc@.len() implies (#[trigger] acc@[q]).0@ == labels_in_order(
                next,
            )[q] && acc@[q].1 == capped(label_total(next, acc@[q].0@)) by {
                if q != k {
                    assert(acc@[q] == before[q]);
                    assert(labels_in_order(prev)[q] != labels_in_order(prev)[k as int]);
                    assert(label_total(next, acc@[q].0@) == label_total(prev, acc@[q].0@));
                }
            }
        } else {
            proof {
                assert forall|q: int| 0 <= q < labels_in_order(prev).len() implies labels_in_order(prev)[q] != l by {
                    assert(acc@[q].0@ == labels_in_order(prev)[q]);
                }
                assert(!labels_in_order(prev).contains(l));
            }
            let ghost before = acc@;
            acc.push((label.clone(), amount));
            assert(labels_in_order(next) == labels_in_order(prev).push(l));
            assert forall|q: int| 0 <= q < acc@.len() implies (#[trigger] acc@[q]).0@ == labels_in_order(
                next,
            )[q] && acc@[q].1 == capped(label_total(next, acc@[q].0@)) by {
                if q < before.len() {
                    assert(acc@[q] == before[q]);
                    assert(labels_in_order(prev)[q] != l);
                    assert(label_total(next, acc@[q].0@) == label_total(prev, acc@[q].0@));
                } else {
                    assert(label_total(prev, l) == 0);
                    assert(label_total(next, l) == amount);
                }
            }
        }
        i = i + 1;
    }
    assert(all.subrange(0, items@.len() as int) =~= all);
    acc
}

/// The (title, duration) of each event.
pub open spec fn event_items(evs: Seq<Event>) -> Seq<(Seq<char>, int)> {
    evs.map_values(|e: Event| (e.data.title@, e.duration as int))
}

/// The total duration of the events of each title, each title once, in order
/// of first appearance.
pub fn sum_duration_by_title(events: &[Event]) -> (r: Vec<(String, u64)>)
    ensures
        r@.len() == labels_in_order(event_items(events@)).len(),
        forall|k: int|
            0 <= k < r@.len() ==> (#[trigger] r@[k]).0@ == labels_in_order(event_items(events@))[k]
                && r@[k].1 == capped(label_total(event_items(events@), r@[k].0@)),
{
    let mut items: Vec<(String, u64)> = Vec::new();
    let mut i: usize = 0;
    while i < events.len()
        invariant
            i <= events@.len(),
            items_view(items@) == event_items(events@.subrange(0, i as int)),
        decreases events@.len() - i,
    {
        let ghost before = items@;
        let title = events[i].data.title.clone();
        items.push((title, events[i].duration));
        assert(items_view(items@) =~= items_view(before).push(
            (events@[i as int].data.title@, events@[i as int].duration as int),
        ));
        assert(event_items(events@.subrange(0, i + 1)) =~= event_items(
            events@.subrange(0, i as int),
        ).push((events@[i as int].data.title@, events@[i as int].duration as int)));
        i = i + 1;
    }
    assert(events@.subrange(0, events@.len() as int) =~= events@);
    totals_by_label(items.as_slice())
}

// ----- watched videos -----

/// What follows a video's name in a window title.
pub open spec fn video_marker() -> Seq<char> {
    " - YouTube —"@
}

/// The video a window title shows: the trimmed text before the first
/// ` - YouTube —`, where there is one.
pub open spec fn video_of(title: Seq<char>) -> Option<Seq<char>> {
    if contains_seq(title, video_marker()) {
        Some(trim_of(title.take(first_occurrence(title, video_marker()))))
    } else {
        None
    }
}

/// The video a window title shows, where it shows one.
pub fn video_title(title: &str) -> (r: Option<String>)
    ensures
        match r {
            Some(v) => video_of(title@) == Some(v@),
            None => video_of(title@) is None,
        },
{
    match find_text(title, " - YouTube —") {
        Some(at) => {
            let before = title.substring_char(0, at);
            assert(before@ =~= title@.take(at as int));
            Some(trimmed(before).to_owned())
        },
        None => None,
    }
}

/// The (video, duration) of each event that shows a video, in order.
pub open spec fn video_items(evs: Seq<Event>) -> Seq<(Seq<char>, int)>
    decreases evs.len(),
{
    if evs.len() == 0 {
        seq![]
    } else {
        let p = video_items(evs.drop_last());
        match video_of(evs.last().data.title@) {
            Some(v) => p.push((v, evs.last().duration as int)),
            None => p,
        }
    }
}

/// Whether a video was watched long enough: its total time exceeds the
/// minimum.
pub open spec fn watched(evs: Seq<Event>, v: Seq<char>, min_duration: int) -> bool {
    labels_in_order(video_items(evs)).contains(v) && capped(label_total(video_items(evs), v))
        > min_duration
}

/// The labels whose saturated total exceeds `min_duration`, in order.
pub open spec fn long_enough(
    labels: Seq<Seq<char>>,
    items: Seq<(Seq<char>, int)>,
    min_duration: int,
) -> Seq<Seq<char>>
    decreases labels.len(),
{
    if labels.len() == 0 {
        seq![]
    } else {
        let p = long_enough(labels.drop_last(), items, min_duration);
        if capped(label_total(items, labels.last())) > min_duration {
            p.push(labels.last())
        } else {
            p
        }
    }
}

proof fn lemma_long_enough(labels: Seq<Seq<char>>, items: Seq<(Seq<char>, int)>, min_duration: int)
    ensures
        forall|v: Seq<char>|
            #[trigger] long_enough(labels, items, min_duration).contains(v) <==> (labels.contains(v)
                && capped(label_total(items, v)) > min_duration),
    decreases labels.len(),
{
    if labels.len() > 0 {
        let t = labels.drop_last();
        lemma_long_enough(t, items, min_duration);
        let p = long_enough(t, items, min_duration);
        let r = long_enough(labels, items, min_duration);
        assert forall|v: Seq<char>| #[trigger] r.contains(v) <==> (labels.contains(v) && capped(
            label_total(items, v),
        ) > min_duration) by {
            if r.contains(v) {
                let k = choose|k: int| 0 <= k < r.len() && r[k] == v;
                if k < p.len() {
                    assert(p[k] == v);
                    assert(p.contains(v));
                    let q = choose|q: int| 0 <= q < t.len() && t[q] == v;
                    assert(labels[q] == v);
                } else {
                    assert(labels[labels.len() - 1] == v);
                }
            }
            if labels.contains(v) && capped(label_total(items, v)) > min_duration {
                let q = choose|q: int| 0 <= q < labels.len() && labels[q] == v;
                if q < t.len() {
                    assert(t[q] == v);
                    assert(p.contains(v));
                    let k = choose|k: int| 0 <= k < p.len() && p[k] == v;
                    assert(r[k] == p[k]);
                } else {
                    assert(r[p.len() as int] == v);
                }
            }
        }
    }
}

/// The videos watched for longer than `min_duration` milliseconds in all,
/// each once, in ascending order.
pub fn seen_videos(events: &[Event], min_duration: u64) -> (r: Vec<String>)
    ensures
        r@.len() == long_enough(
            labels_in_order(video_items(events@)),
            video_items(events@),
            min_duration as int,
        ).len(),
        forall|v: Seq<char>| #[trigger] texts(r@).contains(v) <==> watched(events@, v, min_duration as int),
        forall|i: int, j: int|
            0 <= i < j < r@.len() ==> !text_lt(#[trigger] r@[j]@, #[trigger] r@[i]@),
{
    let mut items: Vec<(String, u64)> = Vec::new();
    let mut i: usize = 0;
    while i < events.len()
        invariant
            i <= events@.len(),
            items_view(items@) == video_items(events@.subrange(0, i as int)),
        decreases events@.len() - i,
    {
        let ghost prev = events@.subrange(0, i as int);
        let ghost next = events@.subrange(0, i + 1);
        assert(next.drop_last() =~= prev);
        assert(next.last() == events@[i as int]);
        match video_title(events[i].data.title.as_str()) {
            Some(v) => {
                items.push((v, events[i].duration));
                assert(items_view(items@) =~= video_items(next));
            },
            None => {},
        }
        i = i + 1;
    }
    assert(events@.subrange(0, events@.len() as int) =~= events@);
    let ghost all = video_items(events@);
    let totals = totals_by_label(items.as_slice());
    let ghost labels = labels_in_order(all);
    let mut kept: Vec<String> = Vec::new();
    let mut k: usize = 0;
    assert(labels.subrange(0, 0) =~= Seq::<Seq<char>>::empty());
    assert(texts(kept@) =~= Seq::<Seq<char>>::empty());
    while k < totals.len()
        invariant
            k <= totals@.len(),
            totals@.len() == labels.len(),
            forall|q: int|
                0 <= q < totals@.len() ==> (#[trigger] totals@[q]).0@ == labels[q] && totals@[q].1
                    == capped(label_total(all, totals@[q].0@)),
            texts(kept@) == long_enough(labels.subrange(0, k as int), all, min_duration as int),
        decreases totals@.len() - k,
    {
        let ghost sub = labels.subrange(0, k as int);
        let ghost nsub = labels.subrange(0, k + 1);
        assert(nsub.drop_last() =~= sub);
        assert(nsub.last() == labels[k as int]);
        if totals[k].1 > min_duration {
            let ghost before = kept@;
            kept.push(totals[k].0.clone());
            assert(texts(kept@) =~= texts(before).push(totals@[k as int].0@));
        }
        k = k + 1;
    }
    assert(labels.subrange(0, labels.len() as int) =~= labels);
    let ghost unsorted = texts(kept@);
    sort_texts(&mut kept);
    proof {
        lemma_labels(all);
        lemma_long_enough(labels, all, min_duration as int);
        unsorted.to_multiset_ensures();
        texts(kept@).to_multiset_ensures();
        assert forall|v: Seq<char>| #[trigger] texts(kept@).contains(v) <==> watched(
            events@,
            v,
            min_duration as int,
        ) by {
            assert(texts(kept@).contains(v) <==> texts(kept@).to_multiset().count(v) > 0);
            assert(unsorted.contains(v) <==> unsorted.to_multiset().count(v) > 0);
        }
    }
    kept
}

// ----- window titles of a day -----

/// Whether a lower-case window title is a web browser's.
pub open spec fn names_browser(lowered: Seq<char>) -> bool {
    contains_seq(lowered, "firefox"@) || contains_seq(lowered, "brave"@) || contains_seq(
        lowered,
        "chromium"@,
    )
}

/// Whether a lower-case window title is a web browser's.
pub fn mentions_browser(lowered: &str) -> (r: bool)
    ensures
        r == names_browser(lowered@),
{
    text_contains(lowered, "firefox") || text_contains(lowered, "brave") || text_contains(
        lowered,
        "chromium",
    )
}

/// Whether a window title is a web browser's, in any case.
pub fn is_browser_title(title: &str) -> (r: bool)
    ensures
        r == names_browser(lower_of(title@)),
{
    let lowered = lowercase(title);
    mentions_browser(lowered.as_str())
}

/// The browser window titles of a day that stayed open longer than the
/// minimum, each once, in order of first appearance.
pub open spec fn day_titles(evs: Seq<Event>, min_duration: int) -> Seq<Seq<char>>
    decreases evs.len(),
{
    if evs.len() == 0 {
        seq![]
    } else {
        let p = day_titles(evs.drop_last(), min_duration);
        let e = evs.last();
        if e.duration > min_duration && names_browser(lower_of(e.data.title@)) && !p.contains(
            e.data.title@,
        ) {
            p.push(e.data.title@)
        } else {
            p
        }
    }
}

/// The browser window titles among a day's events that stayed open longer
/// than `min_duration` milliseconds, each once, in order of first appearance.
pub fn window_titles(events: &[Event], min_duration: u64) -> (r: Vec<String>)
    ensures
        texts(r@) == day_titles(events@, min_duration as int),
{
    let mut out: Vec<String> = Vec::new();
    let mut i: usize = 0;
    assert(events@.subrange(0, 0) =~= Seq::<Event>::empty());
    assert(texts(out@) =~= Seq::<Seq<char>>::empty());
    while i < events.len()
        invariant
            i <= events@.len(),
            texts(out@) == day_titles(events@.subrange(0, i as int), min_duration as int),
        decreases events@.len() - i,
    {
        let ghost prev = events@.subrange(0, i as int);
        let ghost next = events@.subrange(0, i + 1);
        assert(next.drop_last() =~= prev);
        assert(next.last() == events@[i as int]);
        let e = &events[i];
        if e.duration > min_duration && is_browser_title(e.data.title.as_str()) {
            let mut k: usize = 0;
            while k < out.len() && !(out[k] == e.data.title)
                invariant
                    k <= out@.len(),
                    forall|q: int| 0 <= q < k ==> (#[trigger] out@[q])@ != e.data.title@,
                decreases out@.len() - k,
            {
                k = k + 1;
            }
            if k >= out.len() {
                let ghost before = out@;
                assert(!texts(before).contains(e.data.title@)) by {
                    if texts(before).contains(e.data.title@) {
                        let q = choose|q: int| 0 <= q < texts(before).len() && texts(before)[q] == e.data.title@;
                        assert(texts(before)[q] == before[q]@);
                        assert(before[q]@ != e.data.title@);
                    }
                }
                out.push(e.data.title.clone());
                assert(texts(out@) =~= texts(before).push(e.data.title@));
            } else {
                assert(texts(out@)[k as int] == e.data.title@);
                assert(texts(out@).contains(e.data.title@));
            }
        }
        i = i + 1;
    }
    assert(events@.subrange(0, events@.len() as int) =~= events@);
    out
}

// ----- the classifier prompt -----

/// The placeholder of a prompt template that the titles replace.
pub open spec fn titles_placeholder() -> Seq<char> {
    "{{titles}}"@
}

/// The prompt for a day: the template with each `{{titles}}` replaced by the
/// titles, one per line.
pub fn get_prompt(template: &str, titles: &[String]) -> (r: String)
    ensures
        r@ == replaced(template@, titles_placeholder(), joined(texts(titles@), "\n"@)),
{
    let listed = join_texts(titles, "\n");
    replace_text(template, "{{titles}}", listed.as_str())
}

} // verus!
